//! Weekly aggregation: daily summaries rolled up by ISO week number.
//!
//! Weeks are keyed by their number alone, so days of different years that
//! share a week number fall into one summary.

use crate::calendar::{current_iso_week, days_from_monday, in_calendar_range, in_day_range, iso_week, iso_week_of, weekday_from_monday};
use crate::daily::{apps_of, AppUsage, DailySummary};
use vstd::prelude::*;

verus! {

/// What the days of one ISO week come to.
#[derive(Clone, Debug)]
pub struct WeeklySummary {
    pub week: u32,
    /// The Monday of the week of the first day met, as a day number.
    pub first_day: i64,
    pub total_usage: i64,
    pub net_active_hours: i64,
    pub per_app_usage: Vec<AppUsage>,
    pub is_current_week: bool,
}

pub open spec fn abs(x: int) -> int {
    if x < 0 {
        -x
    } else {
        x
    }
}

/// The summed time of `app` over a list of application times.
pub open spec fn usage_in(a: Seq<AppUsage>, app: Seq<char>) -> int
    decreases a.len(),
{
    if a.len() == 0 {
        0
    } else {
        usage_in(a.drop_last(), app) + if a.last().app@ == app {
            a.last().usage as int
        } else {
            0
        }
    }
}

pub open spec fn apps_magnitude(a: Seq<AppUsage>) -> int
    decreases a.len(),
{
    if a.len() == 0 {
        0
    } else {
        apps_magnitude(a.drop_last()) + abs(a.last().usage as int)
    }
}

pub open spec fn day_magnitude(d: DailySummary) -> int {
    abs(d.total_usage as int) + abs(d.net_active_time as int) + apps_magnitude(d.per_app_usage@)
}

/// The summed magnitude of every quantity that a roll-up of `ds` adds up.
pub open spec fn magnitude(ds: Seq<DailySummary>) -> int
    decreases ds.len(),
{
    if ds.len() == 0 {
        0
    } else {
        magnitude(ds.drop_last()) + day_magnitude(ds.last())
    }
}

pub open spec fn week_of(d: DailySummary) -> int {
    iso_week_of(d.date as int)
}

pub open spec fn monday_of(day: int) -> int {
    day - days_from_monday(day)
}

pub open spec fn week_present(ds: Seq<DailySummary>, wk: int) -> bool
    decreases ds.len(),
{
    ds.len() > 0 && (week_present(ds.drop_last(), wk) || week_of(ds.last()) == wk)
}

pub open spec fn week_total(ds: Seq<DailySummary>, wk: int) -> int
    decreases ds.len(),
{
    if ds.len() == 0 {
        0
    } else {
        week_total(ds.drop_last(), wk) + if week_of(ds.last()) == wk {
            ds.last().total_usage as int
        } else {
            0
        }
    }
}

pub open spec fn week_net(ds: Seq<DailySummary>, wk: int) -> int
    decreases ds.len(),
{
    if ds.len() == 0 {
        0
    } else {
        week_net(ds.drop_last(), wk) + if week_of(ds.last()) == wk {
            ds.last().net_active_time as int
        } else {
            0
        }
    }
}

/// The Monday of the first day of `ds` in week `wk`.
pub open spec fn week_first_day(ds: Seq<DailySummary>, wk: int) -> int
    decreases ds.len(),
{
    if ds.len() == 0 {
        0
    } else if week_present(ds.drop_last(), wk) {
        week_first_day(ds.drop_last(), wk)
    } else {
        monday_of(ds.last().date as int)
    }
}

pub open spec fn week_app(ds: Seq<DailySummary>, wk: int, app: Seq<char>) -> int
    decreases ds.len(),
{
    if ds.len() == 0 {
        0
    } else {
        week_app(ds.drop_last(), wk, app) + if week_of(ds.last()) == wk {
            usage_in(ds.last().per_app_usage@, app)
        } else {
            0
        }
    }
}

pub open spec fn week_has_app(ds: Seq<DailySummary>, wk: int, app: Seq<char>) -> bool
    decreases ds.len(),
{
    ds.len() > 0 && (week_has_app(ds.drop_last(), wk, app) || (week_of(ds.last()) == wk && apps_of(
        ds.last().per_app_usage@,
    ).contains(app)))
}

pub open spec fn apps_unique(a: Seq<AppUsage>) -> bool {
    forall|i: int, j: int| 0 <= i < j < a.len() ==> (#[trigger] a[i]).app@ != (#[trigger] a[j]).app@
}

/// `w` is the roll-up of the days of `ds` in its week.
pub open spec fn rolls_up(w: WeeklySummary, ds: Seq<DailySummary>, current_week: u32) -> bool {
    let wk = w.week as int;
    &&& week_present(ds, wk)
    &&& w.total_usage == week_total(ds, wk)
    &&& w.net_active_hours == week_net(ds, wk)
    &&& w.first_day == week_first_day(ds, wk)
    &&& w.is_current_week == (w.week == current_week)
    &&& apps_unique(w.per_app_usage@)
    &&& forall|app: Seq<char>| #[trigger] usage_in(w.per_app_usage@, app) == week_app(ds, wk, app)
    &&& forall|app: Seq<char>| #[trigger] apps_of(w.per_app_usage@).contains(app) <==> week_has_app(ds, wk, app)
}

pub open spec fn weeks_of(r: Seq<WeeklySummary>) -> Seq<int> {
    r.map_values(|w: WeeklySummary| w.week as int)
}

pub open spec fn dates_in_range(ds: Seq<DailySummary>) -> bool {
    forall|i: int| 0 <= i < ds.len() ==> in_day_range((#[trigger] ds[i]).date as int)
}

proof fn lemma_usage_in_update(a: Seq<AppUsage>, p: int, x: AppUsage, app: Seq<char>)
    requires
        0 <= p < a.len(),
    ensures
        usage_in(a.update(p, x), app) == usage_in(a, app) - (if a[p].app@ == app {
            a[p].usage as int
        } else {
            0
        }) + (if x.app@ == app {
            x.usage as int
        } else {
            0
        }),
        apps_magnitude(a.update(p, x)) == apps_magnitude(a) - abs(a[p].usage as int) + abs(x.usage as int),
    decreases a.len(),
{
    if p < a.len() - 1 {
        assert(a.update(p, x).drop_last() =~= a.drop_last().update(p, x));
        lemma_usage_in_update(a.drop_last(), p, x, app);
    } else {
        assert(a.update(p, x).drop_last() =~= a.drop_last());
    }
}

proof fn lemma_entry_within_magnitude(a: Seq<AppUsage>, p: int)
    requires
        0 <= p < a.len(),
    ensures
        abs(a[p].usage as int) <= apps_magnitude(a),
    decreases a.len(),
{
    lemma_magnitude_nonneg(a.drop_last());
    if p < a.len() - 1 {
        lemma_entry_within_magnitude(a.drop_last(), p);
    }
}

proof fn lemma_magnitude_nonneg(a: Seq<AppUsage>)
    ensures
        apps_magnitude(a) >= 0,
    decreases a.len(),
{
    if a.len() > 0 {
        lemma_magnitude_nonneg(a.drop_last());
    }
}

/// Adds the application times of `add` into `acc`.
fn merge_apps(acc: &mut Vec<AppUsage>, add: &Vec<AppUsage>)
    requires
        apps_unique(old(acc)@),
        apps_magnitude(old(acc)@) + apps_magnitude(add@) <= i64::MAX,
    ensures
        apps_unique(final(acc)@),
        forall|app: Seq<char>| #[trigger] usage_in(final(acc)@, app) == usage_in(old(acc)@, app) + usage_in(add@, app),
        forall|app: Seq<char>|
            #[trigger] apps_of(final(acc)@).contains(app) <==> (apps_of(old(acc)@).contains(app) || apps_of(
                add@,
            ).contains(app)),
        apps_magnitude(final(acc)@) <= apps_magnitude(old(acc)@) + apps_magnitude(add@),
{
    let ghost acc0 = acc@;
    let m = add.len();
    assert(add@.take(0) =~= seq![]);
    for j in 0..m
        invariant
            m == add.len(),
            apps_magnitude(acc0) + apps_magnitude(add@) <= i64::MAX,
            apps_unique(acc@),
            forall|app: Seq<char>| #[trigger] usage_in(acc@, app) == usage_in(acc0, app) + usage_in(add@.take(j as int), app),
            forall|app: Seq<char>|
                #[trigger] apps_of(acc@).contains(app) <==> (apps_of(acc0).contains(app) || apps_of(
                    add@.take(j as int),
                ).contains(app)),
            apps_magnitude(acc@) <= apps_magnitude(acc0) + apps_magnitude(add@.take(j as int)),
    {
        let ghost t0 = add@.take(j as int);
        let ghost t1 = add@.take(j + 1);
        let ghost old_acc = acc@;
        proof {
            assert(t1.drop_last() =~= t0);
            assert(t1.last() == add@[j as int]);
            assert(apps_of(t1) =~= apps_of(t0).push(add@[j as int].app@));
            lemma_magnitude_nonneg(acc@);
            lemma_magnitude_nonneg(t0);
            assert(apps_magnitude(add@) >= apps_magnitude(t1)) by {
                lemma_prefix_magnitude(add@, j + 1);
            }
            lemma_entry_within_magnitude(t1, j as int);
        }
        let mut p: usize = 0;
        while p < acc.len() && acc[p].app != add[j].app
            invariant
                p <= acc.len(),
                j < add.len(),
                forall|i: int| 0 <= i < p ==> (#[trigger] acc@[i]).app@ != add@[j as int].app@,
            decreases acc.len() - p,
        {
            p = p + 1;
        }
        if p < acc.len() {
            proof {
                lemma_entry_within_magnitude(acc@, p as int);
            }
            let name = acc[p].app.clone();
            let v: i64 = acc[p].usage + add[j].usage;
            let item = AppUsage { app: name, usage: v };
            acc.set(p, item);
            proof {
                assert(acc@ == old_acc.update(p as int, item));
                assert forall|app: Seq<char>| #[trigger] usage_in(acc@, app) == usage_in(acc0, app) + usage_in(t1, app) by {
                    lemma_usage_in_update(old_acc, p as int, item, app);
                    assert(usage_in(old_acc, app) == usage_in(acc0, app) + usage_in(t0, app));
                }
                lemma_usage_in_update(old_acc, p as int, item, seq![]);
                assert(apps_of(acc@) =~= apps_of(old_acc));
                assert forall|app: Seq<char>|
                    #[trigger] apps_of(acc@).contains(app) <==> (apps_of(acc0).contains(app) || apps_of(t1).contains(app)) by {
                    if app == add@[j as int].app@ {
                        assert(apps_of(acc@)[p as int] == app);
                        assert(apps_of(t1)[j as int] == app);
                    }
                    if apps_of(t1).contains(app) && app != add@[j as int].app@ {
                        let k = choose|k: int| 0 <= k < apps_of(t1).len() && apps_of(t1)[k] == app;
                        assert(apps_of(t0)[k] == app);
                    }
                    if apps_of(t0).contains(app) {
                        let k = choose|k: int| 0 <= k < apps_of(t0).len() && apps_of(t0)[k] == app;
                        assert(apps_of(t1)[k] == app);
                    }
                    assert(apps_of(old_acc).contains(app) <==> (apps_of(acc0).contains(app) || apps_of(t0).contains(app)));
                }
                assert forall|a: int, b: int| 0 <= a < b < acc@.len() implies (#[trigger] acc@[a]).app@ != (
                #[trigger] acc@[b]).app@ by {
                    assert(old_acc[a].app@ != old_acc[b].app@);
                }
            }
        } else {
            let item = AppUsage { app: add[j].app.clone(), usage: add[j].usage };
            acc.push(item);
            proof {
                assert(acc@.drop_last() =~= old_acc);
                assert(apps_of(acc@) =~= apps_of(old_acc).push(item.app@));
                assert forall|app: Seq<char>|
                    #[trigger] apps_of(acc@).contains(app) <==> (apps_of(acc0).contains(app) || apps_of(t1).contains(app)) by {
                    if app == item.app@ {
                        assert(apps_of(acc@)[old_acc.len() as int] == app);
                        assert(apps_of(t1)[j as int] == app);
                    }
                    if apps_of(acc@).contains(app) && app != item.app@ {
                        let k = choose|k: int| 0 <= k < apps_of(acc@).len() && apps_of(acc@)[k] == app;
                        assert(apps_of(old_acc)[k] == app);
                    }
                    if apps_of(t1).contains(app) && app != item.app@ {
                        let k = choose|k: int| 0 <= k < apps_of(t1).len() && apps_of(t1)[k] == app;
                        assert(apps_of(t0)[k] == app);
                    }
                    if apps_of(old_acc).contains(app) {
                        let k = choose|k: int| 0 <= k < apps_of(old_acc).len() && apps_of(old_acc)[k] == app;
                        assert(apps_of(acc@)[k] == app);
                    }
                    if apps_of(t0).contains(app) {
                        let k = choose|k: int| 0 <= k < apps_of(t0).len() && apps_of(t0)[k] == app;
                        assert(apps_of(t1)[k] == app);
                    }
                    assert(apps_of(old_acc).contains(app) <==> (apps_of(acc0).contains(app) || apps_of(t0).contains(app)));
                }
                assert forall|app: Seq<char>| #[trigger] usage_in(acc@, app) == usage_in(acc0, app) + usage_in(t1, app) by {
                    assert(usage_in(old_acc, app) == usage_in(acc0, app) + usage_in(t0, app));
                }
                assert forall|a: int, b: int| 0 <= a < b < acc@.len() implies (#[trigger] acc@[a]).app@ != (
                #[trigger] acc@[b]).app@ by {
                    if b < old_acc.len() {
                        assert(old_acc[a].app@ != old_acc[b].app@);
                    }
                }
            }
        }
    }
    assert(add@.take(m as int) =~= add@);
}

proof fn lemma_prefix_magnitude(a: Seq<AppUsage>, n: int)
    requires
        0 <= n <= a.len(),
    ensures
        apps_magnitude(a.take(n)) <= apps_magnitude(a),
    decreases a.len(),
{
    if n < a.len() {
        assert(a.drop_last().take(n) =~= a.take(n));
        lemma_prefix_magnitude(a.drop_last(), n);
    } else {
        assert(a.take(n) =~= a);
    }
}

pub open spec fn week_magnitude(w: WeeklySummary) -> int {
    abs(w.total_usage as int) + abs(w.net_active_hours as int) + apps_magnitude(w.per_app_usage@)
}

/// `r` holds one roll-up for each week number met in `ds`, highest first.
pub open spec fn is_weekly_rollup(r: Seq<WeeklySummary>, ds: Seq<DailySummary>, current_week: u32) -> bool {
    &&& forall|a: int, b: int| 0 <= a < b < r.len() ==> r[a].week > r[b].week
    &&& forall|wk: int| weeks_of(r).contains(wk) <==> week_present(ds, wk)
    &&& forall|a: int| 0 <= a < r.len() ==> rolls_up(#[trigger] r[a], ds, current_week)
}

proof fn lemma_absent_week(ds: Seq<DailySummary>, wk: int)
    requires
        !week_present(ds, wk),
    ensures
        week_total(ds, wk) == 0,
        week_net(ds, wk) == 0,
        forall|app: Seq<char>| #[trigger] week_app(ds, wk, app) == 0,
        forall|app: Seq<char>| !#[trigger] week_has_app(ds, wk, app),
    decreases ds.len(),
{
    if ds.len() > 0 {
        lemma_absent_week(ds.drop_last(), wk);
        assert forall|app: Seq<char>| #[trigger] week_app(ds, wk, app) == 0 by {
            assert(week_app(ds.drop_last(), wk, app) == 0);
        }
        assert forall|app: Seq<char>| !#[trigger] week_has_app(ds, wk, app) by {
            assert(!week_has_app(ds.drop_last(), wk, app));
        }
    }
}

proof fn lemma_rolls_up_other(w: WeeklySummary, ds: Seq<DailySummary>, x: DailySummary, c: u32)
    requires
        rolls_up(w, ds, c),
        week_of(x) != w.week as int,
    ensures
        rolls_up(w, ds.push(x), c),
{
    let ds2 = ds.push(x);
    let wk = w.week as int;
    assert(ds2.drop_last() =~= ds);
    assert forall|app: Seq<char>| #[trigger] usage_in(w.per_app_usage@, app) == week_app(ds2, wk, app) by {
        assert(usage_in(w.per_app_usage@, app) == week_app(ds, wk, app));
    }
    assert forall|app: Seq<char>| #[trigger] apps_of(w.per_app_usage@).contains(app) <==> week_has_app(ds2, wk, app) by {
        assert(apps_of(w.per_app_usage@).contains(app) <==> week_has_app(ds, wk, app));
    }
}

proof fn lemma_magnitude_step(ds: Seq<DailySummary>, n: int)
    requires
        0 <= n < ds.len(),
    ensures
        magnitude(ds.take(n + 1)) == magnitude(ds.take(n)) + day_magnitude(ds[n]),
        day_magnitude(ds[n]) >= 0,
        magnitude(ds.take(n + 1)) <= magnitude(ds),
{
    assert(ds.take(n + 1).drop_last() =~= ds.take(n));
    lemma_magnitude_nonneg(ds[n].per_app_usage@);
    lemma_magnitude_prefix(ds, n + 1);
}

proof fn lemma_magnitude_prefix(ds: Seq<DailySummary>, n: int)
    requires
        0 <= n <= ds.len(),
    ensures
        magnitude(ds.take(n)) <= magnitude(ds),
        magnitude(ds.take(n)) >= 0,
    decreases ds.len(),
{
    if n < ds.len() {
        assert(ds.drop_last().take(n) =~= ds.take(n));
        lemma_magnitude_prefix(ds.drop_last(), n);
        lemma_magnitude_nonneg(ds.last().per_app_usage@);
    } else {
        assert(ds.take(n) =~= ds);
        if n > 0 {
            lemma_magnitude_prefix(ds.drop_last(), n - 1);
            assert(ds.drop_last().take(n - 1) =~= ds.drop_last());
            lemma_magnitude_nonneg(ds.last().per_app_usage@);
        }
    }
}

/// Adds a day into the roll-up of its week, which is at `p`.
fn add_to_week(
    weeks: &mut Vec<WeeklySummary>,
    p: usize,
    wk: u32,
    x: &DailySummary,
    current_week: u32,
    Ghost(d0): Ghost<Seq<DailySummary>>,
    Ghost(d1): Ghost<Seq<DailySummary>>,
)
    requires
        is_weekly_rollup(old(weeks)@, d0, current_week),
        forall|a: int| 0 <= a < old(weeks)@.len() ==> in_calendar_range((#[trigger] old(weeks)@[a]).first_day as int),
        forall|a: int| 0 <= a < old(weeks)@.len() ==> week_magnitude(#[trigger] old(weeks)@[a]) <= magnitude(d0),
        magnitude(d1) == magnitude(d0) + day_magnitude(*x),
        magnitude(d1) <= i64::MAX,
        day_magnitude(*x) >= 0,
        magnitude(d0) >= 0,
        d1.len() == d0.len() + 1,
        d1.drop_last() == d0,
        d1.last() == *x,
        wk as int == week_of(*x),
        in_day_range(x.date as int),
        p <= old(weeks)@.len(),
        forall|a: int| 0 <= a < p ==> (#[trigger] old(weeks)@[a]).week > wk,
        p < old(weeks)@.len(),
        old(weeks)@[p as int].week == wk,
    ensures
        is_weekly_rollup(final(weeks)@, d1, current_week),
        forall|a: int| 0 <= a < final(weeks)@.len() ==> in_calendar_range((#[trigger] final(weeks)@[a]).first_day as int),
        forall|a: int| 0 <= a < final(weeks)@.len() ==> week_magnitude(#[trigger] final(weeks)@[a]) <= magnitude(d1),
{
    let ghost old_weeks = weeks@;
        let w = weeks.remove(p);
        proof {
            assert(w == old_weeks[p as int]);
            assert(rolls_up(w, d0, current_week));
            lemma_magnitude_nonneg(w.per_app_usage@);
            lemma_magnitude_nonneg(x.per_app_usage@);
        }
        let WeeklySummary { week, first_day, total_usage, net_active_hours, per_app_usage, is_current_week } = w;
        let mut apps = per_app_usage;
        merge_apps(&mut apps, &x.per_app_usage);
        let w2 = WeeklySummary {
            week,
            first_day,
            total_usage: total_usage + x.total_usage,
            net_active_hours: net_active_hours + x.net_active_time,
            per_app_usage: apps,
            is_current_week,
        };
        weeks.insert(p, w2);
        proof {
            assert(weeks@ =~= old_weeks.update(p as int, w2));
            let wki = wk as int;
            assert forall|app: Seq<char>| #[trigger] usage_in(w2.per_app_usage@, app) == week_app(d1, wki, app) by {
                assert(usage_in(w.per_app_usage@, app) == week_app(d0, wki, app));
            }
            assert forall|app: Seq<char>| #[trigger] apps_of(w2.per_app_usage@).contains(app) <==> week_has_app(d1, wki, app) by {
                assert(apps_of(w.per_app_usage@).contains(app) <==> week_has_app(d0, wki, app));
            }
            assert(rolls_up(w2, d1, current_week));
            assert forall|a: int| 0 <= a < weeks@.len() implies rolls_up(#[trigger] weeks@[a], d1, current_week) by {
                if a != p {
                    assert(old_weeks[a].week != old_weeks[p as int].week);
                    lemma_rolls_up_other(old_weeks[a], d0, *x, current_week);
                }
            }
            assert(weeks_of(weeks@) =~= weeks_of(old_weeks));
            assert forall|k: int| weeks_of(weeks@).contains(k) <==> week_present(d1, k) by {
                assert(weeks_of(old_weeks).contains(k) <==> week_present(d0, k));
                if k == wki {
                    assert(weeks_of(weeks@)[p as int] == k);
                }
            }
            assert forall|a: int| 0 <= a < weeks@.len() implies week_magnitude(#[trigger] weeks@[a]) <= magnitude(d1) by {
                assert(week_magnitude(old_weeks[a]) <= magnitude(d0));
            }
        }
}

/// Starts the roll-up of the week of a day at `p`, where no day of that week
/// has been met.
fn start_week(
    weeks: &mut Vec<WeeklySummary>,
    p: usize,
    wk: u32,
    x: &DailySummary,
    current_week: u32,
    Ghost(d0): Ghost<Seq<DailySummary>>,
    Ghost(d1): Ghost<Seq<DailySummary>>,
)
    requires
        is_weekly_rollup(old(weeks)@, d0, current_week),
        forall|a: int| 0 <= a < old(weeks)@.len() ==> in_calendar_range((#[trigger] old(weeks)@[a]).first_day as int),
        forall|a: int| 0 <= a < old(weeks)@.len() ==> week_magnitude(#[trigger] old(weeks)@[a]) <= magnitude(d0),
        magnitude(d1) == magnitude(d0) + day_magnitude(*x),
        magnitude(d1) <= i64::MAX,
        day_magnitude(*x) >= 0,
        magnitude(d0) >= 0,
        d1.len() == d0.len() + 1,
        d1.drop_last() == d0,
        d1.last() == *x,
        wk as int == week_of(*x),
        in_day_range(x.date as int),
        p <= old(weeks)@.len(),
        forall|a: int| 0 <= a < p ==> (#[trigger] old(weeks)@[a]).week > wk,
        p < old(weeks)@.len() ==> old(weeks)@[p as int].week < wk,
    ensures
        is_weekly_rollup(final(weeks)@, d1, current_week),
        forall|a: int| 0 <= a < final(weeks)@.len() ==> in_calendar_range((#[trigger] final(weeks)@[a]).first_day as int),
        forall|a: int| 0 <= a < final(weeks)@.len() ==> week_magnitude(#[trigger] final(weeks)@[a]) <= magnitude(d1),
{
    let ghost old_weeks = weeks@;
        let mut apps: Vec<AppUsage> = Vec::new();
        proof {
            lemma_magnitude_nonneg(x.per_app_usage@);
            assert(apps_unique(apps@));
        }
        merge_apps(&mut apps, &x.per_app_usage);
        let wd = weekday_from_monday(x.date);
        let w2 = WeeklySummary {
            week: wk,
            first_day: x.date - wd as i64,
            total_usage: x.total_usage,
            net_active_hours: x.net_active_time,
            per_app_usage: apps,
            is_current_week: wk == current_week,
        };
        weeks.insert(p, w2);
        proof {
            let wki = wk as int;
            assert(weeks@ == old_weeks.insert(p as int, w2));
            assert(!week_present(d0, wki)) by {
                if week_present(d0, wki) {
                    assert(weeks_of(old_weeks).contains(wki));
                    let j = choose|j: int| 0 <= j < weeks_of(old_weeks).len() && weeks_of(old_weeks)[j] == wki;
                    if j < p {
                        assert(old_weeks[j].week > wk);
                    } else if j > p {
                        assert(old_weeks[p as int].week > old_weeks[j].week);
                        assert(old_weeks[p as int].week < wk);
                    }
                }
            }
            lemma_absent_week(d0, wki);
            assert forall|app: Seq<char>| #[trigger] usage_in(w2.per_app_usage@, app) == week_app(d1, wki, app) by {
                assert(week_app(d0, wki, app) == 0);
                assert(usage_in(Seq::<AppUsage>::empty(), app) == 0);
            }
            assert forall|app: Seq<char>| #[trigger] apps_of(w2.per_app_usage@).contains(app) <==> week_has_app(d1, wki, app) by {
                assert(!week_has_app(d0, wki, app));
                assert(!apps_of(Seq::<AppUsage>::empty()).contains(app));
            }
            assert(rolls_up(w2, d1, current_week));
            assert forall|a: int| 0 <= a < weeks@.len() implies rolls_up(#[trigger] weeks@[a], d1, current_week) by {
                if a < p {
                    lemma_rolls_up_other(old_weeks[a], d0, *x, current_week);
                } else if a > p {
                    lemma_rolls_up_other(old_weeks[a - 1], d0, *x, current_week);
                }
            }
            assert forall|a: int, b: int| 0 <= a < b < weeks@.len() implies weeks@[a].week > weeks@[b].week by {
                if b > p && a <= p {
                    assert(old_weeks[p as int].week < wk);
                    assert(old_weeks[p as int].week >= old_weeks[b - 1].week);
                }
            }
            assert forall|k: int| weeks_of(weeks@).contains(k) <==> week_present(d1, k) by {
                if weeks_of(old_weeks).contains(k) {
                    let j = choose|j: int| 0 <= j < weeks_of(old_weeks).len() && weeks_of(old_weeks)[j] == k;
                    if j < p {
                        assert(weeks_of(weeks@)[j] == k);
                    } else {
                        assert(weeks_of(weeks@)[j + 1] == k);
                    }
                }
                if weeks_of(weeks@).contains(k) {
                    let j = choose|j: int| 0 <= j < weeks_of(weeks@).len() && weeks_of(weeks@)[j] == k;
                    if j < p {
                        assert(weeks_of(old_weeks)[j] == k);
                    } else if j > p {
                        assert(weeks_of(old_weeks)[j - 1] == k);
                    }
                }
                if k == wki {
                    assert(weeks_of(weeks@)[p as int] == k);
                }
                assert(weeks_of(old_weeks).contains(k) <==> week_present(d0, k));
            }
            assert forall|a: int| 0 <= a < weeks@.len() implies week_magnitude(#[trigger] weeks@[a]) <= magnitude(d1) by {
                if a < p {
                    assert(week_magnitude(old_weeks[a]) <= magnitude(d0));
                } else if a > p {
                    assert(week_magnitude(old_weeks[a - 1]) <= magnitude(d0));
                }
            }
        }
    }

/// Rolls daily summaries up by ISO week number, given the number of the
/// current week; the weeks come highest number first.
pub fn aggregate_weekly_at(daily: &Vec<DailySummary>, current_week: u32) -> (r: Vec<WeeklySummary>)
    requires
        dates_in_range(daily@),
        magnitude(daily@) <= i64::MAX,
    ensures
        is_weekly_rollup(r@, daily@, current_week),
        forall|a: int| 0 <= a < r@.len() ==> in_calendar_range((#[trigger] r@[a]).first_day as int),
{
    let mut weeks: Vec<WeeklySummary> = Vec::new();
    let n = daily.len();
    let ghost ds = daily@;
    assert(ds.take(0) =~= seq![]);
    for i in 0..n
        invariant
            n == daily.len(),
            ds == daily@,
            dates_in_range(ds),
            magnitude(ds) <= i64::MAX,
            is_weekly_rollup(weeks@, ds.take(i as int), current_week),
            forall|a: int| 0 <= a < weeks@.len() ==> in_calendar_range((#[trigger] weeks@[a]).first_day as int),
            forall|a: int| 0 <= a < weeks@.len() ==> week_magnitude(#[trigger] weeks@[a]) <= magnitude(ds.take(i as int)),
    {
        let x = &daily[i];
        let ghost d0 = ds.take(i as int);
        let ghost d1 = ds.take(i + 1);
        proof {
            assert(d1.drop_last() =~= d0);
            assert(d1.last() == *x);
            lemma_magnitude_step(ds, i as int);
            lemma_magnitude_prefix(ds, i as int);
            assert(in_day_range(x.date as int));
        }
        let wk = iso_week(x.date);
        let mut p: usize = 0;
        while p < weeks.len() && weeks[p].week > wk
            invariant
                p <= weeks.len(),
                forall|a: int| 0 <= a < p ==> (#[trigger] weeks@[a]).week > wk,
            decreases weeks.len() - p,
        {
            p = p + 1;
        }
        if p < weeks.len() && weeks[p].week == wk {
            add_to_week(&mut weeks, p, wk, x, current_week, Ghost(d0), Ghost(d1));
        } else {
            start_week(&mut weeks, p, wk, x, current_week, Ghost(d0), Ghost(d1));
        }
    }
    assert(ds.take(n as int) =~= ds);
    weeks
}

/// Rolls daily summaries up by ISO week number, marking the week that
/// contains today by the machine's clock.
pub fn aggregate_weekly(daily: &Vec<DailySummary>) -> (r: Vec<WeeklySummary>)
    requires
        dates_in_range(daily@),
        magnitude(daily@) <= i64::MAX,
    ensures
        exists|c: u32| 1 <= c <= 53 && is_weekly_rollup(r@, daily@, c),
        forall|a: int| 0 <= a < r@.len() ==> in_calendar_range((#[trigger] r@[a]).first_day as int),
{
    let current = current_iso_week();
    aggregate_weekly_at(daily, current)
}

/// A week's total usage is the sum of the total usage of the days in it.
pub proof fn lemma_week_total_is_sum_of_days(r: Seq<WeeklySummary>, ds: Seq<DailySummary>, c: u32, a: int)
    requires
        is_weekly_rollup(r, ds, c),
        0 <= a < r.len(),
    ensures
        r[a].total_usage == week_total(ds, r[a].week as int),
        r[a].net_active_hours == week_net(ds, r[a].week as int),
{
    assert(rolls_up(r[a], ds, c));
}

fn abs_wide(x: i64) -> (r: i128)
    ensures
        r as int == abs(x as int),
{
    let v = x as i128;
    if v < 0 {
        -v
    } else {
        v
    }
}

/// Whether every sum that a roll-up of `daily` forms fits in an `i64`.
pub fn fits_weekly(daily: &Vec<DailySummary>) -> (r: bool)
    ensures
        r == (magnitude(daily@) <= i64::MAX),
{
    let max: i128 = i64::MAX as i128;
    let mut acc: i128 = 0;
    let n = daily.len();
    let ghost ds = daily@;
    assert(ds.take(0) =~= seq![]);
    for i in 0..n
        invariant
            n == daily.len(),
            ds == daily@,
            acc == magnitude(ds.take(i as int)),
            acc <= max,
            max == i64::MAX,
    {
        let x = &daily[i];
        proof {
            lemma_magnitude_step(ds, i as int);
            lemma_magnitude_prefix(ds, i as int);
        }
        acc = acc + abs_wide(x.total_usage) + abs_wide(x.net_active_time);
        if acc > max {
            proof {
                lemma_magnitude_nonneg(x.per_app_usage@);
            }
            return false;
        }
        let m = x.per_app_usage.len();
        let ghost a = x.per_app_usage@;
        let ghost base = magnitude(ds.take(i as int)) + abs(x.total_usage as int) + abs(x.net_active_time as int);
        assert(a.take(0) =~= seq![]);
        for j in 0..m
            invariant
                m == a.len(),
                a == x.per_app_usage@,
                acc == base + apps_magnitude(a.take(j as int)),
                acc <= max,
                max == i64::MAX,
                i < n,
                n == ds.len(),
                ds == daily@,
                base + apps_magnitude(a) == magnitude(ds.take(i + 1)),
                magnitude(ds.take(i + 1)) <= magnitude(ds),
        {
            proof {
                assert(a.take(j + 1).drop_last() =~= a.take(j as int));
                assert(a.take(j + 1).last() == a[j as int]);
                assert(apps_magnitude(a.take(j + 1)) == apps_magnitude(a.take(j as int)) + abs(a[j as int].usage as int));
            }
            acc = acc + abs_wide(x.per_app_usage[j].usage);
            if acc > max {
                proof {
                    lemma_prefix_magnitude(a, j + 1);
                    assert(acc == base + apps_magnitude(a.take(j + 1)));
                }
                return false;
            }
        }
        proof {
            assert(a.take(m as int) =~= a);
        }
    }
    assert(ds.take(n as int) =~= ds);
    true
}

} // verus!
