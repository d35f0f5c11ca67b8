//! Daily aggregation: events grouped by local calendar day, with per-app
//! totals, the span of use, breaks and net active time.

use crate::calendar::{day_of_local, in_calendar_range, in_day_range, in_time_range, local_day, local_offset, valid_offset, TIME_LIMIT};
use crate::sessions::{
    break_total, breaks_in_range, breaks_of, find_breaks, is_sorted, lemma_breaks_ordered, sessions_in_range, sort_sessions, Break,
    BREAK_THRESHOLD, EVENT_LIMIT,
};
use vstd::prelude::*;

verus! {

/// One interval of foreground use of an application. Instants are seconds
/// since the Unix epoch; each carries the local offset from UTC in force then.
#[derive(Clone, Debug)]
pub struct UsageEvent {
    pub app: String,
    pub start_time: i64,
    pub end_time: i64,
    pub start_offset: i32,
    pub end_offset: i32,
}

/// Time spent in one application.
#[derive(Clone, Debug)]
pub struct AppUsage {
    pub app: String,
    pub usage: i64,
}

/// What one local calendar day of use comes to.
#[derive(Clone, Debug)]
pub struct DailySummary {
    /// The local day, as a day number (0 is 1970-01-01).
    pub date: i64,
    pub total_usage: i64,
    pub first_usage: i64,
    pub first_offset: i32,
    pub last_usage: i64,
    pub last_offset: i32,
    pub per_app_usage: Vec<AppUsage>,
    pub breaks: Vec<Break>,
    pub net_active_time: i64,
}

impl UsageEvent {
    pub open spec fn wf(&self) -> bool {
        &&& in_time_range(self.start_time as int)
        &&& in_time_range(self.end_time as int)
        &&& valid_offset(self.start_offset as int)
        &&& valid_offset(self.end_offset as int)
    }

    /// The local calendar day on which the event starts.
    pub open spec fn day(&self) -> int {
        day_of_local(self.start_time + self.start_offset)
    }

    pub open spec fn usage(&self) -> int {
        self.end_time - self.start_time
    }

    /// An event of the machine's local time zone, or `None` when an instant
    /// lies outside the range that the library takes.
    pub fn new(app: String, start_time: i64, end_time: i64) -> (r: Option<UsageEvent>)
        ensures
            r is Some <==> in_time_range(start_time as int) && in_time_range(end_time as int),
            r is Some ==> r->0.wf() && r->0.app == app && r->0.start_time == start_time && r->0.end_time
                == end_time,
    {
        if -TIME_LIMIT <= start_time && start_time <= TIME_LIMIT && -TIME_LIMIT <= end_time && end_time <= TIME_LIMIT {
            let start_offset = local_offset(start_time);
            let end_offset = local_offset(end_time);
            Some(UsageEvent { app, start_time, end_time, start_offset, end_offset })
        } else {
            None
        }
    }
}

pub open spec fn all_wf(evs: Seq<UsageEvent>) -> bool {
    forall|k: int| 0 <= k < evs.len() ==> (#[trigger] evs[k]).wf()
}

/// The events that start on local day `d`, in input order.
pub open spec fn on_day(evs: Seq<UsageEvent>, d: int) -> Seq<UsageEvent>
    decreases evs.len(),
{
    if evs.len() == 0 {
        seq![]
    } else {
        let p = on_day(evs.drop_last(), d);
        if evs.last().day() == d {
            p.push(evs.last())
        } else {
            p
        }
    }
}

pub open spec fn total_usage_of(s: Seq<UsageEvent>) -> int
    decreases s.len(),
{
    if s.len() == 0 {
        0
    } else {
        total_usage_of(s.drop_last()) + s.last().usage()
    }
}

pub open spec fn app_usage_of(s: Seq<UsageEvent>, app: Seq<char>) -> int
    decreases s.len(),
{
    if s.len() == 0 {
        0
    } else {
        app_usage_of(s.drop_last(), app) + if s.last().app@ == app {
            s.last().usage()
        } else {
            0
        }
    }
}

/// The applications of `s`, each once, in order of first appearance.
pub open spec fn distinct_apps(s: Seq<UsageEvent>) -> Seq<Seq<char>>
    decreases s.len(),
{
    if s.len() == 0 {
        seq![]
    } else {
        let p = distinct_apps(s.drop_last());
        if p.contains(s.last().app@) {
            p
        } else {
            p.push(s.last().app@)
        }
    }
}

/// The earliest start among `s` and its offset (the first such event on ties).
pub open spec fn first_of(s: Seq<UsageEvent>) -> (int, int)
    decreases s.len(),
{
    if s.len() <= 1 {
        if s.len() == 0 {
            (0, 0)
        } else {
            (s[0].start_time as int, s[0].start_offset as int)
        }
    } else {
        let p = first_of(s.drop_last());
        if s.last().start_time < p.0 {
            (s.last().start_time as int, s.last().start_offset as int)
        } else {
            p
        }
    }
}

/// The latest end among `s` and its offset (the first such event on ties).
pub open spec fn last_of(s: Seq<UsageEvent>) -> (int, int)
    decreases s.len(),
{
    if s.len() <= 1 {
        if s.len() == 0 {
            (0, 0)
        } else {
            (s[0].end_time as int, s[0].end_offset as int)
        }
    } else {
        let p = last_of(s.drop_last());
        if s.last().end_time > p.0 {
            (s.last().end_time as int, s.last().end_offset as int)
        } else {
            p
        }
    }
}

pub open spec fn sessions_of(s: Seq<UsageEvent>) -> Seq<(i64, i64)> {
    s.map_values(|e: UsageEvent| (e.start_time, e.end_time))
}

pub open spec fn apps_of(a: Seq<AppUsage>) -> Seq<Seq<char>> {
    a.map_values(|x: AppUsage| x.app@)
}

pub open spec fn app_sum(a: Seq<AppUsage>) -> int
    decreases a.len(),
{
    if a.len() == 0 {
        0
    } else {
        app_sum(a.drop_last()) + a.last().usage
    }
}

/// The breaks of the day's sessions taken in order of start, then end.
pub open spec fn breaks_of_sessions(b: Seq<Break>, s: Seq<UsageEvent>) -> bool {
    exists|p: Seq<(i64, i64)>|
        #![trigger breaks_of(p)]
        is_sorted(p) && p.to_multiset() == sessions_of(s).to_multiset() && b == breaks_of(p)
}

impl DailySummary {
    /// The day, the instants and the offsets lie in the ranges that the
    /// calendar functions take.
    pub open spec fn printable(&self) -> bool {
        &&& in_calendar_range(self.date as int)
        &&& in_time_range(self.first_usage as int)
        &&& in_time_range(self.last_usage as int)
        &&& valid_offset(self.first_offset as int)
        &&& valid_offset(self.last_offset as int)
        &&& breaks_in_range(self.breaks@)
    }
}

/// `r` is the summary of day `d` of the events `evs`.
pub open spec fn summarizes(r: DailySummary, evs: Seq<UsageEvent>, d: int) -> bool {
    let s = on_day(evs, d);
    &&& r.date == d
    &&& r.total_usage == total_usage_of(s)
    &&& (r.first_usage as int, r.first_offset as int) == first_of(s)
    &&& (r.last_usage as int, r.last_offset as int) == last_of(s)
    &&& apps_of(r.per_app_usage@) == distinct_apps(s)
    &&& forall|i: int|
        0 <= i < r.per_app_usage@.len() ==> (#[trigger] r.per_app_usage@[i]).usage == app_usage_of(
            s,
            r.per_app_usage@[i].app@,
        )
    &&& app_sum(r.per_app_usage@) == r.total_usage
    &&& breaks_of_sessions(r.breaks@, s)
    &&& r.net_active_time == r.last_usage - r.first_usage - break_total(r.breaks@)
}

proof fn lemma_on_day_len(evs: Seq<UsageEvent>, d: int)
    ensures
        on_day(evs, d).len() <= evs.len(),
        forall|k: int| 0 <= k < on_day(evs, d).len() ==> evs.contains(#[trigger] on_day(evs, d)[k]),
    decreases evs.len(),
{
    if evs.len() > 0 {
        lemma_on_day_len(evs.drop_last(), d);
        let p = on_day(evs.drop_last(), d);
        assert forall|k: int| 0 <= k < on_day(evs, d).len() implies evs.contains(#[trigger] on_day(evs, d)[k]) by {
            if k < p.len() {
                let j = choose|j: int| 0 <= j < evs.drop_last().len() && evs.drop_last()[j] == p[k];
                assert(evs[j] == p[k]);
            } else {
                assert(evs[evs.len() - 1] == on_day(evs, d)[k]);
            }
        }
    }
}

proof fn lemma_app_sum_update(a: Seq<AppUsage>, p: int, x: AppUsage)
    requires
        0 <= p < a.len(),
    ensures
        app_sum(a.update(p, x)) == app_sum(a) - a[p].usage + x.usage,
    decreases a.len(),
{
    if p < a.len() - 1 {
        assert(a.update(p, x).drop_last() =~= a.drop_last().update(p, x));
        lemma_app_sum_update(a.drop_last(), p, x);
    } else {
        assert(a.update(p, x).drop_last() =~= a.drop_last());
    }
}

proof fn lemma_absent_app_unused(s: Seq<UsageEvent>, app: Seq<char>)
    requires
        !distinct_apps(s).contains(app),
    ensures
        app_usage_of(s, app) == 0,
    decreases s.len(),
{
    if s.len() > 0 {
        let p = distinct_apps(s.drop_last());
        if p.contains(app) {
            let j = choose|j: int| 0 <= j < p.len() && p[j] == app;
            if !p.contains(s.last().app@) {
                assert(distinct_apps(s)[j] == app);
            }
        } else {
            lemma_absent_app_unused(s.drop_last(), app);
            if s.last().app@ == app {
                if !p.contains(app) {
                    assert(distinct_apps(s)[p.len() as int] == app);
                }
            }
        }
    }
}

/// Builds the summary of day `d` from all events.
pub fn summarize_day(events: &Vec<UsageEvent>, d: i64) -> (r: DailySummary)
    requires
        events.len() <= EVENT_LIMIT,
        all_wf(events@),
    ensures
        summarizes(r, events@, d as int),
        in_day_range(d as int) ==> r.printable(),
{
    let n = events.len();
    let mut total: i64 = 0;
    let mut first: i64 = 0;
    let mut first_off: i32 = 0;
    let mut last: i64 = 0;
    let mut last_off: i32 = 0;
    let mut seen = false;
    let mut apps: Vec<AppUsage> = Vec::new();
    let mut sess: Vec<(i64, i64)> = Vec::new();
    let ghost evs = events@;
    let ghost mut s: Seq<UsageEvent> = seq![];
    assert(evs.take(0) =~= seq![]);
    assert(sess@ =~= sessions_of(s));
    assert(apps_of(apps@) =~= seq![]);
    for i in 0..n
        invariant
            n == events.len(),
            n <= EVENT_LIMIT,
            all_wf(evs),
            evs == events@,
            s == on_day(evs.take(i as int), d as int),
            s.len() <= i,
            total == total_usage_of(s),
            -(s.len() * 2 * TIME_LIMIT) <= total <= s.len() * 2 * TIME_LIMIT,
            seen <==> s.len() > 0,
            (first as int, first_off as int) == first_of(s),
            (last as int, last_off as int) == last_of(s),
            in_time_range(first as int),
            in_time_range(last as int),
            valid_offset(first_off as int),
            valid_offset(last_off as int),
            apps_of(apps@) == distinct_apps(s),
            forall|a: int, b: int|
                0 <= a < b < apps@.len() ==> (#[trigger] apps@[a]).app@ != (#[trigger] apps@[b]).app@,
            forall|a: int|
                0 <= a < apps@.len() ==> (#[trigger] apps@[a]).usage == app_usage_of(s, apps@[a].app@),
            forall|a: int|
                0 <= a < apps@.len() ==> -(s.len() * 2 * TIME_LIMIT) <= (#[trigger] apps@[a]).usage <= s.len() * 2
                    * TIME_LIMIT,
            app_sum(apps@) == total,
            sess@ == sessions_of(s),
            sessions_in_range(sess@),
    {
        let e = &events[i];
        proof {
            assert(evs.take(i + 1).drop_last() =~= evs.take(i as int));
            assert(evs.take(i + 1).last() == evs[i as int]);
            assert(evs[i as int].wf());
        }
        let ed = local_day(e.start_time, e.start_offset);
        if ed == d {
            let ghost s0 = s;
            proof {
                s = s0.push(*e);
                assert(s.drop_last() =~= s0);
                assert(s.last() == *e);
            }
            let u: i64 = e.end_time - e.start_time;
            total = total + u;
            if !seen || e.start_time < first {
                first = e.start_time;
                first_off = e.start_offset;
            }
            if !seen || e.end_time > last {
                last = e.end_time;
                last_off = e.end_offset;
            }
            seen = true;
            let ghost old_apps = apps@;
            let mut p: usize = 0;
            while p < apps.len() && apps[p].app != e.app
                invariant
                    p <= apps.len(),
                    forall|j: int| 0 <= j < p ==> (#[trigger] apps@[j]).app@ != e.app@,
                decreases apps.len() - p,
            {
                p = p + 1;
            }
            if p < apps.len() {
                let name = apps[p].app.clone();
                let v: i64 = apps[p].usage + u;
                let item = AppUsage { app: name, usage: v };
                apps.set(p, item);
                proof {
                    assert(apps@ == old_apps.update(p as int, item));
                    assert(apps_of(old_apps)[p as int] == e.app@);
                    assert(apps_of(apps@) =~= apps_of(old_apps));
                    assert(distinct_apps(s) == distinct_apps(s0));
                    lemma_app_sum_update(old_apps, p as int, item);
                    assert forall|a: int| 0 <= a < apps@.len() implies (#[trigger] apps@[a]).usage == app_usage_of(
                        s,
                        apps@[a].app@,
                    ) by {
                        assert(app_usage_of(s, apps@[a].app@) == app_usage_of(s0, apps@[a].app@) + if e.app@
                            == apps@[a].app@ {
                            u as int
                        } else {
                            0
                        });
                        if a != p {
                            assert(old_apps[a].app@ != old_apps[p as int].app@);
                        }
                    }
                }
            } else {
                let item = AppUsage { app: e.app.clone(), usage: u };
                apps.push(item);
                proof {
                    assert(!apps_of(old_apps).contains(e.app@)) by {
                        if apps_of(old_apps).contains(e.app@) {
                            let j = choose|j: int| 0 <= j < old_apps.len() && apps_of(old_apps)[j] == e.app@;
                            assert(old_apps[j].app@ != e.app@);
                        }
                    }
                    assert(apps_of(apps@) =~= apps_of(old_apps).push(e.app@));
                    assert(apps@.drop_last() =~= old_apps);
                    lemma_absent_app_unused(s0, e.app@);
                    assert forall|a: int| 0 <= a < apps@.len() implies (#[trigger] apps@[a]).usage == app_usage_of(
                        s,
                        apps@[a].app@,
                    ) by {
                        assert(app_usage_of(s, apps@[a].app@) == app_usage_of(s0, apps@[a].app@) + if e.app@
                            == apps@[a].app@ {
                            u as int
                        } else {
                            0
                        });
                        if a < old_apps.len() {
                            assert(old_apps[a].app@ != e.app@);
                        }
                    }
                }
            }
            sess.push((e.start_time, e.end_time));
            proof {
                assert(sess@ =~= sessions_of(s));
            }
        } else {
            assert(on_day(evs.take(i + 1), d as int) == s);
        }
    }
    assert(evs.take(n as int) =~= evs);
    let sorted = sort_sessions(&sess);
    proof {
        vstd::seq_lib::to_multiset_len(sess@);
        vstd::seq_lib::to_multiset_len(sorted@);
        assert forall|k: int| 0 <= k < sorted@.len() implies in_time_range(#[trigger] sorted@[k].0 as int)
            && in_time_range(sorted@[k].1 as int) by {
            assert(sess@.contains(sorted@[k]));
            let j = choose|j: int| 0 <= j < sess@.len() && sess@[j] == sorted@[k];
            assert(in_time_range(sess@[j].0 as int) && in_time_range(sess@[j].1 as int));
        }
    }
    let (breaks, break_sum) = find_breaks(&sorted);
    let net: i64 = last - first - break_sum;
    DailySummary {
        date: d,
        total_usage: total,
        first_usage: first,
        first_offset: first_off,
        last_usage: last,
        last_offset: last_off,
        per_app_usage: apps,
        breaks,
        net_active_time: net,
    }
}

pub open spec fn days_of(evs: Seq<UsageEvent>) -> Seq<int> {
    evs.map_values(|e: UsageEvent| e.day())
}

pub open spec fn dates_of(r: Seq<DailySummary>) -> Seq<int> {
    r.map_values(|x: DailySummary| x.date as int)
}

pub open spec fn strictly_descending(r: Seq<i64>) -> bool {
    forall|a: int, b: int| 0 <= a < b < r.len() ==> r[a] > r[b]
}

/// Inserts `d` into a strictly descending sequence, unless it is there already.
fn insert_descending(r: &mut Vec<i64>, d: i64)
    requires
        strictly_descending(old(r)@),
    ensures
        strictly_descending(final(r)@),
        forall|x: i64| final(r)@.contains(x) <==> (old(r)@.contains(x) || x == d),
{
    let mut p: usize = 0;
    while p < r.len() && r[p] > d
        invariant
            p <= r.len(),
            forall|a: int| 0 <= a < p ==> r@[a] > d,
        decreases r.len() - p,
    {
        p = p + 1;
    }
    if p < r.len() && r[p] == d {
        assert(r@[p as int] == d);
    } else {
        let ghost old_r = r@;
        r.insert(p, d);
        proof {
            assert(r@ == old_r.insert(p as int, d));
            assert(r@[p as int] == d);
            assert forall|a: int, b: int| 0 <= a < b < r@.len() implies r@[a] > r@[b] by {
                if b > p && a <= p {
                    assert(old_r[p as int] < d);
                    assert(old_r[p as int] >= old_r[b - 1]);
                }
            }
            assert forall|x: i64| r@.contains(x) <== (old_r.contains(x) || x == d) by {
                if old_r.contains(x) {
                    let j = choose|j: int| 0 <= j < old_r.len() && old_r[j] == x;
                    if j < p {
                        assert(r@[j] == x);
                    } else {
                        assert(r@[j + 1] == x);
                    }
                }
            }
            assert forall|x: i64| r@.contains(x) ==> (old_r.contains(x) || x == d) by {
                if r@.contains(x) {
                    let j = choose|j: int| 0 <= j < r@.len() && r@[j] == x;
                    if j < p {
                        assert(old_r[j] == x);
                    } else if j > p {
                        assert(old_r[j - 1] == x);
                    }
                }
            }
        }
    }
}

/// The local days on which events start, each once, newest first.
fn collect_days(events: &Vec<UsageEvent>) -> (r: Vec<i64>)
    requires
        all_wf(events@),
    ensures
        strictly_descending(r@),
        forall|x: i64| r@.contains(x) <==> days_of(events@).contains(x as int),
        forall|i: int| 0 <= i < r@.len() ==> in_day_range(#[trigger] r@[i] as int),
{
    let mut r: Vec<i64> = Vec::new();
    let n = events.len();
    let ghost ds = days_of(events@);
    for i in 0..n
        invariant
            n == events.len(),
            all_wf(events@),
            ds == days_of(events@),
            strictly_descending(r@),
            forall|x: i64| r@.contains(x) <==> ds.take(i as int).contains(x as int),
            forall|a: int| 0 <= a < r@.len() ==> in_day_range(#[trigger] r@[a] as int),
    {
        assert(events@[i as int].wf());
        let d = local_day(events[i].start_time, events[i].start_offset);
        let ghost old_r = r@;
        insert_descending(&mut r, d);
        proof {
            assert(ds[i as int] == d as int);
            assert(ds.take(i + 1) =~= ds.take(i as int).push(d as int));
            assert forall|x: i64| r@.contains(x) <==> ds.take(i + 1).contains(x as int) by {
                if ds.take(i as int).contains(x as int) {
                    let j = choose|j: int| 0 <= j < i && #[trigger] ds.take(i as int)[j] == x as int;
                    assert(ds.take(i + 1)[j] == x as int);
                }
                if ds.take(i + 1).contains(x as int) {
                    let j = choose|j: int| 0 <= j < i + 1 && #[trigger] ds.take(i + 1)[j] == x as int;
                    if j < i {
                        assert(ds.take(i as int)[j] == x as int);
                    }
                }
                if x == d {
                    assert(ds.take(i + 1)[i as int] == x as int);
                }
            }
            assert forall|a: int| 0 <= a < r@.len() implies in_day_range(#[trigger] r@[a] as int) by {
                assert(r@.contains(r@[a]));
                if r@[a] != d {
                    let j = choose|j: int| 0 <= j < old_r.len() && old_r[j] == r@[a];
                }
            }
        }
    }
    proof {
        assert(ds.take(n as int) =~= ds);
    }
    r
}

/// Groups events by the local day on which they start and summarizes each
/// day; the days come newest first, each once.
pub fn aggregate_daily(events: &Vec<UsageEvent>) -> (r: Vec<DailySummary>)
    requires
        events.len() <= EVENT_LIMIT,
        all_wf(events@),
    ensures
        forall|i: int, j: int| 0 <= i < j < r@.len() ==> r@[i].date > r@[j].date,
        forall|d: int| dates_of(r@).contains(d) <==> days_of(events@).contains(d),
        forall|i: int| 0 <= i < r@.len() ==> summarizes(#[trigger] r@[i], events@, r@[i].date as int),
        forall|i: int| 0 <= i < r@.len() ==> in_day_range((#[trigger] r@[i]).date as int) && r@[i].printable(),
{
    let days = collect_days(events);
    let mut r: Vec<DailySummary> = Vec::new();
    let m = days.len();
    for i in 0..m
        invariant
            m == days.len(),
            events.len() <= EVENT_LIMIT,
            all_wf(events@),
            r@.len() == i,
            forall|a: int| 0 <= a < i ==> (#[trigger] r@[a]).date == days@[a],
            forall|a: int| 0 <= a < i ==> summarizes(#[trigger] r@[a], events@, r@[a].date as int),
            forall|a: int| 0 <= a < days@.len() ==> in_day_range(#[trigger] days@[a] as int),
            forall|a: int| 0 <= a < i ==> in_day_range((#[trigger] r@[a]).date as int) && r@[a].printable(),
    {
        let summary = summarize_day(events, days[i]);
        r.push(summary);
    }
    proof {
        assert forall|d: int| dates_of(r@).contains(d) <==> days_of(events@).contains(d) by {
            if dates_of(r@).contains(d) {
                let j = choose|j: int| 0 <= j < r@.len() && dates_of(r@)[j] == d;
                assert(days@[j] == r@[j].date);
                assert(days@.contains(days@[j]));
            }
            if days_of(events@).contains(d) {
                let k = choose|k: int| 0 <= k < events@.len() && days_of(events@)[k] == d;
                assert(in_day_range(d)) by {
                    assert(events@[k].wf());
                    crate::calendar::lemma_local_day_in_range(events@[k].start_time as int, events@[k].start_offset as int);
                }
                assert(days@.contains(d as i64));
                let j = choose|j: int| 0 <= j < days@.len() && days@[j] == d as i64;
                assert(dates_of(r@)[j] == d);
            }
        }
    }
    r
}

/// On every day, the times of the applications add up to the day's total
/// usage, which is the summed duration of the day's events.
pub proof fn lemma_app_times_sum_to_total(evs: Seq<UsageEvent>, d: int, r: DailySummary)
    requires
        summarizes(r, evs, d),
    ensures
        app_sum(r.per_app_usage@) == r.total_usage,
        r.total_usage == total_usage_of(on_day(evs, d)),
{
}

/// On every day, net active time is the span from first to last use less the
/// summed duration of the breaks; it may be negative.
pub proof fn lemma_net_active_time(evs: Seq<UsageEvent>, d: int, r: DailySummary)
    requires
        summarizes(r, evs, d),
    ensures
        r.net_active_time == (r.last_usage - r.first_usage) - break_total(r.breaks@),
{
}

/// Where no event ends before it starts, a day's breaks come in time order,
/// do not overlap, and each lasts from its start to its end, longer than the
/// threshold.
pub proof fn lemma_daily_breaks_ordered(evs: Seq<UsageEvent>, d: int, r: DailySummary)
    requires
        all_wf(evs),
        forall|k: int| 0 <= k < evs.len() ==> (#[trigger] evs[k]).usage() >= 0,
        summarizes(r, evs, d),
    ensures
        forall|i: int|
            0 <= i < r.breaks@.len() ==> {
                let b = #[trigger] r.breaks@[i];
                &&& b.duration > BREAK_THRESHOLD
                &&& b.duration == b.end - b.start
            },
        forall|i: int, j: int|
            0 <= i < j < r.breaks@.len() ==> (#[trigger] r.breaks@[i]).end <= (#[trigger] r.breaks@[j]).start,
{
    let s = on_day(evs, d);
    let p = choose|p: Seq<(i64, i64)>|
        #![trigger breaks_of(p)]
        is_sorted(p) && p.to_multiset() == sessions_of(s).to_multiset() && r.breaks@ == breaks_of(p);
    lemma_on_day_len(evs, d);
    assert forall|k: int| 0 <= k < p.len() implies in_time_range(#[trigger] p[k].0 as int) && in_time_range(
        p[k].1 as int,
    ) && p[k].0 <= p[k].1 by {
        vstd::seq_lib::to_multiset_contains(p, p[k]);
        assert(p.contains(p[k]));
        vstd::seq_lib::to_multiset_contains(sessions_of(s), p[k]);
        let j = choose|j: int| 0 <= j < sessions_of(s).len() && sessions_of(s)[j] == p[k];
        assert(evs.contains(s[j]));
        let m = choose|m: int| 0 <= m < evs.len() && evs[m] == s[j];
        assert(evs[m].wf() && evs[m].usage() >= 0);
    }
    lemma_breaks_ordered(p);
}

} // verus!
