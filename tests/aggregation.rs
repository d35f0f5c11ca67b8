use usage_stats::calendar::local_day;
use usage_stats::daily::{aggregate_daily, AppUsage, DailySummary, UsageEvent};
use usage_stats::sessions::{find_breaks, sort_sessions, Break};
use usage_stats::text::{daily_detail, format_duration, weekly_detail, weekly_label};
use usage_stats::weekly::{aggregate_weekly, aggregate_weekly_at, fits_weekly, WeeklySummary};

// 2024-01-15, a Monday, at 00:00 UTC.
const MONDAY: i64 = 1_705_276_800;
const MONDAY_DAY: i64 = 19_737;

fn at(hour: i64, minute: i64) -> i64 {
    MONDAY + hour * 3600 + minute * 60
}

fn event(app: &str, start: i64, end: i64) -> UsageEvent {
    UsageEvent { app: app.to_string(), start_time: start, end_time: end, start_offset: 0, end_offset: 0 }
}

fn usage_of(d: &DailySummary, app: &str) -> Option<i64> {
    d.per_app_usage.iter().find(|a| a.app == app).map(|a| a.usage)
}

fn day(date: i64, total: i64, net: i64, apps: Vec<(&str, i64)>) -> DailySummary {
    DailySummary {
        date,
        total_usage: total,
        first_usage: date * 86_400,
        first_offset: 0,
        last_usage: date * 86_400 + 3600,
        last_offset: 0,
        per_app_usage: apps.into_iter().map(|(a, u)| AppUsage { app: a.to_string(), usage: u }).collect(),
        breaks: Vec::new(),
        net_active_time: net,
    }
}

#[test]
fn two_events_with_a_fifteen_minute_gap() {
    let events = vec![event("Browser", at(9, 0), at(9, 30)), event("Editor", at(9, 45), at(10, 0))];
    let daily = aggregate_daily(&events);
    assert_eq!(daily.len(), 1);
    let d = &daily[0];
    assert_eq!(d.date, MONDAY_DAY);
    assert_eq!(d.breaks, vec![Break { start: at(9, 30), end: at(9, 45), duration: 900 }]);
    assert_eq!(d.net_active_time, 3600 - 900);
    assert_eq!(d.total_usage, 2700);
    assert_eq!(d.first_usage, at(9, 0));
    assert_eq!(d.last_usage, at(10, 0));
    assert_eq!(usage_of(d, "Browser"), Some(1800));
    assert_eq!(usage_of(d, "Editor"), Some(900));
}

#[test]
fn five_minute_gap_is_no_break() {
    let events = vec![event("Browser", at(9, 0), at(9, 30)), event("Editor", at(9, 35), at(10, 0))];
    let daily = aggregate_daily(&events);
    assert_eq!(daily.len(), 1);
    assert!(daily[0].breaks.is_empty());
    assert_eq!(daily[0].net_active_time, at(10, 0) - at(9, 0));
}

#[test]
fn gap_of_exactly_ten_minutes_is_no_break() {
    let events = vec![event("A", at(9, 0), at(9, 30)), event("A", at(9, 40), at(10, 0))];
    let daily = aggregate_daily(&events);
    assert!(daily[0].breaks.is_empty());
}

#[test]
fn empty_input_gives_empty_sequences() {
    let daily = aggregate_daily(&Vec::new());
    assert!(daily.is_empty());
    let weekly = aggregate_weekly_at(&daily, 3);
    assert!(weekly.is_empty());
    let weekly_now = aggregate_weekly(&daily);
    assert!(weekly_now.is_empty());
}

#[test]
fn app_times_add_up_to_total_on_every_day() {
    let events = vec![
        event("A", at(8, 0), at(8, 20)),
        event("B", at(8, 30), at(9, 0)),
        event("A", at(9, 10), at(9, 15)),
        event("C", at(30, 0), at(30, 45)),
        event("A", at(31, 0), at(31, 1)),
    ];
    let daily = aggregate_daily(&events);
    assert_eq!(daily.len(), 2);
    for d in &daily {
        let sum: i64 = d.per_app_usage.iter().map(|a| a.usage).sum();
        assert_eq!(sum, d.total_usage);
    }
    assert_eq!(usage_of(&daily[1], "A"), Some(1500));
    assert_eq!(daily[1].per_app_usage.len(), 2);
}

#[test]
fn days_come_newest_first() {
    let events = vec![
        event("A", at(1, 0), at(1, 10)),
        event("A", at(50, 0), at(50, 10)),
        event("A", at(26, 0), at(26, 10)),
    ];
    let daily = aggregate_daily(&events);
    let dates: Vec<i64> = daily.iter().map(|d| d.date).collect();
    assert_eq!(dates, vec![MONDAY_DAY + 2, MONDAY_DAY + 1, MONDAY_DAY]);
}

#[test]
fn local_offset_decides_the_day() {
    // 23:30 UTC is 01:30 the next day at two hours east.
    let e = UsageEvent { app: "A".to_string(), start_time: at(23, 30), end_time: at(23, 40), start_offset: 7200, end_offset: 7200 };
    let daily = aggregate_daily(&vec![e]);
    assert_eq!(daily[0].date, MONDAY_DAY + 1);
    assert_eq!(local_day(-1, 0), -1);
    assert_eq!(local_day(0, 0), 0);
    assert_eq!(local_day(86_399, 0), 0);
    assert_eq!(local_day(86_399, 1), 1);
}

#[test]
fn breaks_are_ordered_and_longer_than_ten_minutes() {
    let events = vec![
        event("C", at(14, 0), at(15, 0)),
        event("A", at(9, 0), at(9, 30)),
        event("B", at(11, 0), at(11, 30)),
        event("D", at(15, 5), at(15, 20)),
    ];
    let daily = aggregate_daily(&events);
    let b = &daily[0].breaks;
    assert_eq!(b.len(), 2);
    for w in b.windows(2) {
        assert!(w[0].end <= w[1].start);
    }
    for x in b {
        assert!(x.duration > 600);
        assert_eq!(x.duration, x.end - x.start);
    }
    let sum: i64 = b.iter().map(|x| x.duration).sum();
    assert_eq!(daily[0].net_active_time, (daily[0].last_usage - daily[0].first_usage) - sum);
}

#[test]
fn overlapping_sessions_give_no_break_and_may_make_net_negative() {
    let events = vec![event("A", at(9, 0), at(12, 0)), event("B", at(10, 0), at(10, 30))];
    let daily = aggregate_daily(&events);
    assert!(daily[0].breaks.is_empty());
    assert_eq!(daily[0].net_active_time, 3 * 3600);
    let odd = vec![event("A", at(9, 0), at(9, 5)), event("B", at(11, 0), at(8, 0))];
    let daily = aggregate_daily(&odd);
    assert_eq!(daily[0].breaks.len(), 1);
    assert_eq!(daily[0].net_active_time, (at(9, 5) - at(9, 0)) - (at(11, 0) - at(9, 5)));
    assert!(daily[0].net_active_time < 0);
}

#[test]
fn sessions_sort_by_start_then_end() {
    let v = vec![(5, 9), (1, 4), (5, 6), (1, 2)];
    assert_eq!(sort_sessions(&v), vec![(1, 2), (1, 4), (5, 6), (5, 9)]);
    let (b, total) = find_breaks(&vec![(0, 100), (800, 900), (1000, 2000)]);
    assert_eq!(b, vec![Break { start: 100, end: 800, duration: 700 }]);
    assert_eq!(total, 700);
}

#[test]
fn one_week_with_two_days_sums_totals() {
    let daily = vec![
        day(MONDAY_DAY + 1, 1800, 1000, vec![("A", 1200), ("B", 600)]),
        day(MONDAY_DAY, 3600, 2000, vec![("A", 3600)]),
    ];
    let weekly = aggregate_weekly_at(&daily, 3);
    assert_eq!(weekly.len(), 1);
    let w = &weekly[0];
    assert_eq!(w.total_usage, 5400);
    assert_eq!(w.net_active_hours, 3000);
    assert_eq!(w.week, 3);
    assert_eq!(w.first_day, MONDAY_DAY);
    assert!(w.is_current_week);
    let a = w.per_app_usage.iter().find(|x| x.app == "A").map(|x| x.usage);
    assert_eq!(a, Some(4800));
    assert_eq!(w.per_app_usage.len(), 2);
}

#[test]
fn weeks_come_highest_number_first() {
    let daily = vec![
        day(MONDAY_DAY + 9, 10, 10, vec![("A", 10)]),
        day(MONDAY_DAY + 2, 20, 20, vec![("A", 20)]),
        day(MONDAY_DAY - 1, 30, 30, vec![("B", 30)]),
    ];
    let weekly = aggregate_weekly_at(&daily, 9);
    let weeks: Vec<u32> = weekly.iter().map(|w| w.week).collect();
    assert_eq!(weeks, vec![4, 3, 2]);
    assert!(weekly.iter().all(|w| !w.is_current_week));
    assert_eq!(weekly[0].first_day, MONDAY_DAY + 7);
    assert_eq!(weekly[2].first_day, MONDAY_DAY - 7);
    let sum: i64 = weekly.iter().map(|w| w.total_usage).sum();
    assert_eq!(sum, 60);
}

#[test]
fn daily_then_weekly_on_events() {
    let events = vec![event("A", at(9, 0), at(10, 0)), event("A", at(33, 0), at(33, 30))];
    let daily = aggregate_daily(&events);
    assert!(fits_weekly(&daily));
    let weekly = aggregate_weekly_at(&daily, 1);
    assert_eq!(weekly.len(), 1);
    assert_eq!(weekly[0].total_usage, 5400);
    assert!(!weekly[0].is_current_week);
}

#[test]
fn fits_weekly_rejects_overflowing_sums() {
    let daily = vec![day(MONDAY_DAY, i64::MAX, 0, vec![]), day(MONDAY_DAY + 1, 1, 0, vec![])];
    assert!(!fits_weekly(&daily));
    let single = vec![day(MONDAY_DAY, i64::MAX, 0, vec![])];
    assert!(fits_weekly(&single));
}

#[test]
fn new_event_checks_the_range() {
    assert!(UsageEvent::new("A".to_string(), i64::MAX, 0).is_none());
    let e = UsageEvent::new("A".to_string(), MONDAY, MONDAY + 60).unwrap();
    assert_eq!(e.start_time, MONDAY);
    assert!(e.start_offset > -86_400 && e.start_offset < 86_400);
}

#[test]
fn durations_are_written_in_their_largest_unit() {
    assert_eq!(format_duration(3725), "1h 2min");
    assert_eq!(format_duration(3600), "1h 0min");
    assert_eq!(format_duration(125), "2min 5s");
    assert_eq!(format_duration(45), "45s");
    assert_eq!(format_duration(0), "0s");
    assert_eq!(format_duration(-300), "-300s");
}

#[test]
fn daily_detail_text() {
    let events = vec![event("Browser", at(9, 0), at(9, 30)), event("Editor", at(9, 45), at(10, 0))];
    let daily = aggregate_daily(&events);
    let text = daily_detail(&daily[0]);
    let expected = "Date: 2024-01-15\n  Total Usage: 45min 0s\n  First Usage: 2024-01-15 09:00:00 +00:00\n  Last Usage: 2024-01-15 10:00:00 +00:00\n  Net Active Hours: 45min 0s\n  Per App Usage:\n    Browser: 30min 0s\n    Editor: 15min 0s\n  Breaks:\n    Break from 2024-01-15 09:30:00 +00:00 to 2024-01-15 09:45:00 +00:00 (15min 0s)\n";
    assert_eq!(text, expected);
}

#[test]
fn weekly_texts() {
    let w = WeeklySummary {
        week: 3,
        first_day: MONDAY_DAY,
        total_usage: 5400,
        net_active_hours: 3000,
        per_app_usage: vec![AppUsage { app: "A".to_string(), usage: 5400 }],
        is_current_week: true,
    };
    assert_eq!(weekly_label(&w), "Week 3 (Starting 2024-01-15)");
    assert_eq!(
        weekly_detail(&w),
        "Week 3 (Starting 2024-01-15) (Current Week):\n  Total Usage: 1h 30min\n  Net Active Time: 50min 0s\n  Per App Usage:\n    A: 1h 30min\n"
    );
}
