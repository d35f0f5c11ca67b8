use usage_stats::daily::{aggregate_daily, UsageEvent};
use usage_stats::view::{project, Command, Tab, ViewState};
use usage_stats::weekly::aggregate_weekly_at;

fn state(tab: Tab, index: usize) -> ViewState {
    ViewState { selected_tab: tab, selected_index: index }
}

#[test]
fn starts_on_first_daily_row() {
    assert_eq!(ViewState::new(), state(Tab::Daily, 0));
}

#[test]
fn moves_on_empty_tab_stay_at_zero() {
    let s = ViewState::new();
    assert_eq!(s.apply(Command::MoveDown, 0, 0), Some(state(Tab::Daily, 0)));
    assert_eq!(s.apply(Command::MoveUp, 0, 0), Some(state(Tab::Daily, 0)));
    let w = state(Tab::Weekly, 0);
    assert_eq!(w.apply(Command::MoveDown, 5, 0), Some(state(Tab::Weekly, 0)));
    assert_eq!(w.apply(Command::MoveUp, 5, 0), Some(state(Tab::Weekly, 0)));
}

#[test]
fn tab_switch_resets_selection() {
    let s = state(Tab::Daily, 3);
    assert_eq!(s.apply(Command::SelectWeeklyTab, 5, 5), Some(state(Tab::Weekly, 0)));
    let w = state(Tab::Weekly, 2);
    assert_eq!(w.apply(Command::SelectDailyTab, 5, 5), Some(state(Tab::Daily, 0)));
    assert_eq!(w.apply(Command::SelectWeeklyTab, 5, 5), Some(state(Tab::Weekly, 0)));
}

#[test]
fn moves_stop_at_the_ends() {
    let s = state(Tab::Daily, 0);
    assert_eq!(s.apply(Command::MoveDown, 3, 1), Some(state(Tab::Daily, 1)));
    assert_eq!(state(Tab::Daily, 2).apply(Command::MoveDown, 3, 1), Some(state(Tab::Daily, 2)));
    assert_eq!(state(Tab::Weekly, 0).apply(Command::MoveDown, 3, 1), Some(state(Tab::Weekly, 0)));
    assert_eq!(state(Tab::Daily, 1).apply(Command::MoveUp, 3, 1), Some(state(Tab::Daily, 0)));
}

#[test]
fn quit_ends_and_other_input_is_ignored() {
    let s = state(Tab::Weekly, 1);
    assert_eq!(s.apply(Command::Quit, 3, 3), None);
    assert_eq!(s.apply(Command::Ignored, 3, 3), Some(s));
}

#[test]
fn empty_data_projects_placeholder() {
    let daily = aggregate_daily(&Vec::new());
    let weekly = aggregate_weekly_at(&daily, 1);
    let (rows, detail) = project(&ViewState::new(), &daily, &weekly);
    assert!(rows.is_empty());
    assert_eq!(detail, "No data available");
    let (rows, detail) = project(&state(Tab::Weekly, 0), &daily, &weekly);
    assert!(rows.is_empty());
    assert_eq!(detail, "No data available");
}

#[test]
fn projection_marks_the_selected_row() {
    let base = 1_705_276_800;
    let events: Vec<UsageEvent> = (0..3)
        .map(|d| UsageEvent {
            app: "A".to_string(),
            start_time: base + d * 86_400 + 3600,
            end_time: base + d * 86_400 + 7200,
            start_offset: 0,
            end_offset: 0,
        })
        .collect();
    let daily = aggregate_daily(&events);
    let weekly = aggregate_weekly_at(&daily, 3);
    let (rows, detail) = project(&state(Tab::Daily, 1), &daily, &weekly);
    let labels: Vec<&str> = rows.iter().map(|r| r.label.as_str()).collect();
    assert_eq!(labels, vec!["2024-01-17", "2024-01-16", "2024-01-15"]);
    let selected: Vec<bool> = rows.iter().map(|r| r.is_selected).collect();
    assert_eq!(selected, vec![false, true, false]);
    assert!(detail.starts_with("Date: 2024-01-16\n"));
    let (rows, detail) = project(&state(Tab::Weekly, 0), &daily, &weekly);
    assert_eq!(rows.len(), 1);
    assert_eq!(rows[0].label, "Week 3 (Starting 2024-01-15)");
    assert!(rows[0].is_selected);
    assert!(detail.starts_with("Week 3 (Starting 2024-01-15) (Current Week):\n"));
}
