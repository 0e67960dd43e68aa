use std::collections::HashMap;

use ccs::input::{tick_step, Action};
use ccs::resume::{run, ResumeAction};
use ccs::state::WindowState;
use ccs::tmux::WindowInfo;
use ccs::view::{
    clamp_selection, header_text, should_refresh, spinner_frame, status_pad, status_text,
    sync_selection, SidebarWidget,
};

fn slot(index: u32, name: &str, active: bool) -> WindowInfo {
    WindowInfo {
        index,
        name: name.to_string(),
        is_active: active,
        pane_path: "/".to_string(),
    }
}

fn model(windows: Vec<WindowInfo>, selected: usize, tick: u64) -> SidebarWidget {
    SidebarWidget {
        windows,
        states: HashMap::new(),
        selected,
        tick,
    }
}

// -- selection clamping and synchronisation --

#[test]
fn selection_clamps_to_last_row() {
    // The selection sat past the end after a refresh shrank the list.
    assert_eq!(clamp_selection(5, 3), 2);
    assert_eq!(clamp_selection(3, 3), 2);
}

#[test]
fn selection_clamp_empty_list_stays_zero() {
    assert_eq!(clamp_selection(4, 0), 0);
    assert_eq!(clamp_selection(0, 0), 0);
}

#[test]
fn selection_in_range_is_kept() {
    assert_eq!(clamp_selection(1, 3), 1);
}

#[test]
fn sync_follows_host_active_slot() {
    let ws = vec![slot(0, "a", false), slot(1, "b", true), slot(2, "c", false)];
    assert_eq!(sync_selection(&ws), 1);
}

#[test]
fn sync_defaults_to_first_row() {
    let ws = vec![slot(0, "a", false), slot(1, "b", false)];
    assert_eq!(sync_selection(&ws), 0);
    assert_eq!(sync_selection(&Vec::new()), 0);
}

// -- input coalescing --

#[test]
fn five_downs_move_one_row_and_issue_one_command() {
    let mut m = model(vec![slot(0, "a", true), slot(1, "b", false), slot(2, "c", false)], 0, 7);
    let actions = vec![
        Action::Down,
        Action::Down,
        Action::Down,
        Action::Down,
        Action::Down,
    ];
    let out = tick_step(&mut m, &actions);
    assert!(!out.quit);
    assert_eq!(m.selected, 1, "exactly one net downward step");
    assert_eq!(out.set_active, Some(1), "exactly one host set-active command");
    assert_eq!(out.focus, None);
    assert_eq!(m.tick, 1, "the next scheduled refresh is suppressed");
}

#[test]
fn downs_clamp_at_last_row() {
    let mut m = model(vec![slot(0, "a", true), slot(1, "b", false)], 1, 3);
    let actions = vec![Action::Down, Action::Down, Action::Down];
    let out = tick_step(&mut m, &actions);
    assert_eq!(m.selected, 1);
    assert_eq!(out.set_active, None, "no movement, no host command");
    assert_eq!(m.tick, 4);
}

#[test]
fn balanced_burst_cancels_out() {
    let mut m = model(vec![slot(0, "a", true), slot(1, "b", false), slot(2, "c", false)], 1, 3);
    let actions = vec![Action::Down, Action::Up, Action::Down, Action::Up];
    let out = tick_step(&mut m, &actions);
    assert_eq!(m.selected, 1);
    assert_eq!(out.set_active, None);
}

#[test]
fn ups_move_one_row_up() {
    let mut m = model(vec![slot(0, "a", true), slot(1, "b", false)], 1, 3);
    let out = tick_step(&mut m, &vec![Action::Up, Action::Up, Action::Up]);
    assert_eq!(m.selected, 0);
    assert_eq!(out.set_active, Some(0));
}

#[test]
fn quit_wins_and_changes_nothing() {
    let mut m = model(vec![slot(0, "a", true), slot(1, "b", false)], 0, 9);
    let out = tick_step(&mut m, &vec![Action::Down, Action::Quit, Action::Down]);
    assert!(out.quit);
    assert_eq!(m.selected, 0);
    assert_eq!(m.tick, 9);
    assert_eq!(out.set_active, None);
    assert_eq!(out.focus, None);
}

#[test]
fn select_focuses_current_slot() {
    let mut m = model(vec![slot(4, "a", true), slot(7, "b", false)], 1, 5);
    let out = tick_step(&mut m, &vec![Action::Select]);
    assert_eq!(out.focus, Some(7));
    assert_eq!(m.tick, 0, "a focus command resets the tick");
}

#[test]
fn idle_tick_only_advances_animation() {
    let mut m = model(vec![slot(0, "a", true)], 0, 41);
    let out = tick_step(&mut m, &vec![Action::Tick]);
    assert!(!out.quit);
    assert_eq!(out.set_active, None);
    assert_eq!(m.tick, 42);
}

// -- render text --

#[test]
fn status_labels() {
    assert_eq!(status_text(WindowState::Idle), "ready");
    assert_eq!(status_text(WindowState::Done), "done");
    assert_eq!(status_text(WindowState::Asking), "waiting\u{2026}");
    assert_eq!(status_text(WindowState::Working), "");
    assert_eq!(status_text(WindowState::Fresh), "");
}

#[test]
fn spinner_cycles_ten_frames() {
    assert_eq!(spinner_frame(0), '\u{280b}');
    assert_eq!(spinner_frame(3), '\u{2838}');
    assert_eq!(spinner_frame(9), '\u{280f}');
    assert_eq!(spinner_frame(10), spinner_frame(0));
    assert_eq!(spinner_frame(27), spinner_frame(7));
}

#[test]
fn header_counts_sessions() {
    assert_eq!(header_text(1), "1 session");
    assert_eq!(header_text(2), "2 sessions");
    assert_eq!(header_text(0), "0 sessions");
    assert_eq!(header_text(12), "12 sessions");
}

#[test]
fn status_padding_right_aligns() {
    assert_eq!(status_pad(20, 8, 7), 5);
    assert_eq!(status_pad(10, 8, 7), 0, "too wide rows get no padding");
}

#[test]
fn refresh_cadence() {
    assert!(should_refresh(0));
    assert!(!should_refresh(1));
    assert!(should_refresh(2));
    assert!(!should_refresh(7));
}

// -- resume decision --

#[test]
fn resume_decisions() {
    assert_eq!(run(false, false), ResumeAction::NoSession);
    assert_eq!(run(false, true), ResumeAction::NoSession);
    assert_eq!(run(true, true), ResumeAction::SwitchClient);
    assert_eq!(run(true, false), ResumeAction::Attach);
}
