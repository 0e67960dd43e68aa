use ccs::state::{PaneInput, StateDetector, WindowState};
use ccs::tmux::{list_window_names, list_windows, name_taken, WindowInfo};

#[test]
fn listing_parses_all_fields() {
    let raw = "0|main|1|/home/u\n3|work|0|/tmp/project\n";
    let ws = list_windows(raw);
    assert_eq!(ws.len(), 2);
    assert_eq!(ws[0].index, 0);
    assert_eq!(ws[0].name, "main");
    assert!(ws[0].is_active);
    assert_eq!(ws[0].pane_path, "/home/u");
    assert_eq!(ws[1].index, 3);
    assert_eq!(ws[1].name, "work");
    assert!(!ws[1].is_active);
    assert_eq!(ws[1].pane_path, "/tmp/project");
}

#[test]
fn listing_skips_short_lines() {
    let raw = "0|main|1|/home/u\nbroken line\n1|x|0\n2|y|0|/d\n";
    let ws = list_windows(raw);
    assert_eq!(ws.len(), 2);
    assert_eq!(ws[0].name, "main");
    assert_eq!(ws[1].name, "y");
}

#[test]
fn listing_keeps_separator_in_path() {
    // Only the first three separators split; the path may contain more.
    let raw = "5|w|0|/odd|path|here\n";
    let ws = list_windows(raw);
    assert_eq!(ws.len(), 1);
    assert_eq!(ws[0].pane_path, "/odd|path|here");
}

#[test]
fn listing_bad_index_becomes_zero() {
    let ws = list_windows("9x|w|0|/d\n|w2|0|/d2\n");
    assert_eq!(ws[0].index, 0);
    assert_eq!(ws[1].index, 0);
}

#[test]
fn names_are_the_lines() {
    let names = list_window_names("main\nwork\n");
    assert_eq!(names, vec!["main".to_string(), "work".to_string()]);
    assert!(list_window_names("").is_empty());
}

#[test]
fn taken_names_are_found() {
    let names = vec!["main".to_string(), "work".to_string()];
    assert!(name_taken(&names, "work"));
    assert!(!name_taken(&names, "other"));
}

// -- the detector over full cycles --

fn win(index: u32, path: &str) -> WindowInfo {
    WindowInfo {
        index,
        name: format!("w{index}"),
        is_active: false,
        pane_path: path.to_string(),
    }
}

fn pane(index: u32, command: &str, capture: &str, worked: bool) -> PaneInput {
    PaneInput {
        index,
        command: command.to_string(),
        capture: capture.to_string(),
        worked,
    }
}

#[test]
fn shell_foreground_is_done() {
    let mut d = StateDetector::new();
    let windows = vec![win(0, "/a"), win(1, "/b"), win(2, "/c")];
    let panes = vec![
        pane(0, "zsh", "", false),
        pane(1, "node", "stable\nlines", false),
        pane(2, "fish", "", false),
    ];
    let r = d.detect(&windows, &panes);
    assert_eq!(r.states[&0], WindowState::Done);
    assert_eq!(r.states[&1], WindowState::Fresh);
    assert_eq!(r.states[&2], WindowState::Done);
    assert!(r.newly_worked.is_empty());
    assert!(r.removed.is_empty());
}

#[test]
fn missing_pane_counts_as_done() {
    let mut d = StateDetector::new();
    let windows = vec![win(0, "/a")];
    let r = d.detect(&windows, &Vec::new());
    assert_eq!(r.states[&0], WindowState::Done);
}

#[test]
fn worked_hint_shows_ready_at_once() {
    let mut d = StateDetector::new();
    let windows = vec![win(0, "/a")];
    let panes = vec![pane(0, "node", "stable\ncontent", true)];
    let r = d.detect(&windows, &panes);
    assert_eq!(r.states[&0], WindowState::Idle);
}

#[test]
fn generation_is_detected_and_marked() {
    let mut d = StateDetector::new();
    let windows = vec![win(0, "/a")];
    // First cycle: baseline.
    let r = d.detect(&windows, &vec![pane(0, "node", "line 0\nbody 0\nbottom", false)]);
    assert_eq!(r.states[&0], WindowState::Fresh);
    assert!(r.newly_worked.is_empty());
    // Scrolling content on later cycles: after two changed captures the
    // tracker enters Working and asks for the worked mark to be
    // persisted, once.
    let r = d.detect(&windows, &vec![pane(0, "node", "line 1\nbody 1\nbottom", false)]);
    assert_eq!(r.states[&0], WindowState::Fresh);
    assert!(r.newly_worked.is_empty());
    let r = d.detect(&windows, &vec![pane(0, "node", "line 2\nbody 2\nbottom", false)]);
    assert_eq!(r.states[&0], WindowState::Working);
    assert_eq!(r.newly_worked, vec![0]);
    let r = d.detect(&windows, &vec![pane(0, "node", "line 3\nbody 3\nbottom", false)]);
    assert_eq!(r.states[&0], WindowState::Working);
    assert!(r.newly_worked.is_empty(), "the mark is requested only once");
}

#[test]
fn closed_window_tracker_is_dropped() {
    let mut d = StateDetector::new();
    let both = vec![win(0, "/a"), win(1, "/b")];
    let panes = vec![
        pane(0, "node", "a", false),
        pane(1, "node", "b", false),
    ];
    d.detect(&both, &panes);
    // The second window closed.
    let r = d.detect(&vec![win(0, "/a")], &vec![pane(0, "node", "a", false)]);
    assert_eq!(r.removed, vec![1]);
    assert!(r.states.get(&1).is_none());
}
