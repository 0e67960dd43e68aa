use std::collections::HashMap;

use ccs::events::{latest_status, parse_event_line, tail_latest, FileTail, Status, StatusEvent};
use ccs::resolve::resolve;
use ccs::state::WindowState;
use ccs::tmux::WindowInfo;

fn tail(text: &str, truncated: bool, modified: u64) -> FileTail {
    FileTail {
        tail: text.to_string(),
        truncated,
        modified,
    }
}

fn slot(index: u32, name: &str, active: bool, path: &str) -> WindowInfo {
    WindowInfo {
        index,
        name: name.to_string(),
        is_active: active,
        pane_path: path.to_string(),
    }
}

// -- record parsing --

#[test]
fn parse_plain_record() {
    let r = parse_event_line(r#"{"state":"working","cwd":"/p","ts":1}"#).unwrap();
    assert_eq!(r.status, Status::Working);
    assert_eq!(r.cwd, "/p");
    assert_eq!(r.ts, 1);
}

#[test]
fn parse_record_with_extra_key() {
    let r =
        parse_event_line(r#"{"state":"asking","cwd":"/tmp","pane_id":"%3","ts":1234}"#).unwrap();
    assert_eq!(r.status, Status::Asking);
    assert_eq!(r.cwd, "/tmp");
    assert_eq!(r.ts, 1234);
}

#[test]
fn parse_record_with_spaces() {
    let r = parse_event_line(r#" { "state" : "idle" , "cwd" : "/a b" , "ts" : 7 } "#).unwrap();
    assert_eq!(r.status, Status::Idle);
    assert_eq!(r.cwd, "/a b");
    assert_eq!(r.ts, 7);
}

#[test]
fn parse_unknown_status_is_kept_neutral() {
    let r = parse_event_line(r#"{"state":"pondering","cwd":"/p","ts":3}"#).unwrap();
    assert_eq!(r.status, Status::Other);
}

#[test]
fn parse_rejects_malformed_lines() {
    assert!(parse_event_line("").is_none());
    assert!(parse_event_line("not json").is_none());
    assert!(parse_event_line(r#"{"state":"working","cwd":"/p""#).is_none());
    assert!(parse_event_line(r#"{"state":"working","ts":1}"#).is_none());
    assert!(parse_event_line(r#"{"state":"working","cwd":"/p","ts":"1"}"#).is_none());
    assert!(parse_event_line(r#"{"state":2,"cwd":"/p","ts":1}"#).is_none());
    assert!(parse_event_line(r#"{"state":"working","cwd":"/p","ts":1} x"#).is_none());
}

#[test]
fn parse_rejects_overflowing_timestamp() {
    assert!(parse_event_line(r#"{"state":"idle","cwd":"/p","ts":18446744073709551615}"#).is_some());
    assert!(parse_event_line(r#"{"state":"idle","cwd":"/p","ts":18446744073709551616}"#).is_none());
}

#[test]
fn format_then_parse_round_trip() {
    let line = ccs::hooks::format_event_line("working", "/tmp", "%5", 1234);
    assert_eq!(line, r#"{"state":"working","cwd":"/tmp","pane_id":"%5","ts":1234}"#);
    let r = parse_event_line(&line).unwrap();
    assert_eq!(r.status, Status::Working);
    assert_eq!(r.cwd, "/tmp");
    assert_eq!(r.ts, 1234);
}

// -- tail reading --

#[test]
fn tail_read_returns_last_line() {
    // A log well past any backward-seek window: many records, and the
    // last line's fields win regardless of the file size.
    let mut text = String::new();
    for i in 0..2000 {
        text.push_str(&format!("{{\"state\":\"working\",\"cwd\":\"/old\",\"ts\":{i}}}\n"));
    }
    text.push_str(r#"{"state":"idle","cwd":"/new","ts":9999}"#);
    text.push('\n');

    // Simulate the bounded backward seek: keep only the last kilobyte
    // and mark the tail as cut mid-file.
    let cut: String = text.chars().skip(text.chars().count() - 1024).collect();
    let e = tail_latest(&tail(&cut, true, 42)).unwrap();
    assert_eq!(e.status, Status::Idle);
    assert_eq!(e.cwd, "/new");
    assert_eq!(e.ts, 9999);
    assert_eq!(e.observed_at, 42);
}

#[test]
fn tail_read_skips_invalid_last_line() {
    // The last line is a truncated record: the previous valid one wins.
    let text = "{\"state\":\"working\",\"cwd\":\"/p\",\"ts\":1}\n{\"state\":\"idle\",\"cwd\":\"/p\"";
    let e = tail_latest(&tail(text, false, 1)).unwrap();
    assert_eq!(e.status, Status::Working);
    assert_eq!(e.ts, 1);
}

#[test]
fn truncated_first_line_is_dropped(){
    // The tail starts mid-record; the leading fragment is dropped
    // unread, whatever it happens to look like.
    let text = "\"cwd\":\"/x\",\"ts\":5}\n{\"state\":\"asking\",\"cwd\":\"/p\",\"ts\":6}\n";
    let e = tail_latest(&tail(text, true, 3)).unwrap();
    assert_eq!(e.status, Status::Asking);
}

#[test]
fn malformed_file_yields_no_record_and_others_still_read() {
    let files = vec![
        tail("garbage\nmore garbage", false, 1),
        tail("{\"state\":\"idle\",\"cwd\":\"/p\",\"ts\":2}\n", false, 2),
        tail("", false, 3),
    ];
    let events = latest_status(&files);
    assert_eq!(events.len(), 1);
    assert_eq!(events[0].cwd, "/p");
    assert_eq!(events[0].observed_at, 2);
}

// -- end-to-end resolution --

fn states_of(
    slots: &Vec<WindowInfo>,
    cmds: &Vec<(u32, String)>,
    events: &Vec<StatusEvent>,
) -> HashMap<u32, WindowState> {
    resolve(slots, cmds, events)
}

#[test]
fn log_then_resolve_end_to_end() {
    // The log holds working then idle for /p; a slot with that working
    // directory and a non-shell foreground process resolves to Idle.
    let text = "{\"state\":\"working\",\"cwd\":\"/p\",\"ts\":1}\n{\"state\":\"idle\",\"cwd\":\"/p\",\"ts\":2}\n";
    let files = vec![tail(text, false, 10)];
    let events = latest_status(&files);

    let slots = vec![slot(0, "main", true, "/p")];
    let cmds = vec![(0u32, "node".to_string())];
    let states = states_of(&slots, &cmds, &events);
    assert_eq!(states[&0], WindowState::Idle);
}

#[test]
fn newest_file_wins_for_shared_directory() {
    // Two files both mapping to /p, modification times 1 < 2: the record
    // of the file modified at 2 decides.
    let files = vec![
        tail("{\"state\":\"working\",\"cwd\":\"/p\",\"ts\":5}\n", false, 1),
        tail("{\"state\":\"asking\",\"cwd\":\"/p\",\"ts\":4}\n", false, 2),
    ];
    let events = latest_status(&files);
    assert_eq!(events.len(), 2);

    let slots = vec![slot(3, "w", false, "/p")];
    let cmds = vec![(3u32, "node".to_string())];
    let states = states_of(&slots, &cmds, &events);
    assert_eq!(states[&3], WindowState::Asking);
}

#[test]
fn done_overrides_working_event() {
    // A shell in the foreground wins over any event, even a working one.
    let files = vec![tail("{\"state\":\"working\",\"cwd\":\"/p\",\"ts\":9}\n", false, 9)];
    let events = latest_status(&files);

    let slots = vec![slot(1, "w", false, "/p")];
    let cmds = vec![(1u32, "zsh".to_string())];
    let states = states_of(&slots, &cmds, &events);
    assert_eq!(states[&1], WindowState::Done);
}

#[test]
fn resolve_is_idempotent() {
    let files = vec![
        tail("{\"state\":\"asking\",\"cwd\":\"/a\",\"ts\":3}\n", false, 3),
        tail("{\"state\":\"working\",\"cwd\":\"/b\",\"ts\":4}\n", false, 4),
    ];
    let events = latest_status(&files);
    let slots = vec![slot(0, "a", true, "/a"), slot(1, "b", false, "/b"), slot(2, "c", false, "/c")];
    let cmds = vec![
        (0u32, "node".to_string()),
        (1u32, "node".to_string()),
        (2u32, "bash".to_string()),
    ];
    let first = states_of(&slots, &cmds, &events);
    let second = states_of(&slots, &cmds, &events);
    assert_eq!(first, second);
    assert_eq!(first[&0], WindowState::Asking);
    assert_eq!(first[&1], WindowState::Working);
    assert_eq!(first[&2], WindowState::Done);
}

#[test]
fn unmatched_slot_stays_fresh() {
    let events = latest_status(&vec![tail(
        "{\"state\":\"idle\",\"cwd\":\"/elsewhere\",\"ts\":1}\n",
        false,
        1,
    )]);
    let slots = vec![slot(0, "w", true, "/here")];
    let cmds = vec![(0u32, "node".to_string())];
    let states = states_of(&slots, &cmds, &events);
    assert_eq!(states[&0], WindowState::Fresh);
}

#[test]
fn unknown_status_resolves_fresh() {
    let events = latest_status(&vec![tail(
        "{\"state\":\"pondering\",\"cwd\":\"/p\",\"ts\":1}\n",
        false,
        1,
    )]);
    let slots = vec![slot(0, "w", true, "/p")];
    let cmds = vec![(0u32, "node".to_string())];
    let states = states_of(&slots, &cmds, &events);
    assert_eq!(states[&0], WindowState::Fresh);
}
