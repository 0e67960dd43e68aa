use ccs::state::{
    any_change, detect_question, is_significant_change, WindowState, WindowTracker,
    WORK_EXIT_TICKS,
};

fn fresh_tracker() -> WindowTracker {
    WindowTracker {
        prev_raw: String::new(),
        change_streak: 0,
        stable_streak: 0,
        ever_worked: false,
        was_working: false,
        turn_complete: false,
    }
}

/// Feed a sequence of captures to a fresh tracker and return all states.
fn run_sequence(captures: &[&str]) -> Vec<WindowState> {
    let mut tracker = fresh_tracker();
    captures.iter().map(|c| tracker.update(c)).collect()
}

#[test]
fn no_change_detected() {
    assert!(!any_change("line1\nline2\n", "line1\nline2\n"));
}

#[test]
fn whitespace_only_no_change() {
    assert!(!any_change("line1  \nline2\n", "line1\nline2  \n"));
}

#[test]
fn content_change_detected() {
    assert!(any_change("line1\nline2", "line1\nline2 changed"));
}

#[test]
fn user_typing_not_significant() {
    let old = "header\nmiddle\ninput line";
    let new = "header\nmiddle\ninput line changed";
    assert!(!is_significant_change(old, new));
}

#[test]
fn claude_generating_significant() {
    let old = "line1\nline2\nline3";
    let new = "line2\nline3\nline4";
    assert!(is_significant_change(old, new));
}

#[test]
fn line_count_change_significant() {
    let old = "line1\nline2";
    let new = "line1\nline2\nline3";
    assert!(is_significant_change(old, new));
}

#[test]
fn single_line_not_significant() {
    assert!(!is_significant_change("hello", "world"));
}

#[test]
fn question_yes_no() {
    assert!(detect_question("some output\n(Y)es/(N)o"));
}

#[test]
fn question_yn_shorthand() {
    assert!(detect_question("prompt text\n(y/N)"));
}

#[test]
fn question_yn_brackets() {
    assert!(detect_question("prompt text\n[y/N]"));
}

#[test]
fn question_yes_no_parens() {
    assert!(detect_question("prompt text\n(yes/no)"));
}

#[test]
fn question_selection_marker() {
    assert!(detect_question("Choose an option:\n\u{276f} Option 1"));
}

#[test]
fn question_allow_deny() {
    assert!(detect_question("Run this command?\nAllow  Deny"));
}

#[test]
fn normal_text_no_question() {
    assert!(!detect_question("The assistant generated some output.\nHere is the result."));
}

#[test]
fn allow_in_prose_no_match() {
    // "Allow" in the middle of prose, not on the last 2 lines as a prompt
    assert!(!detect_question(
        "You should allow this.\nBut deny that.\nHere is the final line."
    ));
}

#[test]
fn question_not_in_last_two_lines() {
    // Question pattern exists but is NOT in the last 2 lines
    assert!(!detect_question("(Y)es/(N)o\nsome line\nanother line\nfinal line"));
}

#[test]
fn fresh_session_stays_fresh() {
    let same = "static content\nline two";
    let states = run_sequence(&[same, same, same, same, same]);
    assert!(states.iter().all(|s| *s == WindowState::Fresh));
}

#[test]
fn claude_generates_then_idle() {
    // Simulate the assistant generating: upper lines shift each tick
    let captures: Vec<String> = (0..10)
        .map(|i| format!("header {i}\nmiddle {i}\nbottom"))
        .collect();

    // First 3 ticks with significant changes, then 7 stable ticks
    let mut sequence: Vec<&str> = captures[..3].iter().map(|s| s.as_str()).collect();
    let stable = captures[2].as_str();
    for _ in 0..7 {
        sequence.push(stable);
    }

    let states = run_sequence(&sequence);

    // Tick 0: first capture, prev_raw is empty -> significant (line count
    // change), streak=1 -> Fresh
    assert_eq!(states[0], WindowState::Fresh);
    // Tick 1: second significant change, streak=2 -> Working
    assert_eq!(states[1], WindowState::Working);
    // Tick 2: third significant change -> Working
    assert_eq!(states[2], WindowState::Working);
    // Ticks 3-7: stable, but hysteresis keeps Working
    for state in &states[3..7] {
        assert_eq!(*state, WindowState::Working);
    }
    // Tick 8+: stable long enough -> Idle (turn_complete set)
    assert_eq!(*states.last().unwrap(), WindowState::Idle);
}

#[test]
fn user_typing_stays_fresh() {
    // Only the last line changes -- non-significant
    let captures = [
        "header\nmiddle\nuser typing a",
        "header\nmiddle\nuser typing ab",
        "header\nmiddle\nuser typing abc",
        "header\nmiddle\nuser typing abcd",
        "header\nmiddle\nuser typing abcde",
    ];
    let states = run_sequence(&captures);
    assert!(
        states.iter().all(|s| *s == WindowState::Fresh),
        "expected all Fresh, got: {states:?}"
    );
}

#[test]
fn ready_clears_on_typing() {
    let mut tracker = fresh_tracker();

    // The assistant generates (significant changes to enter Working)
    for i in 0..3 {
        tracker.update(&format!("line {i}\ncontent {i}\nbottom"));
    }
    assert_eq!(tracker.update(&format!("line 2\ncontent 2\nbottom")), WindowState::Working);

    // Stabilize to reach Idle
    let stable = "line 2\ncontent 2\nbottom";
    for _ in 0..WORK_EXIT_TICKS {
        tracker.update(stable);
    }
    assert_eq!(tracker.update(stable), WindowState::Idle);

    // User starts typing -- only last line changes -> should go to Fresh
    let state = tracker.update("line 2\ncontent 2\nuser types");
    assert_eq!(state, WindowState::Fresh);
}

#[test]
fn no_false_working_on_enter() {
    let mut tracker = fresh_tracker();
    // Simulate a session that has been Idle (a finished turn)
    tracker.ever_worked = true;
    tracker.turn_complete = true;
    tracker.prev_raw = "header\nmiddle\nbottom".to_string();

    // Verify we start at Idle
    let state = tracker.update("header\nmiddle\nbottom");
    assert_eq!(state, WindowState::Idle);

    // User hits enter -- single last-line change
    let state = tracker.update("header\nmiddle\n");
    assert_eq!(state, WindowState::Fresh, "enter should not trigger Working");

    // Stable after enter
    let state = tracker.update("header\nmiddle\n");
    assert_eq!(state, WindowState::Fresh);

    let state = tracker.update("header\nmiddle\n");
    assert_eq!(state, WindowState::Fresh);
}

#[test]
fn hysteresis_keeps_working() {
    let mut tracker = fresh_tracker();

    // Enter Working state (2 significant changes)
    tracker.update("line 0\ncontent 0\nbottom");
    tracker.update("line 1\ncontent 1\nbottom");
    assert_eq!(
        tracker.update("line 2\ncontent 2\nbottom"),
        WindowState::Working
    );

    // 3 stable ticks (less than the exit threshold) -- should stay Working
    let stable = "line 2\ncontent 2\nbottom";
    for _ in 0..3 {
        assert_eq!(tracker.update(stable), WindowState::Working);
    }

    // Significant change again -- still Working, no flicker
    assert_eq!(
        tracker.update("line 3\ncontent 3\nbottom"),
        WindowState::Working
    );
}

#[test]
fn asking_on_question_prompt() {
    let mut tracker = fresh_tracker();

    // The assistant generates
    for i in 0..3 {
        tracker.update(&format!("line {i}\ncontent {i}\nbottom"));
    }

    // Stabilize with a question prompt in the last 2 lines
    let question = "some output\nDo you want to proceed?\n(Y)es/(N)o";
    for _ in 0..(WORK_EXIT_TICKS + 1) {
        tracker.update(question);
    }

    assert_eq!(tracker.update(question), WindowState::Asking);
}

#[test]
fn cross_instance_shows_idle() {
    // Simulate a tracker that was initialized from cross-instance state
    // (another sidebar already saw the assistant work)
    let mut tracker = WindowTracker {
        prev_raw: "stable content\nline two".to_string(),
        change_streak: 0,
        stable_streak: 0,
        ever_worked: true,
        was_working: false,
        turn_complete: true,
    };

    let state = tracker.update("stable content\nline two");
    assert_eq!(state, WindowState::Idle);
}

#[test]
fn ever_worked_set_on_working() {
    let mut tracker = fresh_tracker();
    assert!(!tracker.ever_worked);

    // Feed significant changes to reach Working
    tracker.update("line 0\ncontent 0\nbottom");
    tracker.update("line 1\ncontent 1\nbottom");

    assert!(tracker.ever_worked, "ever_worked should be set after entering Working");
}

#[test]
fn stale_state_causes_false_ready_then_clears() {
    // A stale cross-instance mark from a dead session makes a new session
    // show ready immediately. Then the assistant loads, content changes,
    // and turn_complete is cleared -> the ready mark disappears.
    let mut tracker = WindowTracker {
        prev_raw: "loading assistant...".to_string(),
        change_streak: 0,
        stable_streak: 0,
        ever_worked: true,
        was_working: false,
        turn_complete: true,
    };

    // First tick: stable content -> Idle (false "ready")
    let state = tracker.update("loading assistant...");
    assert_eq!(state, WindowState::Idle, "stale state shows false ready");

    // The assistant finishes loading -- content changes (non-significant,
    // last line only)
    let state = tracker.update("loading assistant...\n>");
    assert_eq!(state, WindowState::Fresh, "ready should disappear after content change");
}
