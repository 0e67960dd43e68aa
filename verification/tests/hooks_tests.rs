use ccs::cli::HookEvent;
use ccs::hooks::{
    accepts_install, determine_stop_state, has_hook_command, hook_state, hooks_installed,
    install_hooks, HookEntry, HookSection, HookSettings,
};

fn entry(cmds: &[&str]) -> HookEntry {
    HookEntry {
        commands: cmds.iter().map(|c| c.to_string()).collect(),
    }
}

fn settings(sections: Vec<(&str, Vec<HookEntry>)>) -> HookSettings {
    HookSettings {
        sections: sections
            .into_iter()
            .map(|(name, entries)| HookSection {
                name: name.to_string(),
                entries,
            })
            .collect(),
    }
}

// -- stop-state decision from the transcript tail --

#[test]
fn test_determine_stop_state_idle() {
    let tail = "{\"type\":\"user\",\"message\":{\"role\":\"user\",\"content\":\"hi\"}}\n{\"type\":\"assistant\",\"message\":{\"role\":\"assistant\",\"content\":[{\"type\":\"text\",\"text\":\"hello\"}]}}\n";
    assert_eq!(determine_stop_state(tail), "idle");
}

#[test]
fn test_determine_stop_state_asking_compact() {
    // Compact JSON (no spaces after colons)
    let tail = "{\"type\":\"user\",\"message\":{\"role\":\"user\",\"content\":\"hi\"}}\n{\"type\":\"assistant\",\"message\":{\"role\":\"assistant\",\"content\":[{\"type\":\"tool_use\",\"name\":\"AskUserQuestion\"}]}}\n";
    assert_eq!(determine_stop_state(tail), "asking");
}

#[test]
fn test_determine_stop_state_asking_spaced() {
    // Spaced JSON (spaces after colons) -- matches real transcripts
    let tail = "{\"type\": \"user\", \"message\": {\"role\": \"user\", \"content\": \"hi\"}}\n{\"type\": \"assistant\", \"message\": {\"role\": \"assistant\", \"content\": [{\"type\": \"tool_use\", \"name\": \"AskUserQuestion\"}]}}\n";
    assert_eq!(determine_stop_state(tail), "asking");
}

#[test]
fn test_determine_stop_state_empty_file() {
    assert_eq!(determine_stop_state(""), "idle");
}

#[test]
fn test_determine_stop_state_ask_then_answered() {
    // AskUserQuestion followed by tool_result (user answered) -> idle
    let tail = "{\"type\":\"assistant\",\"content\":[{\"type\":\"tool_use\",\"name\":\"AskUserQuestion\"}]}\n{\"type\":\"user\",\"content\":[{\"type\":\"tool_result\",\"tool_use_id\":\"123\"}]}\n{\"type\":\"assistant\",\"content\":[{\"type\":\"text\",\"text\":\"ok\"}]}\n";
    assert_eq!(determine_stop_state(tail), "idle");
}

#[test]
fn test_determine_stop_state_no_ask_in_transcript() {
    // Normal conversation with tool use but no AskUserQuestion
    let tail = "{\"type\":\"assistant\",\"content\":[{\"type\":\"tool_use\",\"name\":\"Bash\"}]}\n{\"type\":\"user\",\"content\":[{\"type\":\"tool_result\"}]}\n{\"type\":\"assistant\",\"content\":[{\"type\":\"text\",\"text\":\"done\"}]}\n";
    assert_eq!(determine_stop_state(tail), "idle");
}

#[test]
fn hook_states_per_event() {
    assert_eq!(hook_state(&HookEvent::UserPrompt, None), "working");
    assert_eq!(hook_state(&HookEvent::Ask, None), "asking");
    assert_eq!(hook_state(&HookEvent::AskDone, None), "working");
    assert_eq!(hook_state(&HookEvent::Stop, None), "idle");
    assert_eq!(
        hook_state(&HookEvent::Stop, Some(r#"{"type":"tool_use","name":"AskUserQuestion"}"#)),
        "asking"
    );
}

// -- installation marker --

#[test]
fn test_hooks_installed_empty() {
    assert!(!hooks_installed("{}"));
}

#[test]
fn test_hooks_installed_only_old_hooks() {
    // Old installation -- has "ccs hook stop" but not "ccs hook ask"
    assert!(!hooks_installed(
        r#"{"hooks":{"Stop":[{"hooks":[{"command":"ccs hook stop"}]}]}}"#
    ));
}

#[test]
fn test_hooks_installed_present() {
    assert!(hooks_installed(
        r#"{"hooks":{"PreToolUse":[{"hooks":[{"command":"ccs hook ask"}]}]}}"#
    ));
}

// -- the installation plan --

#[test]
fn test_install_hooks_fresh() {
    let s = settings(vec![]);
    let plan = install_hooks(&s, "ccs");
    assert_eq!(plan.len(), 4);
    assert_eq!(plan[0].section, "UserPromptSubmit");
    assert_eq!(plan[0].matcher, "*");
    assert_eq!(plan[0].command, "ccs hook user-prompt");
    assert_eq!(plan[1].section, "Stop");
    assert_eq!(plan[1].command, "ccs hook stop");
    assert_eq!(plan[2].section, "PreToolUse");
    assert_eq!(plan[2].matcher, "AskUserQuestion");
    assert_eq!(plan[2].command, "ccs hook ask");
    assert_eq!(plan[3].section, "PostToolUse");
    assert_eq!(plan[3].matcher, "AskUserQuestion");
    assert_eq!(plan[3].command, "ccs hook ask-done");
}

#[test]
fn test_install_hooks_preserves_existing() {
    // A foreign entry under Stop does not count as ours; the plan still
    // appends the stop hook and touches nothing else.
    let s = settings(vec![("Stop", vec![entry(&["afplay sound.aiff"])])]);
    let plan = install_hooks(&s, "ccs");
    assert_eq!(plan.len(), 4);
    assert!(plan.iter().any(|p| p.section == "Stop" && p.command == "ccs hook stop"));
}

#[test]
fn test_install_hooks_idempotent() {
    // Apply the fresh plan to the model, then plan again: nothing left.
    let applied = settings(vec![
        ("UserPromptSubmit", vec![entry(&["ccs hook user-prompt"])]),
        ("Stop", vec![entry(&["ccs hook stop"])]),
        ("PreToolUse", vec![entry(&["ccs hook ask"])]),
        ("PostToolUse", vec![entry(&["ccs hook ask-done"])]),
    ]);
    let again = install_hooks(&applied, "ccs");
    assert!(again.is_empty());
}

#[test]
fn test_install_hooks_upgrades_old_install() {
    // Only UserPromptSubmit and Stop are present: the plan adds the two
    // question hooks and does not duplicate the old ones.
    let s = settings(vec![
        ("UserPromptSubmit", vec![entry(&["ccs hook user-prompt"])]),
        ("Stop", vec![entry(&["ccs hook stop"])]),
    ]);
    let plan = install_hooks(&s, "ccs");
    assert_eq!(plan.len(), 2);
    assert_eq!(plan[0].section, "PreToolUse");
    assert_eq!(plan[1].section, "PostToolUse");
}

#[test]
fn has_hook_command_searches_nested_commands() {
    let es = vec![entry(&["afplay x"]), entry(&["a", "prefix ccs hook stop suffix"])];
    assert!(has_hook_command(&es, "ccs hook stop"));
    assert!(!has_hook_command(&es, "ccs hook ask"));
}

// -- the install prompt --

#[test]
fn install_prompt_answers() {
    assert!(accepts_install(""));
    assert!(accepts_install("  "));
    assert!(accepts_install("y"));
    assert!(accepts_install("Y"));
    assert!(accepts_install("yes"));
    assert!(accepts_install(" YES "));
    assert!(!accepts_install("n"));
    assert!(!accepts_install("no"));
    assert!(!accepts_install("yess"));
}
