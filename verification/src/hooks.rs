//! Hook-side logic: what a lifecycle hook should record, read off the
//! transcript tail, and how the hook entries are installed into the host
//! application's settings.
//!
//! The settings file itself is arbitrary JSON owned by the host; only
//! the parts this logic reads are modelled here — the hook sections with
//! the command strings of their entries.  The caller converts between
//! the real settings document and this model, applies the returned plan,
//! and performs all file access.

use vstd::prelude::*;

use crate::cli::HookEvent;
use crate::text::{
    chars_ci_eq, contains_chars, contains_seq, dec_str, dec_val, match_at, seq_ci_eq, to_chars,
    trim_chars, trim_spec, u64_to_string,
};

verus! {

/// A question is pending in a transcript: an `AskUserQuestion` tool use
/// appears and no `tool_result` follows it — the user has not answered
/// yet.
pub open spec fn ask_pending(s: Seq<char>) -> bool {
    exists|i: int|
        match_at(s, "\"AskUserQuestion\""@, i) && (forall|j: int|
            j >= i ==> !match_at(s, "\"tool_result\""@, j))
}

/// Decide whether a finished turn left a question pending, from the tail
/// of the transcript: compare the position of the last `AskUserQuestion`
/// against the last `tool_result`.  Substring positions make the check
/// independent of the transcript's JSON formatting.
pub fn determine_stop_state(tail: &str) -> (r: &'static str)
    ensures
        r@ == (if ask_pending(tail@) {
            "asking"@
        } else {
            "idle"@
        }),
{
    let chars = to_chars(tail);
    let ask = to_chars("\"AskUserQuestion\"");
    let res = to_chars("\"tool_result\"");
    let last_ask = crate::text::rfind_chars(&chars, &ask);
    let last_res = crate::text::rfind_chars(&chars, &res);
    match (last_ask, last_res) {
        (Some(a), Some(t)) => {
            if a > t {
                proof {
                    assert(ask_pending(tail@)) by {
                        assert(match_at(tail@, "\"AskUserQuestion\""@, a as int));
                        assert(forall|j: int| j >= a ==> !match_at(tail@, "\"tool_result\""@, j));
                    }
                }
                "asking"
            } else {
                proof {
                    if ask_pending(tail@) {
                        let i = choose|i: int|
                            match_at(tail@, "\"AskUserQuestion\""@, i) && (forall|j: int|
                                j >= i ==> !match_at(tail@, "\"tool_result\""@, j));
                        assert(i <= a);
                        if a == t {
                            reveal_strlit("\"AskUserQuestion\"");
                            reveal_strlit("\"tool_result\"");
                            assert(tail@.subrange(a as int, a + 17)[1] == 'A');
                            assert(tail@.subrange(t as int, t + 13)[1] == 't');
                            assert(tail@[a + 1] == 'A' && tail@[a + 1] == 't');
                        }
                        assert(t as int >= i);
                        assert(match_at(tail@, "\"tool_result\""@, t as int));
                    }
                }
                "idle"
            }
        },
        (Some(a), None) => {
            proof {
                assert(ask_pending(tail@)) by {
                    assert(match_at(tail@, "\"AskUserQuestion\""@, a as int));
                }
            }
            "asking"
        },
        (None, _) => {
            proof {
                if ask_pending(tail@) {
                    let i = choose|i: int|
                        match_at(tail@, "\"AskUserQuestion\""@, i) && (forall|j: int|
                            j >= i ==> !match_at(tail@, "\"tool_result\""@, j));
                }
            }
            "idle"
        },
    }
}

/// The status string one lifecycle hook event records.
pub open spec fn hook_state_spec(e: HookEvent, tail: Option<Seq<char>>) -> Seq<char> {
    match e {
        HookEvent::UserPrompt => "working"@,
        HookEvent::Stop => match tail {
            None => "idle"@,
            Some(t) => if ask_pending(t) {
                "asking"@
            } else {
                "idle"@
            },
        },
        HookEvent::Ask => "asking"@,
        HookEvent::AskDone => "working"@,
    }
}

/// The status a hook event records: a user prompt or an answered
/// question puts the session to work, a question about to be shown means
/// asking, and a finished turn is idle unless the transcript tail shows
/// a pending question.
pub fn hook_state(event: &HookEvent, transcript_tail: Option<&str>) -> (r: &'static str)
    ensures
        r@ == hook_state_spec(*event, match transcript_tail {
            Some(t) => Some(t@),
            None => None,
        }),
{
    match event {
        HookEvent::UserPrompt => "working",
        HookEvent::Stop => match transcript_tail {
            Some(t) => determine_stop_state(t),
            None => "idle",
        },
        HookEvent::Ask => "asking",
        HookEvent::AskDone => "working",
    }
}

/// One line of the event log format, as the producer writes it.
pub open spec fn event_line_spec(
    state: Seq<char>,
    cwd: Seq<char>,
    pane_id: Seq<char>,
    ts: u64,
) -> Seq<char> {
    "{\"state\":\""@ + state + "\",\"cwd\":\""@ + cwd + "\",\"pane_id\":\""@ + pane_id
        + "\",\"ts\":"@ + dec_str(ts as int) + "}"@
}

/// Format one status event as a log line (without the line break).
/// The caller supplies values free of quotes and backslashes; this plain
/// format does not escape.
pub fn format_event_line(state: &str, cwd: &str, pane_id: &str, ts: u64) -> (r: String)
    ensures
        r@ == event_line_spec(state@, cwd@, pane_id@, ts),
{
    let mut s = String::from_str("{\"state\":\"");
    s.append(state);
    s.append("\",\"cwd\":\"");
    s.append(cwd);
    s.append("\",\"pane_id\":\"");
    s.append(pane_id);
    s.append("\",\"ts\":");
    let num = u64_to_string(ts);
    s.append(num.as_str());
    s.append("}");
    proof {
        assert(s@ =~= event_line_spec(state@, cwd@, pane_id@, ts));
    }
    s
}

/// Characters the plain log format embeds verbatim in a quoted value:
/// anything but a quote or a backslash (the format does not escape).
pub open spec fn plain_value(s: Seq<char>) -> bool {
    forall|k: int| 0 <= k < s.len() ==> (#[trigger] s[k]) != '"' && s[k] != '\\'
}

/// Round trip of the log format: a line the producer writes parses back
/// to exactly the recorded fields — the status named by the state
/// string, the working directory, and the timestamp — for every state,
/// directory and pane identifier free of quotes and backslashes.
#[verifier::rlimit(50)]
pub proof fn lemma_event_line_round_trip(
    state: Seq<char>,
    cwd: Seq<char>,
    pane_id: Seq<char>,
    ts: u64,
)
    requires
        plain_value(state),
        plain_value(cwd),
        plain_value(pane_id),
    ensures
        crate::events::parse_line_spec(event_line_spec(state, cwd, pane_id, ts)) == Some(
            (crate::events::EventRecordV {
                status: crate::events::status_of(state),
                cwd: cwd,
                ts: ts,
            }),
        ),
{
    reveal_strlit("{\"state\":\"");
    reveal_strlit("\",\"cwd\":\"");
    reveal_strlit("\",\"pane_id\":\"");
    reveal_strlit("\",\"ts\":");
    reveal_strlit("}");
    reveal_strlit("state");
    reveal_strlit("cwd");
    reveal_strlit("ts");
    crate::text::lemma_dec_round_trip(ts as int);

    let p0 = "{\"state\":\""@;
    let p1 = "\",\"cwd\":\""@;
    let p2 = "\",\"pane_id\":\""@;
    let p3 = "\",\"ts\":"@;
    let d = dec_str(ts as int);
    let line = event_line_spec(state, cwd, pane_id, ts);
    let sl = state.len() as int;
    let cl = cwd.len() as int;
    let pl = pane_id.len() as int;
    let dl = d.len() as int;
    assert(p0.len() == 10);
    assert(p1.len() == 9);
    assert(p2.len() == 13);
    assert(p3.len() == 7);
    assert(dl >= 1);
    let o2 = 10 + sl;
    let o3 = o2 + 9;
    let o4 = o3 + cl;
    let o5 = o4 + 13;
    let o6 = o5 + pl;
    let o7 = o6 + 7;
    let o8 = o7 + dl;
    assert(line.len() == o8 + 1);

    // Where each character of the line comes from.
    assert forall|j: int| 0 <= j < 10 implies line[j] == p0[j] by {}
    assert forall|j: int| 0 <= j < sl implies line[10 + j] == state[j] by {}
    assert forall|j: int| 0 <= j < 9 implies line[o2 + j] == p1[j] by {}
    assert forall|j: int| 0 <= j < cl implies line[o3 + j] == cwd[j] by {}
    assert forall|j: int| 0 <= j < 13 implies line[o4 + j] == p2[j] by {}
    assert forall|j: int| 0 <= j < pl implies line[o5 + j] == pane_id[j] by {}
    assert forall|j: int| 0 <= j < 7 implies line[o6 + j] == p3[j] by {}
    assert forall|j: int| 0 <= j < dl implies line[o7 + j] == d[j] by {}
    assert(line[o8] == '}');

    // The opening brace, with no blanks around it.
    crate::events::lemma_blank_end_segment(line, 0, 0);
    crate::events::lemma_blank_end_segment(line, 1, 1);
    assert(line[0] == '{');
    assert(line[1] == '"');

    // First pair: the state string.
    crate::events::lemma_str_close_segment(line, 2, 7);
    assert(line.subrange(2, 7) =~= "state"@);
    crate::events::lemma_blank_end_segment(line, 8, 8);
    assert(line[8] == ':');
    crate::events::lemma_blank_end_segment(line, 9, 9);
    assert(line[9] == '"');
    crate::events::lemma_str_close_segment(line, 10, o2);
    assert(line.subrange(10, o2) =~= state);
    let acc1 = crate::events::RecAcc {
        status: Some(crate::events::status_of(state)),
        cwd: None,
        ts: None,
    };
    assert(crate::events::apply_string("state"@, state, crate::events::empty_acc()) == Some(acc1));
    crate::events::lemma_blank_end_segment(line, o2 + 1, o2 + 1);
    assert(line[o2 + 1] == ',');
    crate::events::lemma_blank_end_segment(line, o2 + 2, o2 + 2);
    assert(line[o2 + 2] == '"');

    // Second pair: the working directory.
    crate::events::lemma_str_close_segment(line, o2 + 3, o2 + 6);
    assert(line.subrange(o2 + 3, o2 + 6) =~= "cwd"@);
    crate::events::lemma_blank_end_segment(line, o2 + 7, o2 + 7);
    assert(line[o2 + 7] == ':');
    crate::events::lemma_blank_end_segment(line, o2 + 8, o2 + 8);
    assert(line[o2 + 8] == '"');
    crate::events::lemma_str_close_segment(line, o3, o4);
    assert(line.subrange(o3, o4) =~= cwd);
    let acc2 = crate::events::RecAcc {
        status: Some(crate::events::status_of(state)),
        cwd: Some(cwd),
        ts: None,
    };
    assert(crate::events::apply_string("cwd"@, cwd, acc1) == Some(acc2));
    crate::events::lemma_blank_end_segment(line, o4 + 1, o4 + 1);
    assert(line[o4 + 1] == ',');
    crate::events::lemma_blank_end_segment(line, o4 + 2, o4 + 2);
    assert(line[o4 + 2] == '"');

    // Third pair: the pane identifier, an ignored key.
    crate::events::lemma_str_close_segment(line, o4 + 3, o4 + 10);
    let pane_key = line.subrange(o4 + 3, o4 + 10);
    assert(pane_key.len() == 7);
    assert(pane_key != "state"@ && pane_key != "cwd"@ && pane_key != "ts"@);
    crate::events::lemma_blank_end_segment(line, o4 + 11, o4 + 11);
    assert(line[o4 + 11] == ':');
    crate::events::lemma_blank_end_segment(line, o4 + 12, o4 + 12);
    assert(line[o4 + 12] == '"');
    crate::events::lemma_str_close_segment(line, o5, o6);
    assert(crate::events::apply_string(pane_key, line.subrange(o5, o6), acc2) == Some(acc2));
    crate::events::lemma_blank_end_segment(line, o6 + 1, o6 + 1);
    assert(line[o6 + 1] == ',');
    crate::events::lemma_blank_end_segment(line, o6 + 2, o6 + 2);
    assert(line[o6 + 2] == '"');

    // Fourth pair: the timestamp.
    crate::events::lemma_str_close_segment(line, o6 + 3, o6 + 5);
    assert(line.subrange(o6 + 3, o6 + 5) =~= "ts"@);
    crate::events::lemma_blank_end_segment(line, o6 + 6, o6 + 6);
    assert(line[o6 + 6] == ':');
    crate::events::lemma_blank_end_segment(line, o7, o7);
    assert(crate::text::is_digit(line[o7]));
    assert(line[o7] != '"');
    crate::text::lemma_digits_end_segment(line, o7, o8);
    assert(line.subrange(o7, o8) =~= d);
    assert(dec_val(line.subrange(o7, o8)) == ts);
    let acc3 = crate::events::RecAcc {
        status: Some(crate::events::status_of(state)),
        cwd: Some(cwd),
        ts: Some(ts),
    };
    assert(crate::events::apply_number("ts"@, ts, acc2) == Some(acc3));

    // The closing brace ends the object; unwind the pairs back to the
    // opening brace.
    crate::events::lemma_blank_end_segment(line, o8, o8);
    crate::events::lemma_number_pair_last(line, o6 + 2, o6 + 5, o8, ts, acc2, acc3);
    crate::events::lemma_string_pair_step(
        line,
        o4 + 2,
        o4 + 10,
        o6,
        acc2,
        acc2,
        Some((acc3, o8 + 1)),
    );
    crate::events::lemma_string_pair_step(
        line,
        o2 + 2,
        o2 + 6,
        o4,
        acc1,
        acc2,
        Some((acc3, o8 + 1)),
    );
    crate::events::lemma_string_pair_step(
        line,
        1,
        7,
        o2,
        crate::events::empty_acc(),
        acc1,
        Some((acc3, o8 + 1)),
    );
    assert(crate::events::parse_record(line) == Some((acc3, o8 + 1)));
    crate::events::lemma_blank_end_segment(line, o8 + 1, o8 + 1);
}

/// Check whether the hook entries are already installed in a settings
/// document: the question hook's command is the marker — an older
/// installation without it needs updating.
pub fn hooks_installed(content: &str) -> (r: bool)
    ensures
        r == contains_seq(content@, "ccs hook ask"@),
{
    let c = to_chars(content);
    let needle = to_chars("ccs hook ask");
    contains_chars(&c, &needle)
}

/// One installed hook entry, reduced to what the install logic reads:
/// the command strings of its nested hooks.
pub struct HookEntry {
    pub commands: Vec<String>,
}

/// One hook section of the settings document: its name (the lifecycle
/// event it fires on) and its entries.
pub struct HookSection {
    pub name: String,
    pub entries: Vec<HookEntry>,
}

/// The hook-related part of a settings document.
pub struct HookSettings {
    pub sections: Vec<HookSection>,
}

/// One hook entry to append: into which section, with which matcher and
/// command.
pub struct PlannedHook {
    pub section: String,
    pub matcher: String,
    pub command: String,
}

/// The mathematical model of a planned hook entry.
pub struct PlannedHookV {
    pub section: Seq<char>,
    pub matcher: Seq<char>,
    pub command: Seq<char>,
}

impl View for PlannedHook {
    type V = PlannedHookV;

    open spec fn view(&self) -> PlannedHookV {
        PlannedHookV { section: self.section@, matcher: self.matcher@, command: self.command@ }
    }
}

/// An entry already carries a command containing the needle.
pub open spec fn entry_has(e: HookEntry, needle: Seq<char>) -> bool {
    exists|j: int| 0 <= j < e.commands@.len() && contains_seq((#[trigger] e.commands@[j])@, needle)
}

/// Some entry of the list carries a command containing the needle.
pub open spec fn entries_have(es: Seq<HookEntry>, needle: Seq<char>) -> bool {
    exists|i: int| 0 <= i < es.len() && entry_has(#[trigger] es[i], needle)
}

/// Check if a hook array already contains an entry whose command
/// includes `needle`.
pub fn has_hook_command(entries: &Vec<HookEntry>, needle: &str) -> (r: bool)
    ensures
        r == entries_have(entries@, needle@),
{
    let nd = to_chars(needle);
    let n = entries.len();
    let mut i: usize = 0;
    while i < n
        invariant
            n == entries@.len(),
            nd@ == needle@,
            i <= n,
            forall|k: int| 0 <= k < i ==> !entry_has(#[trigger] entries@[k], needle@),
        decreases n - i,
    {
        let cs = &entries[i].commands;
        let m = cs.len();
        let mut j: usize = 0;
        while j < m
            invariant
                m == cs@.len(),
                cs@ == entries@[i as int].commands@,
                i < n == entries@.len(),
                nd@ == needle@,
                j <= m,
                forall|k: int| 0 <= k < j ==> !contains_seq((#[trigger] cs@[k])@, needle@),
            decreases m - j,
        {
            let c = to_chars(cs[j].as_str());
            if contains_chars(&c, &nd) {
                assert(entry_has(entries@[i as int], needle@));
                return true;
            }
            j = j + 1;
        }
        proof {
            assert(!entry_has(entries@[i as int], needle@));
        }
        i = i + 1;
    }
    false
}

/// The entries of the first section with this name; an absent section
/// has none.
pub open spec fn section_entries(ss: Seq<HookSection>, name: Seq<char>) -> Seq<HookEntry>
    decreases ss.len(),
{
    if ss.len() == 0 {
        Seq::empty()
    } else if ss[0].name@ == name {
        ss[0].entries@
    } else {
        section_entries(ss.drop_first(), name)
    }
}

/// A command is already installed under a section of the settings.
pub open spec fn installed(s: HookSettings, name: Seq<char>, full: Seq<char>) -> bool {
    entries_have(section_entries(s.sections@, name), full)
}

/// The full command of one hook entry: the binary path, a space, the
/// hook subcommand.
pub open spec fn full_cmd(bin: Seq<char>, cmd: Seq<char>) -> Seq<char> {
    bin + " "@ + cmd
}

/// The planned entry for one hook.
pub open spec fn planned(section: Seq<char>, matcher: Seq<char>, command: Seq<char>) -> PlannedHookV {
    PlannedHookV { section, matcher, command }
}

/// What one hook contributes to the plan: its entry when its command is
/// not yet installed under its section, nothing otherwise.
pub open spec fn plan_one_spec(
    s: HookSettings,
    bin: Seq<char>,
    section: Seq<char>,
    matcher: Seq<char>,
    cmd: Seq<char>,
) -> Seq<PlannedHookV> {
    if installed(s, section, full_cmd(bin, cmd)) {
        Seq::empty()
    } else {
        seq![planned(section, matcher, full_cmd(bin, cmd))]
    }
}

/// The full installation plan: the four hook entries that wire the
/// lifecycle events to this binary, each appended only where its command
/// is not already present.
pub open spec fn install_plan(s: HookSettings, bin: Seq<char>) -> Seq<PlannedHookV> {
    plan_one_spec(s, bin, "UserPromptSubmit"@, "*"@, "hook user-prompt"@) + plan_one_spec(
        s,
        bin,
        "Stop"@,
        "*"@,
        "hook stop"@,
    ) + plan_one_spec(s, bin, "PreToolUse"@, "AskUserQuestion"@, "hook ask"@) + plan_one_spec(
        s,
        bin,
        "PostToolUse"@,
        "AskUserQuestion"@,
        "hook ask-done"@,
    )
}

/// The views of a plan.
pub open spec fn plan_views(s: Seq<PlannedHook>) -> Seq<PlannedHookV> {
    s.map_values(|p: PlannedHook| p@)
}

/// The entries of the first section with this name.
fn find_section_entries<'a>(ss: &'a Vec<HookSection>, name: &str) -> (r: Option<
    &'a Vec<HookEntry>,
>)
    ensures
        match r {
            Some(es) => es@ == section_entries(ss@, name@),
            None => section_entries(ss@, name@) == Seq::<HookEntry>::empty(),
        },
{
    let target = to_chars(name);
    let n = ss.len();
    let mut i: usize = 0;
    proof {
        assert(ss@.skip(0) =~= ss@);
    }
    while i < n
        invariant
            n == ss@.len(),
            target@ == name@,
            i <= n,
            section_entries(ss@, name@) == section_entries(ss@.skip(i as int), name@),
        decreases n - i,
    {
        proof {
            assert(ss@.skip(i as int)[0] == ss@[i as int]);
            assert(ss@.skip(i as int).drop_first() =~= ss@.skip(i as int + 1));
        }
        let c = to_chars(ss[i].name.as_str());
        if crate::text::chars_eq(&c, &target) {
            return Some(&ss[i].entries);
        }
        i = i + 1;
    }
    proof {
        assert(ss@.skip(n as int) =~= Seq::<HookSection>::empty());
    }
    None
}

/// What one hook contributes to the plan.
fn plan_one(
    settings: &HookSettings,
    bin: &str,
    section: &'static str,
    matcher: &'static str,
    cmd: &'static str,
) -> (r: Option<PlannedHook>)
    ensures
        plan_one_spec(*settings, bin@, section@, matcher@, cmd@) == (match r {
            Some(p) => seq![p@],
            None => Seq::<PlannedHookV>::empty(),
        }),
{
    let mut full = String::from_str(bin);
    full.append(" ");
    full.append(cmd);
    proof {
        assert(full@ =~= full_cmd(bin@, cmd@));
    }
    let already = match find_section_entries(&settings.sections, section) {
        Some(es) => has_hook_command(es, full.as_str()),
        None => false,
    };
    if already {
        None
    } else {
        Some(
            PlannedHook {
                section: String::from_str(section),
                matcher: String::from_str(matcher),
                command: full,
            },
        )
    }
}

/// Compute the hook entries to append to the settings document so that
/// the four lifecycle hooks call this binary.  Entries whose command is
/// already present are not repeated; nothing already in the document is
/// touched.
pub fn install_hooks(settings: &HookSettings, bin: &str) -> (r: Vec<PlannedHook>)
    ensures
        plan_views(r@) == install_plan(*settings, bin@),
{
    let mut r: Vec<PlannedHook> = Vec::new();
    let p1 = plan_one(settings, bin, "UserPromptSubmit", "*", "hook user-prompt");
    let p2 = plan_one(settings, bin, "Stop", "*", "hook stop");
    let p3 = plan_one(settings, bin, "PreToolUse", "AskUserQuestion", "hook ask");
    let p4 = plan_one(settings, bin, "PostToolUse", "AskUserQuestion", "hook ask-done");
    match p1 {
        Some(p) => {
            r.push(p);
        },
        None => {},
    }
    match p2 {
        Some(p) => {
            r.push(p);
        },
        None => {},
    }
    match p3 {
        Some(p) => {
            r.push(p);
        },
        None => {},
    }
    match p4 {
        Some(p) => {
            r.push(p);
        },
        None => {},
    }
    proof {
        assert(plan_views(r@) =~= install_plan(*settings, bin@));
    }
    r
}

/// An answer accepts the installation prompt: empty (the default), `y`
/// or `yes`, surrounding blanks ignored and ASCII case folded.
pub fn accepts_install(answer: &str) -> (r: bool)
    ensures
        r == ({
            let t = trim_spec(answer@);
            t.len() == 0 || seq_ci_eq(t, "y"@) || seq_ci_eq(t, "yes"@)
        }),
{
    let c = to_chars(answer);
    let t = trim_chars(&c);
    if t.len() == 0 {
        return true;
    }
    let y = to_chars("y");
    let yes = to_chars("yes");
    chars_ci_eq(&t, &y) || chars_ci_eq(&t, &yes)
}

} // verus!
