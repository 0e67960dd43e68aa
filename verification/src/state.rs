//! Content-diff activity detection.
//!
//! This is the detection strategy that needs no cooperating signal
//! producer: each session's pane content is captured once per tick and the
//! state is inferred from how the capture changes.  A change confined to
//! the bottom line is the user typing; a change that touches upper lines
//! is the assistant generating.  Hysteresis counters keep the state from
//! flickering during short pauses.
//!
//! All input arrives as plain values (the captured text, the foreground
//! process name, a cross-instance "has worked" hint); the caller performs
//! the captures and owns the side effects the result asks for.

use std::collections::HashMap;

use vstd::prelude::*;

use crate::text::{
    chars_contain_then_ci, contains_chars, contains_chars_ci, contains_ci, contains_seq,
    contains_then_ci, line_vecs_eq, lines_of, lines_spec, to_chars, trimmed_lines,
    trimmed_lines_of,
};

verus! {

broadcast use vstd::std_specs::hash::group_hash_axioms;

/// The displayed activity state of one session slot.
#[derive(Clone, Copy, Debug, PartialEq, Eq, Structural)]
pub enum WindowState {
    /// New session, no activity detected yet.
    Fresh,
    /// The assistant is generating output.
    Working,
    /// The assistant is waiting for the user to answer a question.
    Asking,
    /// The assistant finished a turn and awaits the next message.
    Idle,
    /// The assistant process exited; a shell prompt is in the foreground.
    Done,
}

/// Ticks of sustained significant change before entering `Working`.
pub const WORK_ENTER_TICKS: u32 = 2;

/// Ticks of quiet before leaving `Working`.
pub const WORK_EXIT_TICKS: u32 = 5;

/// Did the capture change at all, comparing lines with surrounding blanks
/// ignored?
pub open spec fn changed_spec(old: Seq<char>, new: Seq<char>) -> bool {
    trimmed_lines(old) != trimmed_lines(new)
}

/// Did any changed content reach above the bottom line?  User typing only
/// touches the input line at the bottom; generated output scrolls the
/// lines above it.
pub open spec fn significant_spec(old: Seq<char>, new: Seq<char>) -> bool {
    let a = trimmed_lines(old);
    let b = trimmed_lines(new);
    if a.len() != b.len() {
        true
    } else if a.len() <= 1 {
        false
    } else {
        a.take(a.len() - 1) != b.take(b.len() - 1)
    }
}

/// Did any line change at all? (trimmed comparison)
pub fn any_change(old: &str, new: &str) -> (r: bool)
    ensures
        r == changed_spec(old@, new@),
{
    let a = trimmed_lines_of(old);
    let b = trimmed_lines_of(new);
    !line_vecs_eq(&a, &b)
}

/// Is this a significant change (assistant generating) vs trivial (user
/// typing)?
pub fn is_significant_change(old: &str, new: &str) -> (r: bool)
    ensures
        r == significant_spec(old@, new@),
{
    let a = trimmed_lines_of(old);
    let b = trimmed_lines_of(new);
    if a.len() != b.len() {
        return true;
    }
    if a.len() <= 1 {
        return false;
    }
    let n = a.len() - 1;
    let ghost av = trimmed_lines(old@);
    let ghost bv = trimmed_lines(new@);
    let mut i: usize = 0;
    while i < n
        invariant
            av == trimmed_lines(old@),
            bv == trimmed_lines(new@),
            a.deep_view() == av,
            b.deep_view() == bv,
            n + 1 == a@.len() == b@.len(),
            av.len() == bv.len() == n + 1,
            i <= n,
            forall|k: int| 0 <= k < i ==> av[k] == bv[k],
        decreases n - i,
    {
        if !crate::text::chars_eq(&a[i], &b[i]) {
            proof {
                assert(a@[i as int].deep_view() =~= a@[i as int]@);
                assert(b@[i as int].deep_view() =~= b@[i as int]@);
                assert(av.take(av.len() - 1)[i as int] != bv.take(bv.len() - 1)[i as int]);
            }
            return true;
        }
        i = i + 1;
    }
    proof {
        assert(av.take(av.len() - 1) =~= bv.take(bv.len() - 1));
    }
    false
}

/// A line shows a question prompt: a yes/no form, a selection marker, or
/// an allow/deny pair, compared without regard to ASCII case.
pub open spec fn question_line(l: Seq<char>) -> bool {
    ||| contains_then_ci(l, "(y)es"@, "(n)o"@)
    ||| contains_ci(l, "(y/n)"@)
    ||| contains_ci(l, "[y/n]"@)
    ||| contains_ci(l, "(yes/no)"@)
    ||| contains_seq(l, "\u{276f}"@)
    ||| contains_then_ci(l, "allow"@, "deny"@)
}

/// A question prompt shows in the last two lines of the capture, where
/// interactive prompts appear.
pub open spec fn question_spec(cap: Seq<char>) -> bool {
    let ls = lines_spec(cap);
    exists|k: int| 0 <= k < ls.len() && k >= ls.len() - 2 && #[trigger] question_line(ls[k])
}

fn question_line_check(l: &Vec<char>) -> (r: bool)
    ensures
        r == question_line(l@),
{
    let p_yes = to_chars("(y)es");
    let p_no = to_chars("(n)o");
    if chars_contain_then_ci(l, &p_yes, &p_no) {
        return true;
    }
    let p1 = to_chars("(y/n)");
    if contains_chars_ci(l, &p1) {
        return true;
    }
    let p2 = to_chars("[y/n]");
    if contains_chars_ci(l, &p2) {
        return true;
    }
    let p3 = to_chars("(yes/no)");
    if contains_chars_ci(l, &p3) {
        return true;
    }
    let p4 = to_chars("\u{276f}");
    if contains_chars(l, &p4) {
        return true;
    }
    let p5 = to_chars("allow");
    let p6 = to_chars("deny");
    chars_contain_then_ci(l, &p5, &p6)
}

/// Check only the last two lines for question patterns (prompts appear at
/// the bottom).
pub fn detect_question(capture: &str) -> (r: bool)
    ensures
        r == question_spec(capture@),
{
    let chars = to_chars(capture);
    let lines = lines_of(&chars);
    let ghost ls = lines_spec(capture@);
    let n = lines.len();
    let lo: usize = if n >= 2 {
        n - 2
    } else {
        0
    };
    let mut k: usize = lo;
    let mut found = false;
    while k < n
        invariant
            lines.deep_view() == ls,
            lines@.len() == ls.len() == n,
            lo <= k <= n,
            n < 2 ==> lo == 0,
            n >= 2 ==> lo == n - 2,
            found == exists|j: int| lo <= j < k && #[trigger] question_line(ls[j]),
        decreases n - k,
    {
        proof {
            assert(lines@[k as int].deep_view() =~= lines@[k as int]@);
            assert(lines.deep_view()[k as int] == ls[k as int]);
        }
        if question_line_check(&lines[k]) {
            found = true;
        }
        k = k + 1;
    }
    found
}

/// Per-slot tracker state carried between ticks.
pub struct WindowTracker {
    /// The previous capture of the pane content.
    pub prev_raw: String,
    /// Consecutive ticks with a significant change.
    pub change_streak: u32,
    /// Consecutive quiet ticks.
    pub stable_streak: u32,
    /// The assistant has been seen working at least once.
    pub ever_worked: bool,
    /// The tracker reported `Working` recently.
    pub was_working: bool,
    /// The assistant finished a generation turn; cleared on any content
    /// change so a ready mark disappears while the user types.
    pub turn_complete: bool,
}

/// The mathematical model of a tracker.
pub struct TrackerModel {
    pub prev: Seq<char>,
    pub change_streak: u32,
    pub stable_streak: u32,
    pub ever_worked: bool,
    pub was_working: bool,
    pub turn_complete: bool,
}

impl View for WindowTracker {
    type V = TrackerModel;

    open spec fn view(&self) -> TrackerModel {
        TrackerModel {
            prev: self.prev_raw@,
            change_streak: self.change_streak,
            stable_streak: self.stable_streak,
            ever_worked: self.ever_worked,
            was_working: self.was_working,
            turn_complete: self.turn_complete,
        }
    }
}

/// Increment a streak counter without wrapping.
pub open spec fn sat_inc(x: u32) -> u32 {
    if x < u32::MAX {
        (x + 1) as u32
    } else {
        x
    }
}

/// The tracker a slot starts with: the current capture as baseline and the
/// cross-instance hint deciding whether a finished turn is assumed.
pub open spec fn fresh_model(cap: Seq<char>, worked: bool) -> TrackerModel {
    TrackerModel {
        prev: cap,
        change_streak: 0,
        stable_streak: 0,
        ever_worked: worked,
        was_working: false,
        turn_complete: worked,
    }
}

/// One tick of the tracker state machine: feed a capture, obtain the
/// reported state and the successor tracker.
pub open spec fn tracker_step(m: TrackerModel, cap: Seq<char>) -> (WindowState, TrackerModel) {
    let changed = changed_spec(m.prev, cap);
    let significant = changed && significant_spec(m.prev, cap);
    let turn0 = if changed {
        false
    } else {
        m.turn_complete
    };
    let cs = if significant {
        sat_inc(m.change_streak)
    } else {
        0u32
    };
    let ss = if significant {
        0u32
    } else {
        sat_inc(m.stable_streak)
    };
    if cs >= WORK_ENTER_TICKS {
        (
            WindowState::Working,
            TrackerModel {
                prev: cap,
                change_streak: cs,
                stable_streak: ss,
                ever_worked: true,
                was_working: true,
                turn_complete: turn0,
            },
        )
    } else if m.was_working && ss < WORK_EXIT_TICKS {
        (
            WindowState::Working,
            TrackerModel {
                prev: cap,
                change_streak: cs,
                stable_streak: ss,
                ever_worked: m.ever_worked,
                was_working: m.was_working,
                turn_complete: turn0,
            },
        )
    } else {
        let turn1 = if m.was_working {
            true
        } else {
            turn0
        };
        let st = if turn1 {
            if question_spec(cap) {
                WindowState::Asking
            } else {
                WindowState::Idle
            }
        } else {
            WindowState::Fresh
        };
        (
            st,
            TrackerModel {
                prev: cap,
                change_streak: cs,
                stable_streak: ss,
                ever_worked: m.ever_worked,
                was_working: false,
                turn_complete: turn1,
            },
        )
    }
}

impl WindowTracker {
    /// Feed a new capture and return the current state.  Pure state
    /// machine: the caller handles every side effect.
    pub fn update(&mut self, raw_capture: &str) -> (s: WindowState)
        ensures
            s == tracker_step(old(self)@, raw_capture@).0,
            final(self)@ == tracker_step(old(self)@, raw_capture@).1,
    {
        let changed = any_change(self.prev_raw.as_str(), raw_capture);
        let significant = changed && is_significant_change(self.prev_raw.as_str(), raw_capture);

        if changed {
            self.turn_complete = false;
        }

        if significant {
            self.change_streak = if self.change_streak < u32::MAX {
                self.change_streak + 1
            } else {
                self.change_streak
            };
            self.stable_streak = 0;
        } else {
            self.stable_streak = if self.stable_streak < u32::MAX {
                self.stable_streak + 1
            } else {
                self.stable_streak
            };
            self.change_streak = 0;
        }

        let state = if self.change_streak >= WORK_ENTER_TICKS {
            self.ever_worked = true;
            self.was_working = true;
            WindowState::Working
        } else if self.was_working && self.stable_streak < WORK_EXIT_TICKS {
            WindowState::Working
        } else {
            if self.was_working {
                self.turn_complete = true;
            }
            self.was_working = false;
            if self.turn_complete {
                if detect_question(raw_capture) {
                    WindowState::Asking
                } else {
                    WindowState::Idle
                }
            } else {
                WindowState::Fresh
            }
        };

        self.prev_raw = String::from_str(raw_capture);
        state
    }
}

/// The per-slot observations handed to one detect cycle: the foreground
/// process name, the captured pane content and the cross-instance worked
/// hint, keyed by slot identifier.
pub struct PaneInput {
    pub index: u32,
    pub command: String,
    pub capture: String,
    pub worked: bool,
}

/// The mathematical model of a pane observation.
pub struct PaneInputV {
    pub index: u32,
    pub command: Seq<char>,
    pub capture: Seq<char>,
    pub worked: bool,
}

impl View for PaneInput {
    type V = PaneInputV;

    open spec fn view(&self) -> PaneInputV {
        PaneInputV {
            index: self.index,
            command: self.command@,
            capture: self.capture@,
            worked: self.worked,
        }
    }
}

/// A foreground process name that shows the assistant has exited.
pub open spec fn shell_name(c: Seq<char>) -> bool {
    c == "zsh"@ || c == "bash"@ || c == "fish"@
}

/// The observation for a given slot: the first entry with its identifier.
pub open spec fn pane_for(panes: Seq<PaneInput>, idx: u32) -> Option<PaneInputV>
    decreases panes.len(),
{
    if panes.len() == 0 {
        None
    } else if panes[0].index == idx {
        Some(panes[0]@)
    } else {
        pane_for(panes.drop_first(), idx)
    }
}

/// A slot with no observation, or with a shell in the foreground, shows
/// `Done` this cycle.
pub open spec fn pane_done(panes: Seq<PaneInput>, idx: u32) -> bool {
    match pane_for(panes, idx) {
        None => true,
        Some(p) => shell_name(p.command),
    }
}

/// The capture for a slot; empty when no observation exists.
pub open spec fn pane_capture(panes: Seq<PaneInput>, idx: u32) -> Seq<char> {
    match pane_for(panes, idx) {
        None => Seq::empty(),
        Some(p) => p.capture,
    }
}

/// The cross-instance worked hint for a slot.
pub open spec fn pane_worked(panes: Seq<PaneInput>, idx: u32) -> bool {
    match pane_for(panes, idx) {
        None => false,
        Some(p) => p.worked,
    }
}

/// One of the first `w` slots of the directory carries this identifier.
pub open spec fn has_window_prefix(ws: Seq<crate::tmux::WindowInfo>, w: int, idx: u32) -> bool {
    exists|i: int| 0 <= i < w && i < ws.len() && (#[trigger] ws[i]).index == idx
}

/// Some slot in the directory carries this identifier.
pub open spec fn has_window(ws: Seq<crate::tmux::WindowInfo>, idx: u32) -> bool {
    has_window_prefix(ws, ws.len() as int, idx)
}

/// The tracker a slot enters the cycle with: the remembered one, or a
/// fresh tracker seeded from the current capture and the worked hint.
pub open spec fn init_model(m: Map<u32, TrackerModel>, panes: Seq<PaneInput>, idx: u32) -> TrackerModel {
    if m.contains_key(idx) {
        m[idx]
    } else {
        fresh_model(pane_capture(panes, idx), pane_worked(panes, idx))
    }
}

/// The state a slot resolves to in one detect cycle.
pub open spec fn window_result(m: Map<u32, TrackerModel>, panes: Seq<PaneInput>, idx: u32) -> WindowState {
    if pane_done(panes, idx) {
        WindowState::Done
    } else {
        tracker_step(init_model(m, panes, idx), pane_capture(panes, idx)).0
    }
}

/// The tracker a live, non-shell slot leaves the cycle with.
pub open spec fn updated_model(m: Map<u32, TrackerModel>, panes: Seq<PaneInput>, idx: u32) -> TrackerModel {
    tracker_step(init_model(m, panes, idx), pane_capture(panes, idx)).1
}

/// No two entries of a tracker list carry the same slot identifier.
pub open spec fn unique_keys(s: Seq<(u32, WindowTracker)>) -> bool {
    forall|i: int, j: int| 0 <= i < j < s.len() ==> (#[trigger] s[i]).0 != (#[trigger] s[j]).0
}

/// The map a tracker list stands for.
pub open spec fn trackers_map(s: Seq<(u32, WindowTracker)>) -> Map<u32, TrackerModel>
    decreases s.len(),
{
    if s.len() == 0 {
        Map::empty()
    } else {
        trackers_map(s.drop_last()).insert(s.last().0, s.last().1@)
    }
}

proof fn lemma_map_contains(s: Seq<(u32, WindowTracker)>, idx: u32)
    ensures
        trackers_map(s).contains_key(idx) <==> exists|j: int|
            0 <= j < s.len() && (#[trigger] s[j]).0 == idx,
    decreases s.len(),
{
    if s.len() > 0 {
        lemma_map_contains(s.drop_last(), idx);
        if s.last().0 == idx {
            assert(s[s.len() - 1].0 == idx);
        } else {
            if trackers_map(s).contains_key(idx) {
                let j = choose|j: int| 0 <= j < s.drop_last().len() && (#[trigger] s.drop_last()[j]).0 == idx;
                assert(s[j].0 == idx);
            }
            if exists|j: int| 0 <= j < s.len() && (#[trigger] s[j]).0 == idx {
                let j = choose|j: int| 0 <= j < s.len() && (#[trigger] s[j]).0 == idx;
                assert(j < s.len() - 1);
                assert(s.drop_last()[j].0 == idx);
            }
        }
    }
}

proof fn lemma_map_at(s: Seq<(u32, WindowTracker)>, j: int)
    requires
        unique_keys(s),
        0 <= j < s.len(),
    ensures
        trackers_map(s).contains_key(s[j].0),
        trackers_map(s)[s[j].0] == s[j].1@,
    decreases s.len(),
{
    if j == s.len() - 1 {
    } else {
        assert(unique_keys(s.drop_last()));
        assert(s.drop_last()[j] == s[j]);
        lemma_map_at(s.drop_last(), j);
        assert(s[j].0 != s.last().0);
    }
}

proof fn lemma_map_remove(s: Seq<(u32, WindowTracker)>, j: int)
    requires
        unique_keys(s),
        0 <= j < s.len(),
    ensures
        trackers_map(s.remove(j)) == trackers_map(s).remove(s[j].0),
    decreases s.len(),
{
    let key = s[j].0;
    if j == s.len() - 1 {
        assert(s.remove(j) =~= s.drop_last());
        lemma_map_contains(s.drop_last(), key);
        assert(forall|k: int|
            0 <= k < s.drop_last().len() ==> (#[trigger] s.drop_last()[k]).0 != key);
        assert(!trackers_map(s.drop_last()).contains_key(key));
        assert(trackers_map(s.drop_last()).insert(key, s.last().1@).remove(key) =~= trackers_map(
            s.drop_last(),
        ));
    } else {
        assert(unique_keys(s.drop_last()));
        assert(s.drop_last()[j] == s[j]);
        lemma_map_remove(s.drop_last(), j);
        assert(s.remove(j).drop_last() =~= s.drop_last().remove(j));
        assert(s.remove(j).last() == s.last());
        assert(s.last().0 != key);
        assert(trackers_map(s.remove(j)) == trackers_map(s.drop_last().remove(j)).insert(
            s.last().0,
            s.last().1@,
        ));
        assert(trackers_map(s.drop_last()).remove(key).insert(s.last().0, s.last().1@)
            =~= trackers_map(s.drop_last()).insert(s.last().0, s.last().1@).remove(key));
    }
}

/// Remove and return the tracker for a slot, if one is remembered.
fn take_tracker(v: &mut Vec<(u32, WindowTracker)>, idx: u32) -> (r: Option<WindowTracker>)
    requires
        unique_keys(old(v)@),
    ensures
        unique_keys(final(v)@),
        match r {
            Some(t) => trackers_map(old(v)@).contains_key(idx) && t@ == trackers_map(old(v)@)[idx]
                && trackers_map(final(v)@) == trackers_map(old(v)@).remove(idx),
            None => !trackers_map(old(v)@).contains_key(idx) && final(v)@ == old(v)@,
        },
{
    let n = v.len();
    let mut j: usize = 0;
    while j < n
        invariant
            v@ == old(v)@,
            unique_keys(v@),
            n == v@.len(),
            j <= n,
            forall|k: int| 0 <= k < j ==> (#[trigger] v@[k]).0 != idx,
        decreases n - j,
    {
        if v[j].0 == idx {
            proof {
                lemma_map_at(v@, j as int);
                lemma_map_remove(v@, j as int);
            }
            let (_, t) = v.remove(j);
            proof {
                assert forall|a: int, b: int| 0 <= a < b < v@.len() implies (#[trigger] v@[a]).0
                    != (#[trigger] v@[b]).0 by {
                    assert(v@[a] == if a < j {
                        old(v)@[a]
                    } else {
                        old(v)@[a + 1]
                    });
                    assert(v@[b] == if b < j {
                        old(v)@[b]
                    } else {
                        old(v)@[b + 1]
                    });
                }
            }
            return Some(t);
        }
        j = j + 1;
    }
    proof {
        lemma_map_contains(v@, idx);
    }
    None
}

/// Does some slot of the directory carry this identifier?
fn window_exists(ws: &Vec<crate::tmux::WindowInfo>, idx: u32) -> (r: bool)
    ensures
        r == has_window(ws@, idx),
{
    let n = ws.len();
    let mut i: usize = 0;
    while i < n
        invariant
            n == ws@.len(),
            i <= n,
            forall|k: int| 0 <= k < i ==> (#[trigger] ws@[k]).index != idx,
        decreases n - i,
    {
        if ws[i].index == idx {
            return true;
        }
        i = i + 1;
    }
    false
}

/// The observation recorded for a slot, if any.
fn find_pane<'a>(panes: &'a Vec<PaneInput>, idx: u32) -> (r: Option<&'a PaneInput>)
    ensures
        match r {
            Some(p) => pane_for(panes@, idx) == Some(p@),
            None => pane_for(panes@, idx) is None,
        },
{
    let n = panes.len();
    let mut i: usize = 0;
    proof {
        assert(panes@.skip(0) =~= panes@);
    }
    while i < n
        invariant
            n == panes@.len(),
            i <= n,
            pane_for(panes@, idx) == pane_for(panes@.skip(i as int), idx),
        decreases n - i,
    {
        proof {
            assert(panes@.skip(i as int)[0] == panes@[i as int]);
            assert(panes@.skip(i as int).drop_first() =~= panes@.skip(i as int + 1));
        }
        if panes[i].index == idx {
            return Some(&panes[i]);
        }
        i = i + 1;
    }
    proof {
        assert(panes@.skip(n as int) =~= Seq::<PaneInput>::empty());
    }
    None
}

/// Is this foreground process name one of the recognised idle shells?
pub fn shell_check(cmd: &str) -> (r: bool)
    ensures
        r == shell_name(cmd@),
{
    let c = to_chars(cmd);
    let z = to_chars("zsh");
    if crate::text::chars_eq(&c, &z) {
        return true;
    }
    let b = to_chars("bash");
    if crate::text::chars_eq(&c, &b) {
        return true;
    }
    let f = to_chars("fish");
    crate::text::chars_eq(&c, &f)
}

/// Remembers one tracker per slot across detect cycles and resolves each
/// visible slot once per cycle.
pub struct StateDetector {
    trackers: Vec<(u32, WindowTracker)>,
}

impl View for StateDetector {
    type V = Map<u32, TrackerModel>;

    closed spec fn view(&self) -> Map<u32, TrackerModel> {
        trackers_map(self.trackers@)
    }
}

/// What one detect cycle produced: the state of every visible slot, the
/// slots whose worked mark should now be persisted, and the slots whose
/// tracker and mark were dropped because the slot closed.
pub struct DetectResult {
    pub states: HashMap<u32, WindowState>,
    pub newly_worked: Vec<u32>,
    pub removed: Vec<u32>,
}

impl StateDetector {
    /// The tracker list keys each slot at most once.
    pub closed spec fn wf(&self) -> bool {
        unique_keys(self.trackers@)
    }

    pub fn new() -> (r: StateDetector)
        ensures
            r.wf(),
            r@ == Map::<u32, TrackerModel>::empty(),
    {
        StateDetector { trackers: Vec::new() }
    }

    /// Detect the state of each window.  Every slot resolves to a state:
    /// `Done` when the foreground process is an idle shell (or the slot
    /// has no observation), otherwise the tracker fed with the current
    /// capture decides.  Trackers of closed slots are dropped; the caller
    /// is told which worked marks to persist and which to clear.
    pub fn detect(&mut self, windows: &Vec<crate::tmux::WindowInfo>, panes: &Vec<PaneInput>) -> (r:
        DetectResult)
        requires
            old(self).wf(),
            forall|i: int, j: int|
                0 <= i < j < windows@.len() ==> (#[trigger] windows@[i]).index != (
                #[trigger] windows@[j]).index,
        ensures
            final(self).wf(),
            forall|idx: u32|
                r.states@.contains_key(idx) <==> has_window(windows@, idx),
            forall|idx: u32|
                has_window(windows@, idx) ==> r.states@[idx] == window_result(
                    old(self)@,
                    panes@,
                    idx,
                ),
            forall|idx: u32|
                final(self)@.contains_key(idx) <==> (has_window(windows@, idx) && (!pane_done(
                    panes@,
                    idx,
                ) || old(self)@.contains_key(idx))),
            forall|idx: u32|
                has_window(windows@, idx) && !pane_done(panes@, idx) ==> final(self)@[idx]
                    == updated_model(old(self)@, panes@, idx),
            forall|idx: u32|
                has_window(windows@, idx) && pane_done(panes@, idx) && old(self)@.contains_key(idx)
                    ==> final(self)@[idx] == old(self)@[idx],
            forall|idx: u32|
                r.newly_worked@.contains(idx) <==> (has_window(windows@, idx) && !pane_done(
                    panes@,
                    idx,
                ) && !init_model(old(self)@, panes@, idx).ever_worked && updated_model(
                    old(self)@,
                    panes@,
                    idx,
                ).ever_worked),
            forall|idx: u32|
                r.removed@.contains(idx) <==> (old(self)@.contains_key(idx) && !has_window(
                    windows@,
                    idx,
                )),
    {
        let ghost m0 = trackers_map(self.trackers@);
        let mut states: HashMap<u32, WindowState> = HashMap::new();
        let mut newly: Vec<u32> = Vec::new();
        let mut removed: Vec<u32> = Vec::new();
        let mut kept: Vec<(u32, WindowTracker)> = Vec::new();
        let nw = windows.len();
        let mut w: usize = 0;
        while w < nw
            invariant
                nw == windows@.len(),
                w <= nw,
                self.wf(),
                unique_keys(kept@),
                m0 == old(self)@,
                forall|i: int, j: int|
                    0 <= i < j < windows@.len() ==> (#[trigger] windows@[i]).index != (
                    #[trigger] windows@[j]).index,
                forall|idx: u32|
                    #[trigger] trackers_map(self.trackers@).contains_key(idx) <==> (
                    m0.contains_key(idx) && !has_window_prefix(windows@, w as int, idx)),
                forall|idx: u32|
                    #[trigger] trackers_map(self.trackers@).contains_key(idx) ==> trackers_map(
                        self.trackers@,
                    )[idx] == m0[idx],
                forall|idx: u32|
                    #[trigger] states@.contains_key(idx) <==> has_window_prefix(
                        windows@,
                        w as int,
                        idx,
                    ),
                forall|idx: u32|
                    #[trigger] has_window_prefix(windows@, w as int, idx) ==> states@[idx]
                        == window_result(m0, panes@, idx),
                forall|idx: u32|
                    #[trigger] trackers_map(kept@).contains_key(idx) <==> (has_window_prefix(
                        windows@,
                        w as int,
                        idx,
                    ) && (!pane_done(panes@, idx) || m0.contains_key(idx))),
                forall|idx: u32|
                    #[trigger] has_window_prefix(windows@, w as int, idx) && !pane_done(
                        panes@,
                        idx,
                    ) ==> trackers_map(kept@)[idx] == updated_model(m0, panes@, idx),
                forall|idx: u32|
                    #[trigger] has_window_prefix(windows@, w as int, idx) && pane_done(panes@, idx)
                        && m0.contains_key(idx) ==> trackers_map(kept@)[idx] == m0[idx],
                forall|idx: u32|
                    #[trigger] newly@.contains(idx) <==> (has_window_prefix(windows@, w as int, idx)
                        && !pane_done(panes@, idx) && !init_model(m0, panes@, idx).ever_worked
                        && updated_model(m0, panes@, idx).ever_worked),
                removed@.len() == 0,
            decreases nw - w,
        {
            let win_idx = windows[w].index;
            proof {
                assert forall|i: int| 0 <= i < w implies (#[trigger] windows@[i]).index
                    != win_idx by {
                    assert(windows@[i].index != windows@[w as int].index);
                }
                assert(!has_window_prefix(windows@, w as int, win_idx));
                assert forall|idx: u32|
                    has_window_prefix(windows@, w as int + 1, idx) <==> (has_window_prefix(
                        windows@,
                        w as int,
                        idx,
                    ) || idx == win_idx) by {
                    if has_window_prefix(windows@, w as int + 1, idx) {
                        let i = choose|i: int|
                            0 <= i < w as int + 1 && i < windows@.len() && (
                            #[trigger] windows@[i]).index == idx;
                        if i < w as int {
                            assert(has_window_prefix(windows@, w as int, idx));
                        }
                    }
                    if idx == win_idx {
                        assert(windows@[w as int].index == idx);
                    }
                }
            }
            let ghost newly_before = newly@;
            match find_pane(panes, win_idx) {
                None => {
                    assert(pane_done(panes@, win_idx));
                    let tr_opt = take_tracker(&mut self.trackers, win_idx);
                    match tr_opt {
                        Some(t) => {
                            proof {
                                assert forall|a: int| 0 <= a < kept@.len() implies (
                                #[trigger] kept@[a]).0 != win_idx by {
                                    lemma_map_at(kept@, a);
                                }
                            }
                            let ghost kept_before = kept@;
                            kept.push((win_idx, t));
                            proof {
                                assert(kept@.drop_last() =~= kept_before);
                                assert(trackers_map(kept@) == trackers_map(kept_before).insert(
                                    win_idx,
                                    t@,
                                ));
                            }
                        },
                        None => {},
                    }
                    states.insert(win_idx, WindowState::Done);
                },
                Some(p) => {
                    let is_done = shell_check(p.command.as_str());
                    proof {
                        assert(is_done == pane_done(panes@, win_idx));
                        assert(pane_capture(panes@, win_idx) == p.capture@);
                    }
                    let tr_opt = take_tracker(&mut self.trackers, win_idx);
                    proof {
                        assert forall|a: int| 0 <= a < kept@.len() implies (
                        #[trigger] kept@[a]).0 != win_idx by {
                            lemma_map_at(kept@, a);
                        }
                    }
                    if is_done {
                        match tr_opt {
                            Some(t) => {
                                let ghost kept_before = kept@;
                                kept.push((win_idx, t));
                                proof {
                                    assert(kept@.drop_last() =~= kept_before);
                                    assert(trackers_map(kept@) == trackers_map(
                                        kept_before,
                                    ).insert(win_idx, t@));
                                }
                            },
                            None => {},
                        }
                        states.insert(win_idx, WindowState::Done);
                    } else {
                        let mut tr = match tr_opt {
                            Some(t) => t,
                            None => WindowTracker {
                                prev_raw: String::from_str(p.capture.as_str()),
                                change_streak: 0,
                                stable_streak: 0,
                                ever_worked: p.worked,
                                was_working: false,
                                turn_complete: p.worked,
                            },
                        };
                        proof {
                            assert(tr@ == init_model(m0, panes@, win_idx));
                        }
                        let was0 = tr.ever_worked;
                        let st = tr.update(p.capture.as_str());
                        proof {
                            assert(st == window_result(m0, panes@, win_idx));
                            assert(tr@ == updated_model(m0, panes@, win_idx));
                        }
                        if tr.ever_worked && !was0 {
                            newly.push(win_idx);
                            proof {
                                assert(newly@.drop_last() =~= newly_before);
                            }
                        }
                        let ghost kept_before = kept@;
                        kept.push((win_idx, tr));
                        proof {
                            assert(kept@.drop_last() =~= kept_before);
                            assert(trackers_map(kept@) == trackers_map(kept_before).insert(
                                win_idx,
                                tr@,
                            ));
                        }
                        states.insert(win_idx, st);
                    }
                },
            }
            proof {
                assert forall|idx: u32| #[trigger] newly@.contains(idx) implies (
                newly_before.contains(idx) || idx == win_idx) by {
                    let i = choose|i: int| 0 <= i < newly@.len() && newly@[i] == idx;
                    if i < newly_before.len() {
                        assert(newly_before[i] == idx);
                    }
                }
                assert forall|idx: u32| newly_before.contains(idx) implies #[trigger] newly@.contains(
                    idx,
                ) by {
                    let i = choose|i: int| 0 <= i < newly_before.len() && newly_before[i] == idx;
                    assert(newly@[i] == idx);
                }
                if newly@.len() > newly_before.len() {
                    assert(newly@[newly@.len() - 1] == win_idx);
                    assert(newly@.contains(win_idx));
                }
                let km = trackers_map(kept@);
                assert forall|idx: u32| #[trigger] km.contains_key(idx) implies (
                has_window_prefix(windows@, w as int + 1, idx) && (!pane_done(panes@, idx)
                    || m0.contains_key(idx))) by {
                    if idx == win_idx {
                        assert(windows@[w as int].index == idx);
                        assert(has_window_prefix(windows@, w as int + 1, idx));
                    } else {
                        assert(has_window_prefix(windows@, w as int, idx));
                        let i = choose|i: int|
                            0 <= i < w as int && i < windows@.len() && (
                            #[trigger] windows@[i]).index == idx;
                        assert(has_window_prefix(windows@, w as int + 1, idx));
                    }
                }
                assert forall|idx: u32|
                    (has_window_prefix(windows@, w as int + 1, idx) && (!pane_done(panes@, idx)
                        || m0.contains_key(idx))) implies #[trigger] km.contains_key(idx) by {}
                assert forall|idx: u32|
                    #[trigger] has_window_prefix(windows@, w as int + 1, idx) && idx != win_idx
                        implies has_window_prefix(windows@, w as int, idx) by {
                    let i = choose|i: int|
                        0 <= i < w as int + 1 && i < windows@.len() && (
                        #[trigger] windows@[i]).index == idx;
                    assert(windows@[w as int].index == win_idx);
                    assert(i < w as int);
                }
                assert forall|idx: u32|
                    #[trigger] has_window_prefix(windows@, w as int + 1, idx) implies states@[idx]
                        == window_result(m0, panes@, idx) by {
                    if idx != win_idx {
                        assert(has_window_prefix(windows@, w as int, idx));
                    }
                }
                assert forall|idx: u32|
                    #[trigger] has_window_prefix(windows@, w as int + 1, idx) && !pane_done(
                        panes@,
                        idx,
                    ) implies km[idx] == updated_model(m0, panes@, idx) by {
                    if idx != win_idx {
                        assert(has_window_prefix(windows@, w as int, idx));
                    }
                }
                assert forall|idx: u32|
                    #[trigger] has_window_prefix(windows@, w as int + 1, idx) && pane_done(
                        panes@,
                        idx,
                    ) && m0.contains_key(idx) implies km[idx] == m0[idx] by {
                    if idx != win_idx {
                        assert(has_window_prefix(windows@, w as int, idx));
                    }
                }
            }
            w = w + 1;
        }
        // Every slot is resolved; any tracker still held belongs to a
        // closed slot, so it is dropped and its mark cleared.
        proof {
            assert(w == nw);
            assert forall|idx: u32|
                has_window_prefix(windows@, w as int, idx) == has_window(windows@, idx) by {}
            let km = trackers_map(kept@);
            assert forall|idx: u32| #[trigger] km.contains_key(idx) implies (has_window(
                windows@,
                idx,
            ) && (!pane_done(panes@, idx) || m0.contains_key(idx))) by {
                assert(has_window_prefix(windows@, w as int, idx));
                let i = choose|i: int|
                    0 <= i < w as int && i < windows@.len() && (#[trigger] windows@[i]).index
                        == idx;
                assert(0 <= i < windows@.len() as int);
                assert(has_window(windows@, idx));
            }
            assert forall|idx: u32|
                (has_window(windows@, idx) && (!pane_done(panes@, idx) || m0.contains_key(
                    idx,
                ))) implies #[trigger] km.contains_key(idx) by {
                let i = choose|i: int|
                    0 <= i < windows@.len() as int && i < windows@.len() && (
                    #[trigger] windows@[i]).index == idx;
                assert(0 <= i < w as int);
                assert(has_window_prefix(windows@, w as int, idx));
            }
        }
        while self.trackers.len() > 0
            invariant
                self.wf(),
                unique_keys(kept@),
                m0 == old(self)@,
                forall|idx: u32|
                    #[trigger] trackers_map(self.trackers@).contains_key(idx) ==> (
                    m0.contains_key(idx) && !has_window(windows@, idx)),
                forall|idx: u32|
                    #[trigger] states@.contains_key(idx) <==> has_window(windows@, idx),
                forall|idx: u32|
                    #[trigger] has_window(windows@, idx) ==> states@[idx] == window_result(
                        m0,
                        panes@,
                        idx,
                    ),
                forall|idx: u32|
                    #[trigger] trackers_map(kept@).contains_key(idx) <==> (has_window(
                        windows@,
                        idx,
                    ) && (!pane_done(panes@, idx) || m0.contains_key(idx))),
                forall|idx: u32|
                    #[trigger] has_window(windows@, idx) && !pane_done(panes@, idx)
                        ==> trackers_map(kept@)[idx] == updated_model(m0, panes@, idx),
                forall|idx: u32|
                    #[trigger] has_window(windows@, idx) && pane_done(panes@, idx)
                        && m0.contains_key(idx) ==> trackers_map(kept@)[idx] == m0[idx],
                forall|idx: u32|
                    #[trigger] newly@.contains(idx) <==> (has_window(windows@, idx) && !pane_done(
                        panes@,
                        idx,
                    ) && !init_model(m0, panes@, idx).ever_worked && updated_model(
                        m0,
                        panes@,
                        idx,
                    ).ever_worked),
                forall|idx: u32|
                    #[trigger] removed@.contains(idx) <==> (m0.contains_key(idx) && !has_window(
                        windows@,
                        idx,
                    ) && !trackers_map(self.trackers@).contains_key(idx)),
            decreases self.trackers.len(),
        {
            let ghost s_before = self.trackers@;
            let ghost cur = trackers_map(self.trackers@);
            let ghost removed_before = removed@;
            let popped = self.trackers.pop();
            match popped {
                Some(pair) => {
                    let idx = pair.0;
                    proof {
                        assert(s_before.len() > 0);
                        assert(self.trackers@ =~= s_before.drop_last());
                        assert(idx == s_before.last().0);
                        assert(cur == trackers_map(self.trackers@).insert(idx, s_before.last().1@));
                        assert forall|k: int| 0 <= k < self.trackers@.len() implies (
                        #[trigger] self.trackers@[k]).0 != idx by {
                            assert(self.trackers@[k] == s_before[k]);
                        }
                        lemma_map_contains(self.trackers@, idx);
                        assert(!trackers_map(self.trackers@).contains_key(idx));
                        assert(cur.contains_key(idx));
                        assert(m0.contains_key(idx) && !has_window(windows@, idx));
                        assert forall|j: u32|
                            #[trigger] trackers_map(self.trackers@).contains_key(j) implies (
                        m0.contains_key(j) && !has_window(windows@, j)) by {
                            assert(cur.contains_key(j));
                        }
                    }
                    removed.push(idx);
                    proof {
                        assert forall|j: u32| #[trigger] removed@.contains(j) implies (
                        removed_before.contains(j) || j == idx) by {
                            let i = choose|i: int| 0 <= i < removed@.len() && removed@[i] == j;
                            if i < removed_before.len() {
                                assert(removed_before[i] == j);
                            }
                        }
                        assert forall|j: u32| removed_before.contains(j) implies
                            #[trigger] removed@.contains(j) by {
                            let i = choose|i: int|
                                0 <= i < removed_before.len() && removed_before[i] == j;
                            assert(removed@[i] == j);
                        }
                        assert(removed@[removed@.len() - 1] == idx);
                        assert(removed@.contains(idx));
                    }
                },
                None => {
                    proof {
                        assert(false);
                    }
                },
            }
        }
        proof {
            assert forall|idx: u32|
                !trackers_map(self.trackers@).contains_key(idx) by {
                lemma_map_contains(self.trackers@, idx);
            }
        }
        self.trackers = kept;
        DetectResult { states, newly_worked: newly, removed }
    }
}

} // verus!
