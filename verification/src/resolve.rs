//! The state resolver: join the window directory with the status events
//! and decide one displayed state per slot.
//!
//! A slot whose foreground process is a recognised idle shell resolves to
//! `Done` no matter what the logs say: an exited assistant can never be
//! working again, however stale the records.  Otherwise the event with
//! the latest observation time among those naming the slot's working
//! directory decides; a slot no event names stays `Fresh`.
//!
//! Matching is exact on the directory string: no normalisation, no
//! symlink resolution.  Callers canonicalise paths upstream.

use std::collections::HashMap;

use vstd::prelude::*;

use crate::events::{Status, StatusEvent, StatusEventV};
use crate::state::WindowState;
use crate::text::chars_eq;
use crate::tmux::WindowInfo;

verus! {

broadcast use vstd::std_specs::hash::group_hash_axioms;

/// The displayed state an event status maps to; an unknown status falls
/// back to the neutral fresh state.
pub open spec fn status_state(s: Status) -> WindowState {
    match s {
        Status::Working => WindowState::Working,
        Status::Asking => WindowState::Asking,
        Status::Idle => WindowState::Idle,
        Status::Other => WindowState::Fresh,
    }
}

/// The foreground process name recorded for a slot, if any: the first
/// entry carrying the slot's identifier.
pub open spec fn cmd_for(cmds: Seq<(u32, String)>, idx: u32) -> Option<Seq<char>>
    decreases cmds.len(),
{
    if cmds.len() == 0 {
        None
    } else if cmds[0].0 == idx {
        Some(cmds[0].1@)
    } else {
        cmd_for(cmds.drop_first(), idx)
    }
}

/// A slot resolves to `Done` exactly when a foreground process name was
/// recorded for it and that name is an idle shell.
pub open spec fn slot_done(cmds: Seq<(u32, String)>, idx: u32) -> bool {
    match cmd_for(cmds, idx) {
        None => false,
        Some(c) => crate::state::shell_name(c),
    }
}

/// The winning event for a working directory: among the events whose
/// `cwd` equals it exactly, one with the greatest observation time; on a
/// tie, the latest in the sequence.
pub open spec fn best_event(events: Seq<StatusEventV>, cwd: Seq<char>) -> Option<StatusEventV>
    decreases events.len(),
{
    if events.len() == 0 {
        None
    } else {
        let prev = best_event(events.drop_last(), cwd);
        let e = events.last();
        if e.cwd == cwd {
            match prev {
                None => Some(e),
                Some(p) => if e.observed_at >= p.observed_at {
                    Some(e)
                } else {
                    Some(p)
                },
            }
        } else {
            prev
        }
    }
}

/// The state one slot resolves to.
pub open spec fn resolve_slot(
    slot: crate::tmux::WindowInfoV,
    cmds: Seq<(u32, String)>,
    events: Seq<StatusEventV>,
) -> WindowState {
    if slot_done(cmds, slot.index) {
        WindowState::Done
    } else {
        match best_event(events, slot.pane_path) {
            None => WindowState::Fresh,
            Some(e) => status_state(e.status),
        }
    }
}

/// The full state map of one resolution pass.
pub open spec fn resolve_spec(
    slots: Seq<WindowInfo>,
    cmds: Seq<(u32, String)>,
    events: Seq<StatusEventV>,
) -> Map<u32, WindowState>
    decreases slots.len(),
{
    if slots.len() == 0 {
        Map::empty()
    } else {
        resolve_spec(slots.drop_last(), cmds, events).insert(
            slots.last().index,
            resolve_slot(slots.last()@, cmds, events),
        )
    }
}

/// The foreground process name recorded for a slot, if any.
fn find_cmd<'a>(cmds: &'a Vec<(u32, String)>, idx: u32) -> (r: Option<&'a String>)
    ensures
        match r {
            Some(c) => cmd_for(cmds@, idx) == Some(c@),
            None => cmd_for(cmds@, idx) is None,
        },
{
    let n = cmds.len();
    let mut i: usize = 0;
    proof {
        assert(cmds@.skip(0) =~= cmds@);
    }
    while i < n
        invariant
            n == cmds@.len(),
            i <= n,
            cmd_for(cmds@, idx) == cmd_for(cmds@.skip(i as int), idx),
        decreases n - i,
    {
        proof {
            assert(cmds@.skip(i as int)[0] == cmds@[i as int]);
            assert(cmds@.skip(i as int).drop_first() =~= cmds@.skip(i as int + 1));
        }
        if cmds[i].0 == idx {
            return Some(&cmds[i].1);
        }
        i = i + 1;
    }
    proof {
        assert(cmds@.skip(n as int) =~= Seq::<(u32, String)>::empty());
    }
    None
}

/// The winning event for a working directory, if any event names it.
fn find_best_event<'a>(events: &'a Vec<StatusEvent>, cwd: &str) -> (r: Option<&'a StatusEvent>)
    ensures
        match r {
            Some(e) => best_event(crate::events::event_views(events@), cwd@) == Some(e@),
            None => best_event(crate::events::event_views(events@), cwd@) is None,
        },
{
    let ghost evs = crate::events::event_views(events@);
    let cwd_chars = crate::text::to_chars(cwd);
    let n = events.len();
    let mut best: Option<usize> = None;
    let mut i: usize = 0;
    proof {
        assert(evs.take(0) =~= Seq::<StatusEventV>::empty());
    }
    while i < n
        invariant
            n == events@.len() == evs.len(),
            evs == crate::events::event_views(events@),
            cwd_chars@ == cwd@,
            i <= n,
            forall|k: int| 0 <= k < evs.len() ==> evs[k] == events@[k]@,
            match best {
                Some(b) => b < i && best_event(evs.take(i as int), cwd@) == Some(events@[b as int]@),
                None => best_event(evs.take(i as int), cwd@) is None,
            },
        decreases n - i,
    {
        proof {
            assert(evs.take(i as int + 1).drop_last() =~= evs.take(i as int));
            assert(evs.take(i as int + 1).last() == evs[i as int]);
        }
        let e_chars = crate::text::to_chars(events[i].cwd.as_str());
        if chars_eq(&e_chars, &cwd_chars) {
            match best {
                None => {
                    best = Some(i);
                },
                Some(b) => {
                    if events[i].observed_at >= events[b].observed_at {
                        best = Some(i);
                    }
                },
            }
        }
        i = i + 1;
    }
    proof {
        assert(evs.take(n as int) =~= evs);
    }
    match best {
        Some(b) => Some(&events[b]),
        None => None,
    }
}

/// Resolve every slot of one refresh snapshot: `Done` for a slot whose
/// foreground process is an idle shell, otherwise the state named by the
/// winning event for the slot's working directory, and `Fresh` when no
/// event names it.
pub fn resolve(
    slots: &Vec<WindowInfo>,
    cmds: &Vec<(u32, String)>,
    events: &Vec<StatusEvent>,
) -> (r: HashMap<u32, WindowState>)
    ensures
        r@ == resolve_spec(slots@, cmds@, crate::events::event_views(events@)),
{
    let ghost evs = crate::events::event_views(events@);
    let mut r: HashMap<u32, WindowState> = HashMap::new();
    let mut i: usize = 0;
    proof {
        assert(slots@.take(0) =~= Seq::<WindowInfo>::empty());
    }
    while i < slots.len()
        invariant
            i <= slots@.len(),
            evs == crate::events::event_views(events@),
            r@ == resolve_spec(slots@.take(i as int), cmds@, evs),
        decreases slots@.len() - i,
    {
        proof {
            assert(slots@.take(i as int + 1).drop_last() =~= slots@.take(i as int));
            assert(slots@.take(i as int + 1).last() == slots@[i as int]);
        }
        let slot = &slots[i];
        let done = match find_cmd(cmds, slot.index) {
            None => false,
            Some(c) => crate::state::shell_check(c.as_str()),
        };
        let st = if done {
            WindowState::Done
        } else {
            match find_best_event(events, slot.pane_path.as_str()) {
                None => WindowState::Fresh,
                Some(e) => match e.status {
                    Status::Working => WindowState::Working,
                    Status::Asking => WindowState::Asking,
                    Status::Idle => WindowState::Idle,
                    Status::Other => WindowState::Fresh,
                },
            }
        };
        proof {
            assert(st == resolve_slot(slots@[i as int]@, cmds@, evs));
        }
        r.insert(slot.index, st);
        i = i + 1;
    }
    proof {
        assert(slots@.take(slots@.len() as int) =~= slots@);
    }
    r
}

/// Resolution is idempotent: for one fixed snapshot of slots, process
/// names and events, repeated resolution passes yield identical state
/// maps.
pub proof fn lemma_resolve_idempotent(
    m1: Map<u32, WindowState>,
    m2: Map<u32, WindowState>,
    slots: Seq<WindowInfo>,
    cmds: Seq<(u32, String)>,
    events: Seq<StatusEventV>,
)
    requires
        m1 == resolve_spec(slots, cmds, events),
        m2 == resolve_spec(slots, cmds, events),
    ensures
        m1 == m2,
{
}

/// The state map, pointwise: with unique slot identifiers, every slot is
/// in the map, and its state is exactly what [`resolve_slot`] names for
/// it.
pub proof fn lemma_resolve_at(
    slots: Seq<WindowInfo>,
    cmds: Seq<(u32, String)>,
    events: Seq<StatusEventV>,
    i: int,
)
    requires
        0 <= i < slots.len(),
        forall|a: int, b: int|
            0 <= a < b < slots.len() ==> (#[trigger] slots[a]).index != (#[trigger] slots[b]).index,
    ensures
        resolve_spec(slots, cmds, events).contains_key(slots[i].index),
        resolve_spec(slots, cmds, events)[slots[i].index] == resolve_slot(slots[i]@, cmds, events),
    decreases slots.len(),
{
    if i < slots.len() - 1 {
        assert(forall|a: int, b: int|
            0 <= a < b < slots.drop_last().len() ==> (#[trigger] slots.drop_last()[a]).index != (
            #[trigger] slots.drop_last()[b]).index);
        assert(slots.drop_last()[i] == slots[i]);
        lemma_resolve_at(slots.drop_last(), cmds, events, i);
        assert(slots.last().index != slots[i].index);
    }
}

/// `Done` overrides events: a slot whose recorded foreground process is
/// an idle shell resolves to `Done`, whatever events name its working
/// directory — even one with status `working`.
pub proof fn lemma_done_overrides(
    slots: Seq<WindowInfo>,
    cmds: Seq<(u32, String)>,
    events: Seq<StatusEventV>,
    i: int,
)
    requires
        0 <= i < slots.len(),
        forall|a: int, b: int|
            0 <= a < b < slots.len() ==> (#[trigger] slots[a]).index != (#[trigger] slots[b]).index,
        slot_done(cmds, slots[i].index),
    ensures
        resolve_spec(slots, cmds, events).contains_key(slots[i].index),
        resolve_spec(slots, cmds, events)[slots[i].index] == WindowState::Done,
{
    lemma_resolve_at(slots, cmds, events, i);
}

} // verus!