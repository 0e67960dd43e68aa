//! User-input actions and the per-tick decision step of the live-view
//! loop.
//!
//! The loop drains every queued input event once per tick and hands the
//! batch here.  A burst of navigation keys coalesces into at most one net
//! selection change per tick, and at most one "make this slot active"
//! command goes back to the host — instead of replaying the whole burst
//! and lagging behind it.  A quit action wins over everything else.

use vstd::prelude::*;

use crate::view::SidebarWidget;

verus! {

/// One decoded input action.
#[derive(Clone, Copy, Debug, PartialEq, Eq, Structural)]
pub enum Action {
    /// Move the selection up.
    Up,
    /// Move the selection down.
    Down,
    /// Focus the selected slot's main pane.
    Select,
    /// Leave the loop.
    Quit,
    /// No input this tick; only the animation advances.
    Tick,
}

/// How often one action occurs in a batch.
pub open spec fn count_action(actions: Seq<Action>, a: Action) -> int
    decreases actions.len(),
{
    if actions.len() == 0 {
        0int
    } else {
        count_action(actions.drop_last(), a) + if actions.last() == a {
            1int
        } else {
            0int
        }
    }
}

/// Whether one action occurs in a batch.
pub open spec fn has_action(actions: Seq<Action>, a: Action) -> bool {
    exists|i: int| 0 <= i < actions.len() && actions[i] == a
}

/// Where the selection lands after a batch: one net step in the
/// direction that outnumbers the other, held inside the slot list.
pub open spec fn nav_target(sel: int, count: int, downs: int, ups: int) -> int {
    if downs > ups && sel + 1 < count {
        sel + 1
    } else if ups > downs && sel > 0 {
        sel - 1
    } else {
        sel
    }
}

/// The animation tick after a batch: reset while the host catches up
/// with a selection change or a focus command, advancing otherwise.
pub open spec fn next_tick(tick: u64, moved: bool, focused: bool) -> u64 {
    if focused {
        0u64
    } else if moved {
        1u64
    } else if tick == u64::MAX {
        0u64
    } else {
        (tick + 1) as u64
    }
}

/// What one tick's input handling asks the loop to do.
pub struct TickOutcome {
    /// Leave the loop.
    pub quit: bool,
    /// Tell the host to make this slot active.
    pub set_active: Option<u32>,
    /// Focus this slot's main pane.
    pub focus: Option<u32>,
}

/// Apply one tick's drained input batch to the view model.
///
/// Quit wins over everything and changes nothing.  Otherwise the
/// navigation keys coalesce into at most one net selection change; the
/// host is asked to follow exactly when the selection actually moved,
/// and the animation tick resets so the next scheduled refresh is
/// suppressed while the host catches up.
pub fn tick_step(model: &mut SidebarWidget, actions: &Vec<Action>) -> (out: TickOutcome)
    requires
        old(model).wf(),
    ensures
        final(model).wf(),
        final(model).windows == old(model).windows,
        final(model).states == old(model).states,
        out.quit == has_action(actions@, Action::Quit),
        out.quit ==> *final(model) == *old(model) && out.set_active is None && out.focus is None,
        !out.quit ==> {
            let sel2 = nav_target(
                old(model).selected as int,
                old(model).windows@.len() as int,
                count_action(actions@, Action::Down),
                count_action(actions@, Action::Up),
            );
            &&& final(model).selected == sel2
            &&& out.set_active == (if sel2 != old(model).selected as int {
                Some(old(model).windows@[sel2].index)
            } else {
                None
            })
            &&& out.focus == (if has_action(actions@, Action::Select)
                && old(model).windows@.len() > 0 {
                Some(old(model).windows@[sel2].index)
            } else {
                None
            })
            &&& final(model).tick == next_tick(
                old(model).tick,
                sel2 != old(model).selected as int,
                out.focus is Some,
            )
        },
{
    let n = actions.len();
    let mut downs: usize = 0;
    let mut ups: usize = 0;
    let mut quit = false;
    let mut select = false;
    let mut i: usize = 0;
    proof {
        assert(actions@.take(0) =~= Seq::<Action>::empty());
    }
    while i < n
        invariant
            n == actions@.len(),
            i <= n,
            downs == count_action(actions@.take(i as int), Action::Down),
            ups == count_action(actions@.take(i as int), Action::Up),
            quit == has_action(actions@.take(i as int), Action::Quit),
            select == has_action(actions@.take(i as int), Action::Select),
            downs <= i,
            ups <= i,
        decreases n - i,
    {
        let ghost before = actions@.take(i as int);
        proof {
            assert(actions@.take(i as int + 1).drop_last() =~= before);
            assert(actions@.take(i as int + 1).last() == actions@[i as int]);
        }
        match actions[i] {
            Action::Down => {
                downs = downs + 1;
            },
            Action::Up => {
                ups = ups + 1;
            },
            Action::Quit => {
                quit = true;
            },
            Action::Select => {
                select = true;
            },
            Action::Tick => {},
        }
        proof {
            let now = actions@.take(i as int + 1);
            assert forall|a: Action| has_action(before, a) implies has_action(now, a) by {
                let k = choose|k: int| 0 <= k < before.len() && before[k] == a;
                assert(now[k] == a);
            }
            if has_action(now, Action::Quit) && !has_action(before, Action::Quit) {
                let k = choose|k: int| 0 <= k < now.len() && now[k] == Action::Quit;
                if k < before.len() {
                    assert(before[k] == Action::Quit);
                }
                assert(actions@[i as int] == Action::Quit);
            }
            if has_action(now, Action::Select) && !has_action(before, Action::Select) {
                let k = choose|k: int| 0 <= k < now.len() && now[k] == Action::Select;
                if k < before.len() {
                    assert(before[k] == Action::Select);
                }
                assert(actions@[i as int] == Action::Select);
            }
        }
        i = i + 1;
    }
    proof {
        assert(actions@.take(n as int) =~= actions@);
    }
    if quit {
        return TickOutcome { quit: true, set_active: None, focus: None };
    }
    let count = model.windows.len();
    let old_sel = model.selected;
    let sel2: usize = if downs > ups && old_sel + 1 < count {
        old_sel + 1
    } else if ups > downs && old_sel > 0 {
        old_sel - 1
    } else {
        old_sel
    };
    model.selected = sel2;
    let moved = sel2 != old_sel;
    let set_active: Option<u32> = if moved {
        Some(model.windows[sel2].index)
    } else {
        None
    };
    let focus: Option<u32> = if select && count > 0 {
        Some(model.windows[sel2].index)
    } else {
        None
    };
    let focused = match focus {
        Some(_) => true,
        None => false,
    };
    model.tick = if focused {
        0
    } else if moved {
        1
    } else if model.tick == u64::MAX {
        0
    } else {
        model.tick + 1
    };
    TickOutcome { quit: false, set_active, focus }
}

/// After a user-initiated selection change the tick resets to a
/// non-refresh tick: the next scheduled directory refresh is suppressed
/// while the host catches up, so the loop does not observe stale data
/// and revert the selection.  (A focus command instead resets to a
/// refresh tick, so the list is re-read at once.)
pub proof fn lemma_refresh_suppressed(tick: u64)
    ensures
        next_tick(tick, true, false) % crate::view::REFRESH_EVERY != 0,
        next_tick(tick, true, true) % crate::view::REFRESH_EVERY == 0,
{
}

proof fn lemma_count_all(actions: Seq<Action>, a: Action, b: Action)
    requires
        forall|i: int| 0 <= i < actions.len() ==> actions[i] == a,
        a != b,
    ensures
        count_action(actions, a) == actions.len(),
        count_action(actions, b) == 0,
    decreases actions.len(),
{
    if actions.len() > 0 {
        assert(forall|i: int|
            0 <= i < actions.drop_last().len() ==> actions.drop_last()[i] == actions[i]);
        lemma_count_all(actions.drop_last(), a, b);
    }
}

/// Input coalescing: a queued burst of "down" actions — however long —
/// moves the selection exactly one row down when there is room, so one
/// tick issues exactly one host command for it.
pub proof fn lemma_input_coalescing(actions: Seq<Action>, sel: int, count: int)
    requires
        actions.len() > 0,
        forall|i: int| 0 <= i < actions.len() ==> actions[i] == Action::Down,
        0 <= sel,
        sel + 1 < count,
    ensures
        nav_target(
            sel,
            count,
            count_action(actions, Action::Down),
            count_action(actions, Action::Up),
        ) == sel + 1,
        !has_action(actions, Action::Quit),
{
    lemma_count_all(actions, Action::Down, Action::Up);
    if has_action(actions, Action::Quit) {
        let k = choose|k: int| 0 <= k < actions.len() && actions[k] == Action::Quit;
    }
}

} // verus!
