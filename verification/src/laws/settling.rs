//! Which windows leave the screen and which come back, and what becomes of
//! stored workspaces and trees, said of the pool and the windows themselves.

use vstd::prelude::*;

verus! {

use crate::answers::{Answer, Answers, ContainerTree, Query, TreeChange};
use crate::event::Event;
use crate::geometry::{DisplayId, Rect, WindowId};
use crate::laws::assignment::{tree_owned};
use crate::laws::belonging::{
    blank, fingerprinted, lemma_fingerprinted, lemma_shown, lemma_spelled, owns, shown_at,
    spelled_at,
};
use crate::laws::commands::undisturbed;
use crate::laws::growing::changed_to;
use crate::laws::hotplug::{called, gone, lemma_called};
use crate::laws::steady::displays_distinct;
use crate::laws::workspaces::law_hidden_windows_leave_or_are_refused;
use crate::name::WorkspaceName;
use crate::outcome::{Switching, WorkspaceSwitchPhase};
use crate::parking::StrandedMove;
use crate::reducer::step;
use crate::state::{EngineEffect, Intent, Model};
use crate::table::{lemma_sorted, sorted};
use crate::text::{first_index, lemma_first_index};
use crate::window::{Display, WindowLifecycle};
use crate::workspace::{PersistedWorkspace, Pool, Workspace, WorkspaceOrigin};

/// Whether a window belongs to a workspace that no display shows.
pub open spec fn off_stage(m: Model, id: isize) -> bool {
    m.workspaces.members.contains_key(id) && !exists|k: int|
        #![trigger m.workspaces.list[k]]
        spelled_at(m.workspaces, m.workspaces.members[id].key@, k)
            && m.workspaces.list[k].displayed_on is Some
}

pub proof fn lemma_off_stage(m: Model, id: isize)
    ensures
        m.in_hidden_workspace(id) <==> off_stage(m, id),
{
    if m.workspaces.members.contains_key(id) {
        let name = m.workspaces.members[id];
        let found = m.workspaces.find(name);
        match found {
            Some(i) => {
                lemma_spelled(m.workspaces, name, i);
                assert forall|k: int|
                    #![trigger m.workspaces.list[k]]
                    spelled_at(m.workspaces, name.key@, k) implies k == i by {
                    lemma_spelled(m.workspaces, name, k);
                }
                if m.workspaces.list[i].displayed_on is Some {
                    assert(spelled_at(m.workspaces, name.key@, i));
                }
            },
            None => {
                assert forall|k: int|
                    #![trigger m.workspaces.list[k]]
                    !spelled_at(m.workspaces, name.key@, k) by {
                    lemma_spelled(m.workspaces, name, k);
                }
            },
        }
    }
}

/// A window that must leave: managed, off stage, on screen.
pub open spec fn must_leave(m: Model, id: isize) -> bool {
    &&& m.inventory.contains_key(id)
    &&& off_stage(m, id)
    &&& !m.parked_windows.contains_key(id)
    &&& m.inventory[id].window.lifecycle != WindowLifecycle::Minimized
    &&& m.inventory[id].window.lifecycle != WindowLifecycle::Fullscreen
}

/// Every managed window of a workspace no display shows is asked to leave the
/// screen, or the refusal is published; one that is minimized or full screen is
/// left alone.
pub proof fn law_windows_off_stage_are_asked_to_leave(m: Model, now_unix: i64, id: isize)
    requires
        m.inventory.dom().finite(),
        m.switch is None,
        m.switch_degraded is None,
        must_leave(m, id),
    ensures
        ({
            let after = m.hidden_reconciled(now_unix);
            (exists|k: int|
                0 <= k < after.pending_parking.len() && (
                #[trigger] after.pending_parking[k]).window_id == WindowId(id))
                || after.last_parking_refusal is Some
        }),
{
    lemma_off_stage(m, id);
    if m.is_pending(WindowId(id)) {
        reveal(Model::hidden_reconciled);
        let managed = sorted(m.inventory.dom());
        let parks = managed.filter(m.must_park());
        let next = m.parks_asked(parks, 0, now_unix);
        lemma_only_asked(m, m, parks, 0, now_unix);
        crate::laws::workspaces::lemma_restores_asked_only(
            next,
            managed.filter(m.must_restore()),
            0,
        );
        let p = choose|p: int|
            0 <= p < m.pending_parking.len() && (#[trigger] m.pending_parking[p]).window_id
                == WindowId(id);
        let after = m.hidden_reconciled(now_unix);
        assert(after.pending_parking[p] == m.pending_parking[p]);
    } else {
        law_hidden_windows_leave_or_are_refused(m, now_unix, id);
    }
}

spec fn asked_only(start: Model, m: Model) -> bool {
    &&& m.pending_parking.len() >= start.pending_parking.len()
    &&& forall|k: int|
        0 <= k < start.pending_parking.len() ==> #[trigger] m.pending_parking[k]
            == start.pending_parking[k]
    &&& forall|k: int|
        start.pending_parking.len() <= k < m.pending_parking.len() ==> must_leave(
            start,
            (#[trigger] m.pending_parking[k]).window_id.0,
        ) && m.pending_parking[k].transaction is None
}

proof fn lemma_only_asked(start: Model, m: Model, windows: Seq<isize>, i: int, now_unix: i64)
    requires
        0 <= i,
        asked_only(start, m),
        windows == sorted(start.inventory.dom()).filter(start.must_park()),
    ensures
        asked_only(start, m.parks_asked(windows, i, now_unix)),
        m.parks_asked(windows, i, now_unix).effects == m.effects,
    decreases windows.len() - i,
{
    if i < windows.len() {
        let all = sorted(start.inventory.dom());
        all.lemma_filter_pred(start.must_park(), i);
        lemma_off_stage(start, windows[i]);
        assert(must_leave(start, windows[i]));
        let next = m.park_asked(WindowId(windows[i]), now_unix);
        assert(asked_only(start, next));
        lemma_only_asked(start, next, windows, i + 1, now_unix);
    }
}

/// Nothing else is moved by bringing the parking site into agreement: a window
/// asked to leave is one that must, on its own account; a window asked back is
/// one that is parked, managed and not off stage, under its own entry.
pub proof fn law_only_misplaced_windows_are_asked_to_move(m: Model, now_unix: i64, k: int)
    ensures
        ({
            let after = m.hidden_reconciled(now_unix);
            &&& (m.pending_parking.len() <= k < after.pending_parking.len() ==> must_leave(
                m,
                after.pending_parking[k].window_id.0,
            ) && after.pending_parking[k].transaction is None)
            &&& (m.effects.len() <= k < after.effects.len() ==> (match after.effects[k] {
                EngineEffect::RestoreWindow { window_id, entry_id } => {
                    &&& m.inventory.contains_key(window_id.0)
                    &&& !off_stage(m, window_id.0)
                    &&& m.parked_windows.contains_key(window_id.0)
                    &&& m.parked_windows[window_id.0] == entry_id
                },
                _ => false,
            }))
            &&& (m.switch is Some || m.switch_degraded is Some ==> after == m)
        }),
{
    reveal(Model::hidden_reconciled);
    let managed = sorted(m.inventory.dom());
    let parks = managed.filter(m.must_park());
    lemma_only_asked(m, m, parks, 0, now_unix);
    let next = m.parks_asked(parks, 0, now_unix);
    crate::laws::workspaces::lemma_parks_asked_only(m, parks, 0, now_unix);
    let back = managed.filter(m.must_restore());
    lemma_only_back(m, next, back, 0);
    crate::laws::workspaces::lemma_restores_asked_only(next, back, 0);
}

spec fn back_only(start: Model, m: Model) -> bool {
    &&& m.effects.len() >= start.effects.len()
    &&& m.parked_windows == start.parked_windows
    &&& forall|k: int|
        start.effects.len() <= k < m.effects.len() ==> match #[trigger] m.effects[k] {
            EngineEffect::RestoreWindow { window_id, entry_id } => {
                &&& start.inventory.contains_key(window_id.0)
                &&& !off_stage(start, window_id.0)
                &&& start.parked_windows.contains_key(window_id.0)
                &&& start.parked_windows[window_id.0] == entry_id
            },
            _ => false,
        }
}

proof fn lemma_only_back(start: Model, m: Model, windows: Seq<isize>, i: int)
    requires
        0 <= i,
        back_only(start, m),
        windows == sorted(start.inventory.dom()).filter(start.must_restore()),
    ensures
        back_only(start, m.restores_asked(windows, i)),
    decreases windows.len() - i,
{
    if i < windows.len() {
        sorted(start.inventory.dom()).lemma_filter_pred(start.must_restore(), i);
        lemma_off_stage(start, windows[i]);
        lemma_only_back(start, m.restore_asked(WindowId(windows[i])), windows, i + 1);
    }
}

/// Which way a stranded window still has to go: to the parking site where its
/// workspace is off stage and it is on screen, back on screen where it is
/// parked and its workspace is shown, and nowhere otherwise.
pub proof fn law_which_way_a_stranded_window_goes(m: Model, window_id: WindowId)
    ensures
        m.stranded_move(window_id) == Some(StrandedMove::Park) <==> m.inventory.contains_key(
            window_id.0,
        ) && off_stage(m, window_id.0) && !m.parked_windows.contains_key(window_id.0),
        m.stranded_move(window_id) == Some(StrandedMove::Restore) <==> m.inventory.contains_key(
            window_id.0,
        ) && !off_stage(m, window_id.0) && m.parked_windows.contains_key(window_id.0),
{
    lemma_off_stage(m, window_id.0);
}

/// Switching is in effect exactly where the profile asks for it, its mapping
/// applied, the database is healthy and the parking site is verified; it is
/// disabled exactly where the profile does not ask.
pub proof fn law_when_switching_is_in_effect(m: Model)
    ensures
        ({
            let asked = m.config.switching matches Some(switching) && switching.experimental;
            &&& (m.switching_status() is Experimental <==> asked && m.switching_unavailable is None
                && m.persistence_health is Healthy && m.parking_capability is Verified)
            &&& (m.switching_status() is Disabled <==> !asked)
            &&& (m.switching_status() is Unavailable <==> asked && (m.switching_unavailable is Some
                || m.persistence_health is Healthy && m.parking_capability is Refused))
        }),
{
}

// The switch.

pub proof fn lemma_restores_in_order(m: Model, windows: Seq<WindowId>, i: int, k: int)
    requires
        0 <= i <= windows.len(),
        forall|j: int| 0 <= j < windows.len() ==> m.parked_windows.contains_key(
            (#[trigger] windows[j]).0,
        ),
    ensures
        ({
            let after = m.restores_emitted(windows, i);
            &&& after == (Model { effects: after.effects, ..m })
            &&& after.effects.len() == m.effects.len() + windows.len() - i
            &&& (0 <= k < m.effects.len() ==> after.effects[k] == m.effects[k])
            &&& (i <= k < windows.len() ==> after.effects[m.effects.len() + k - i] == (
            EngineEffect::RestoreWindow {
                window_id: windows[k],
                entry_id: m.parked_windows[windows[k].0],
            }))
        }),
    decreases windows.len() - i,
{
    if i < windows.len() {
        assert(m.parked_windows.contains_key(windows[i].0));
        let next = m.restore_asked(windows[i]);
        lemma_restores_in_order(next, windows, i + 1, k);
        lemma_restores_in_order(next, windows, i + 1, m.effects.len() as int);
        if 0 <= k < m.effects.len() {
            assert(next.effects[k] == m.effects[k]);
        }
    }
}

/// Once everything that leaves has left, every window of the target that is at
/// the parking site is asked back, in order and each under its own entry, and
/// the switch waits for exactly those.
pub proof fn law_the_target_comes_back_after_the_outgoing_left(
    m: Model,
    a: Answers,
    switch: Switching,
    k: int,
)
    requires
        m.switch == Some(switch),
        switch.phase == WorkspaceSwitchPhase::Recording || switch.phase
            == WorkspaceSwitchPhase::Parking,
        switch.recording.len() == 0,
        switch.in_flight.len() == 0,
        exists|j: int|
            0 <= j < switch.queued.len() && m.parked_windows.contains_key(
                (#[trigger] switch.queued[j]).0,
            ),
    ensures
        match m.switch_advanced(a) {
            Ok(after) => match after.switch {
                Some(moved) => {
                    &&& moved.phase == WorkspaceSwitchPhase::Restoring
                    &&& moved.queued.len() == 0
                    &&& moved.target == switch.target
                    &&& moved.display_id == switch.display_id
                    &&& moved.parked == switch.parked
                    &&& after.effects.len() == m.effects.len() + moved.in_flight.len()
                    &&& after.workspaces == m.workspaces
                    &&& (0 <= k < moved.in_flight.len() ==> {
                        let w = moved.in_flight[k];
                        &&& switch.queued.contains(w)
                        &&& m.parked_windows.contains_key(w.0)
                        &&& after.effects[m.effects.len() + k] == (EngineEffect::RestoreWindow {
                            window_id: w,
                            entry_id: m.parked_windows[w.0],
                        })
                    })
                    &&& (0 <= k < switch.queued.len() && m.parked_windows.contains_key(
                        switch.queued[k].0,
                    ) ==> moved.in_flight.contains(switch.queued[k]))
                },
                None => false,
            },
            Err(_) => false,
        },
{
    broadcast use vstd::seq_lib::group_filter_ensures;

    let closed = m.unswitched();
    let pred = closed.at_parking_site();
    let owed = switch.queued.filter(pred);
    let j = choose|j: int|
        0 <= j < switch.queued.len() && m.parked_windows.contains_key(
            (#[trigger] switch.queued[j]).0,
        );
    assert(pred(switch.queued[j]));
    assert(owed.contains(switch.queued[j]));
    assert forall|n: int| 0 <= n < owed.len() implies closed.parked_windows.contains_key(
        (#[trigger] owed[n]).0,
    ) by {
        switch.queued.lemma_filter_pred(pred, n);
    }
    let moved = closed.switching(
        Switching {
            phase: WorkspaceSwitchPhase::Restoring,
            queued: Seq::empty(),
            in_flight: owed,
            restored: switch.restored + switch.queued.filter(closed.off_parking_site()),
            ..switch
        },
    );
    lemma_restores_in_order(moved, owed, 0, k);
    lemma_restores_in_order(moved, owed, 0, 0);
    if 0 <= k < owed.len() {
        switch.queued.lemma_filter_contains_rev(pred, owed[k]);
    }
    if 0 <= k < switch.queued.len() && m.parked_windows.contains_key(switch.queued[k].0) {
        assert(pred(switch.queued[k]));
        assert(owed.contains(switch.queued[k]));
    }
}

/// An answer that a move landed is accounted for: a window that reached the
/// parking site was parked by the switch, one that came back was restored by
/// it, and the switch waits for it no longer.
pub proof fn law_a_landed_move_is_accounted_for(
    m: Model,
    a: Answers,
    switch: Switching,
    window_id: WindowId,
    other: WindowId,
)
    requires
        m.switch == Some(switch),
        switch.in_flight.contains(window_id),
        switch.in_flight.contains(other),
        other != window_id,
        !switch.phase.compensating(),
    ensures
        match m.window_settled(a, window_id, None) {
            Ok(after) => match after.switch {
                Some(moved) => {
                    &&& !moved.in_flight.contains(window_id)
                    &&& moved.in_flight.contains(other)
                    &&& moved.phase == switch.phase
                    &&& after.effects == m.effects
                    &&& if switch.phase == WorkspaceSwitchPhase::Restoring {
                        moved.restored == switch.restored.push(window_id) && moved.parked
                            == switch.parked
                    } else {
                        moved.parked == switch.parked.push(window_id) && moved.restored
                            == switch.restored
                    }
                },
                None => false,
            },
            Err(_) => false,
        },
{
    broadcast use vstd::seq_lib::group_filter_ensures;

    reveal(Model::window_settled);
    let pred = crate::parking::other_than(window_id);
    let left = switch.in_flight.filter(pred);
    let k = choose|k: int| 0 <= k < switch.in_flight.len() && switch.in_flight[k] == other;
    assert(pred(switch.in_flight[k]));
    assert(left.contains(switch.in_flight[k]));
    if left.contains(window_id) {
        let n = choose|n: int| 0 <= n < left.len() && left[n] == window_id;
        switch.in_flight.lemma_filter_pred(pred, n);
    }
}

/// Asking to park a window moves nothing: its recovery data is to be written
/// under a new token, and the window waits under that token. A refusal is
/// published and nothing is asked for.
pub proof fn law_parking_is_asked_before_it_is_done(before: Model, a: Answers, window_id: WindowId)
    ensures
        match step(before, Event::ParkingAuthorizationRequested { window_id }, a) {
            Ok(after) => {
                &&& after.effects == before.effects
                &&& after.parked_windows == before.parked_windows
                &&& match before.parking(window_id, a.now_unix) {
                    Ok(draft) => {
                        let waiting = after.pending_parking.last();
                        &&& after.pending_parking == before.pending_parking.push(waiting)
                        &&& waiting.window_id == window_id
                        &&& waiting.transaction is None
                        &&& (before.next_parking_token < u64::MAX ==> waiting.token
                            == before.next_parking_token + 1)
                        &&& after.next_parking_token == waiting.token
                        &&& after.intents == before.intents.push(
                            Intent::RecordRecovery { token: waiting.token, draft },
                        )
                        &&& after.last_parking_refusal is None
                    },
                    Err(refusal) => {
                        &&& after.pending_parking == before.pending_parking
                        &&& after.intents == before.intents
                        &&& after.last_parking_refusal == Some(refusal)
                    },
                }
            },
            Err(_) => false,
        },
{
    reveal(Model::on_parking_requested);
    let m = undisturbed(before);
    assert(m.parking(window_id, a.now_unix) == before.parking(window_id, a.now_unix)) by {
        if m.inventory.contains_key(window_id.0) {
            assert(m.is_pending(window_id) == before.is_pending(window_id));
        }
    }
}

// Trees that wait, and trees that are reshaped.

/// A display's tree does not depend on what of the display is not its work
/// area: a taskbar makes no difference but through the work area.
pub proof fn law_reflow_goes_by_the_work_area(
    m: Model,
    a: Answers,
    display: Display,
    bounds: Rect,
    active: Seq<WindowId>,
)
    ensures
        m.tree_reflowed(a, display, active) == m.tree_reflowed(
            a,
            Display { full_bounds: bounds, ..display },
            active,
        ),
{
    reveal(Model::tree_reflowed);
    reveal(Model::tree_laid_out);
}

/// How a tree is reshaped: what it holds and the display does not arrange
/// leaves it, what has been dormant too long is dropped, dormant positions go
/// to the windows it lacks, and those that are left are inserted, in order.
pub proof fn law_how_a_tree_is_reshaped(
    m: Model,
    a: Answers,
    tree: ContainerTree,
    active: Seq<WindowId>,
    area: Rect,
)
    ensures
        match m.reshaped(a, tree, active, area) {
            Ok((next, grown)) => match a.look_up(Query::Shape { tree }) {
                Some(Answer::Shape(shape)) => exists|shed: ContainerTree, pruned: ContainerTree|
                    #![trigger changed_to(
                        a,
                        shed,
                        TreeChange::PruneDormant { now_unix: a.now_unix },
                        pruned,
                    )]
                    {
                        &&& changed_to(
                            a,
                            shed,
                            TreeChange::PruneDormant { now_unix: a.now_unix },
                            pruned,
                        )
                        &&& m.shed(
                            a,
                            shape.windows@.filter(|w: WindowId| !active.contains(w)),
                            0,
                            tree,
                        ) == Ok::<(Model, ContainerTree), Query>((next, shed))
                        &&& match a.look_up(Query::Shape { tree: pruned }) {
                            Some(Answer::Shape(left)) => match next.reclaimed(
                                a,
                                left.dormant@,
                                0,
                                pruned,
                                active.filter(|w: WindowId| !left.windows@.contains(w)),
                            ) {
                                Ok((filled, unplaced)) => next.grown(a, unplaced, 0, filled, area)
                                    == Ok::<ContainerTree, Query>(grown),
                                Err(_) => false,
                            },
                            _ => false,
                        }
                    },
                _ => false,
            },
            Err(_) => true,
        },
{
    reveal(Model::reshaped);
    match m.reshaped(a, tree, active, area) {
        Ok((next, grown)) => {
            let present = a.windows_spec(tree)->Ok_0;
            assert(Model::not_in(active) =~= (|w: WindowId| !active.contains(w)));
            let shed = m.shed(a, present.filter(Model::not_in(active)), 0, tree)->Ok_0.1;
            let pruned = a.changed_spec(
                shed,
                TreeChange::PruneDormant { now_unix: a.now_unix },
            )->Ok_0;
            assert(changed_to(a, shed, TreeChange::PruneDormant { now_unix: a.now_unix }, pruned));
            let kept = a.windows_spec(pruned)->Ok_0;
            assert(Model::not_in(kept) =~= (|w: WindowId| !kept.contains(w)));
        },
        Err(_) => {},
    }
}

/// The stored tree a display takes up is that of the workspace it shows, and
/// where that has none waiting, the one stored under the display's own
/// fingerprint.
pub proof fn law_which_stored_tree_is_taken_up(m: Model, display_id: DisplayId, at: int, shown: int, n: int)
    requires
        called(m.displays, display_id, at),
    ensures
        shown_at(m.workspaces, display_id, shown) && m.workspaces.list[shown].pending_tree is Some
            ==> m.waiting_tree(display_id) == m.workspaces.list[shown].pending_tree,
        (blank(m.workspaces, display_id) || shown_at(m.workspaces, display_id, shown)
            && m.workspaces.list[shown].pending_tree is None) && 0 <= n < m.pending_trees.len()
            && m.pending_trees[n].display_fingerprint@ == m.displays[at].stable_fingerprint@ && (
        forall|k: int|
            0 <= k < n ==> (#[trigger] m.pending_trees[k]).display_fingerprint@
                != m.displays[at].stable_fingerprint@) ==> m.waiting_tree(display_id) == Some(
            m.pending_trees[n].tree,
        ),
        (blank(m.workspaces, display_id) || shown_at(m.workspaces, display_id, shown)
            && m.workspaces.list[shown].pending_tree is None) && (forall|k: int|
            0 <= k < m.pending_trees.len() ==> (
            #[trigger] m.pending_trees[k]).display_fingerprint@
                != m.displays[at].stable_fingerprint@) ==> m.waiting_tree(display_id) is None,
{
    reveal(Model::waiting_tree);
    lemma_called(m.displays, display_id, at);
    lemma_shown(m.workspaces, display_id, shown);
    let fingerprint = m.displays[at].stable_fingerprint@;
    let p = m.stored_for(fingerprint);
    lemma_first_index(m.pending_trees.len(), p);
    match first_index(m.pending_trees.len(), p) {
        Some(found) => {
            assert(p(found));
            assert(m.pending_trees[found].display_fingerprint@ == fingerprint);
            if 0 <= n < found {
                assert(!p(n));
            }
        },
        None => {
            if 0 <= n < m.pending_trees.len() {
                assert(!p(n));
            }
        },
    }
}

// Stored workspaces.

/// A stored workspace that comes back brings its tree and the display it was
/// on, which wait until they are taken up; nothing else of the pool changes.
pub proof fn law_a_stored_workspace_waits_to_be_taken_up(
    m: Model,
    stored: PersistedWorkspace,
    i: int,
    k: int,
)
    requires
        spelled_at(m.workspaces, stored.name.key@, i),
        0 <= k < m.workspaces.list.len(),
    ensures
        ({
            let after = m.stored_present(stored).stored_noted(stored).workspaces;
            &&& after.list.len() == m.workspaces.list.len()
            &&& after.members == m.workspaces.members
            &&& (k != i ==> after.list[k] == m.workspaces.list[k])
            &&& (stored.tree is Some ==> after.list[i].pending_tree == stored.tree)
            &&& (stored.displayed_fingerprint is Some ==> after.list[i].pending_display
                == stored.displayed_fingerprint)
            &&& after.list[i].name == m.workspaces.list[i].name
            &&& after.list[i].origin == m.workspaces.list[i].origin
            &&& after.list[i].displayed_on == m.workspaces.list[i].displayed_on
            &&& after.list[i].stashed_tree == m.workspaces.list[i].stashed_tree
        }),
{
    lemma_spelled(m.workspaces, stored.name, i);
}

/// A stored workspace goes back to the display it was on where that display is
/// here and shows nothing, or nothing that owns windows; otherwise it stays
/// hidden.
pub proof fn law_a_workspace_goes_back_to_its_display(
    m: Model,
    i: int,
    fingerprint: String,
    at: int,
    shown: int,
)
    requires
        0 <= i < m.workspaces.list.len(),
        m.workspaces.list[i].pending_display == Some(fingerprint),
        m.workspaces.list[i].displayed_on is None,
        m.workspaces.members.dom().finite(),
    ensures
        ({
            let after = m.display_remembered(i);
            &&& (fingerprinted(m.displays, fingerprint@, at) && blank(
                m.workspaces,
                m.displays[at].id,
            ) ==> after.workspaces.list[i].displayed_on == Some(m.displays[at].id)
                && after.workspaces.list[i].pending_display is None)
            &&& (fingerprinted(m.displays, fingerprint@, at) && shown_at(
                m.workspaces,
                m.displays[at].id,
                shown,
            ) && (forall|w: isize|
                !#[trigger] owns(m.workspaces, m.workspaces.list[shown].name.key@, w))
                ==> after.workspaces.list[i].displayed_on == Some(m.displays[at].id)
                && after.workspaces.list[shown].displayed_on is None)
            &&& (fingerprinted(m.displays, fingerprint@, at) && shown_at(
                m.workspaces,
                m.displays[at].id,
                shown,
            ) && (exists|w: isize| #[trigger]
                owns(m.workspaces, m.workspaces.list[shown].name.key@, w)) ==> after == m)
            &&& ((forall|k: int|
                0 <= k < m.displays.len() ==> (#[trigger] m.displays[k]).stable_fingerprint@
                    != fingerprint@) ==> after == m)
        }),
{
    lemma_fingerprinted(m.displays, fingerprint@, at);
    if fingerprinted(m.displays, fingerprint@, at) {
        let display_id = m.displays[at].id;
        lemma_shown(m.workspaces, display_id, shown);
        if shown_at(m.workspaces, display_id, shown) {
            let name = m.workspaces.list[shown].name;
            let members = m.workspaces.members_of(name);
            if members.len() == 0 {
                assert forall|w: isize| !#[trigger] owns(m.workspaces, name.key@, w) by {
                    crate::laws::belonging::lemma_members_of(m.workspaces, name, w);
                }
            } else {
                crate::laws::belonging::lemma_members_of(m.workspaces, name, members[0]);
                assert(members.contains(members[0]));
                assert(owns(m.workspaces, name.key@, members[0]));
            }
        }
    }
}

// What is declared.

proof fn lemma_declared(m: Model, names: Seq<WorkspaceName>, i: int, key: Seq<char>)
    requires
        0 <= i <= names.len(),
    ensures
        ({
            let after = m.declared_from(names, i).workspaces;
            &&& ((exists|k: int|
                0 <= k < m.workspaces.list.len() && (#[trigger] m.workspaces.list[k]).name.key@
                    == key) || (exists|k: int|
                i <= k < names.len() && (#[trigger] names[k]).key@ == key) ==> exists|k: int|
                0 <= k < after.list.len() && (#[trigger] after.list[k]).name.key@ == key)
            &&& after.members == m.workspaces.members
        }),
    decreases names.len() - i,
{
    if i < names.len() {
        let name = names[i];
        let found = m.workspaces.find(name);
        lemma_spelled(m.workspaces, name, found->0);
        lemma_first_index(m.workspaces.list.len(), m.workspaces.follows(name));
        let workspaces = match found {
            Some(at) => m.workspaces.with(
                at,
                Workspace { origin: WorkspaceOrigin::Configuration, ..m.workspaces.list[at] },
            ),
            None => m.workspaces.created(name, WorkspaceOrigin::Configuration),
        };
        let next = Model { workspaces, ..m };
        lemma_declared(next, names, i + 1, key);
        if exists|k: int|
            0 <= k < m.workspaces.list.len() && (#[trigger] m.workspaces.list[k]).name.key@ == key {
            let k = choose|k: int|
                0 <= k < m.workspaces.list.len() && (#[trigger] m.workspaces.list[k]).name.key@
                    == key;
            match found {
                Some(_) => {
                    assert(next.workspaces.list[k].name.key@ == key);
                },
                None => {
                    let slot = m.workspaces.slot_for(name);
                    if k < slot {
                        assert(next.workspaces.list[k].name.key@ == key);
                    } else {
                        assert(next.workspaces.list[k + 1].name.key@ == key);
                    }
                },
            }
        }
        if name.key@ == key {
            match found {
                Some(at) => {
                    assert(next.workspaces.list[at].name.key@ == key);
                },
                None => {
                    let slot = m.workspaces.slot_for(name);
                    assert(next.workspaces.list[slot].name.key@ == key);
                },
            }
        } else if exists|k: int| i <= k < names.len() && (#[trigger] names[k]).key@ == key {
            let k = choose|k: int| i <= k < names.len() && (#[trigger] names[k]).key@ == key;
            assert(i + 1 <= k);
            assert(names[k].key@ == key);
        }
    }
}

/// Every workspace configuration declares is there afterwards, and whoever
/// configuration does not declare is owned by command: a name it stopped
/// declaring stays and may be deleted.
pub proof fn law_declared_workspaces_are_there(m: Model, c: int, k: int)
    ensures
        ({
            let after = m.pool_synced().workspaces;
            &&& (0 <= c < m.config.workspaces.len() ==> exists|j: int|
                0 <= j < after.list.len() && (#[trigger] after.list[j]).name.key@
                    == m.config.workspaces[c].key@)
            &&& (0 <= k < after.list.len() && (forall|e: int|
                0 <= e < m.config.workspaces.len() ==> (#[trigger] m.config.workspaces[e]).key@
                    != after.list[k].name.key@) ==> after.list[k].origin
                == WorkspaceOrigin::Command)
            &&& after.members == m.workspaces.members
        }),
{
    reveal(Model::pool_synced);
    let names = m.config.workspaces;
    let declared = m.declared_from(names, 0);
    let after = m.pool_synced().workspaces;
    if 0 <= c < names.len() {
        let key = names[c].key@;
        assert(names[c].key@ == key);
        lemma_declared(m, names, 0, key);
        let j = choose|j: int|
            0 <= j < declared.workspaces.list.len() && (
            #[trigger] declared.workspaces.list[j]).name.key@ == key;
        assert(after.list[j].name.key@ == key);
    }
    lemma_declared(m, names, 0, Seq::empty());
    if 0 <= k < after.list.len() && (forall|e: int|
        0 <= e < names.len() ==> (#[trigger] names[e]).key@ != after.list[k].name.key@) {
        let name = declared.workspaces.list[k].name;
        assert(after.list[k].name == name);
        assert(!crate::assign::spelled_in(names, name)) by {
            if crate::assign::spelled_in(names, name) {
                let e = choose|e: int|
                    0 <= e < names.len() && crate::name::collides(#[trigger] names[e], name);
                assert(names[e].key@ != after.list[k].name.key@);
            }
        }
    }
}

// Windows that close.

proof fn lemma_closed(m: Model, ids: Seq<isize>, i: int, k: int)
    requires
        0 <= i <= ids.len(),
        crate::table::ascending(ids),
    ensures
        ({
            let after = m.parked_closed(ids, i);
            &&& after.intents.len() == m.intents.len() + ids.len() - i
            &&& (0 <= k < m.intents.len() ==> after.intents[k] == m.intents[k])
            &&& (i <= k < ids.len() ==> after.intents[m.intents.len() + k - i]
                == Intent::MarkRestored(m.parked_windows[ids[k]])
                && !after.parked_windows.contains_key(ids[k]))
        }),
    decreases ids.len() - i,
{
    if i < ids.len() {
        let next = Model { parked_windows: m.parked_windows.remove(ids[i]), ..m }.intent(
            Intent::MarkRestored(m.parked_windows[ids[i]]),
        );
        lemma_closed(next, ids, i + 1, k);
        lemma_closed(next, ids, i + 1, m.intents.len() as int);
        if 0 <= k < m.intents.len() {
            assert(next.intents[k] == m.intents[k]);
        }
        if i < k < ids.len() {
            assert(ids[i] < ids[k]);
        }
        if k == i {
            lemma_closed_keeps(next, ids, i + 1, ids[i]);
        }
    }
}

proof fn lemma_closed_keeps(m: Model, ids: Seq<isize>, i: int, id: isize)
    requires
        !m.parked_windows.contains_key(id),
    ensures
        !m.parked_closed(ids, i).parked_windows.contains_key(id),
    decreases ids.len() - i,
{
    if i < ids.len() {
        let next = Model { parked_windows: m.parked_windows.remove(ids[i]), ..m }.intent(
            Intent::MarkRestored(m.parked_windows[ids[i]]),
        );
        lemma_closed_keeps(next, ids, i + 1, id);
    }
}

/// A parked window that closed is parked no longer, and its own recovery entry
/// is closed with it.
pub proof fn law_a_closed_window_closes_its_entry(m: Model, managed: Set<isize>, id: isize)
    requires
        m.parked_windows.dom().finite(),
        m.parked_windows.contains_key(id),
        !managed.contains(id),
    ensures
        ({
            let after = m.memory_kept(managed);
            &&& !after.parked_windows.contains_key(id)
            &&& exists|k: int|
                m.intents.len() <= k < after.intents.len() && #[trigger] after.intents[k]
                    == Intent::MarkRestored(m.parked_windows[id])
        }),
{
    broadcast use vstd::seq_lib::group_filter_ensures;

    let kept = Model {
        workspaces: m.workspaces.keeping_members(managed),
        rule_workspace_refusals: m.rule_workspace_refusals.filter(Model::refuses_within(managed)),
        ..m
    };
    let all = sorted(kept.parked_windows.dom());
    lemma_sorted(kept.parked_windows.dom());
    let pred = Model::outside(managed);
    let ids = all.filter(pred);
    crate::laws::belonging::lemma_filter_ascending(all, pred);
    assert(all.to_set().contains(id));
    let j = choose|j: int| 0 <= j < all.len() && all[j] == id;
    assert(pred(all[j]));
    assert(ids.contains(all[j]));
    let k = choose|k: int| 0 <= k < ids.len() && ids[k] == id;
    lemma_closed(kept, ids, 0, k);
    let after = m.memory_kept(managed);
    assert(after.intents[m.intents.len() + k] == Intent::MarkRestored(m.parked_windows[id]));
}

/// Nothing is remembered of a window that left: it belongs to no workspace, no
/// workspace remembers it as its last focused one, and no refusal names it;
/// of the others everything is.
pub proof fn law_what_is_forgotten_with_a_window(pool: Pool, keep: Set<isize>, id: isize, k: int)
    ensures
        ({
            let after = pool.keeping_members(keep);
            &&& (after.members.contains_key(id) <==> pool.members.contains_key(id)
                && keep.contains(id))
            &&& (after.members.contains_key(id) ==> after.members[id] == pool.members[id])
            &&& after.list.len() == pool.list.len()
            &&& (0 <= k < pool.list.len() ==> after.list[k] == (Workspace {
                last_focused: match pool.list[k].last_focused {
                    Some(w) => if keep.contains(w.0) {
                        Some(w)
                    } else {
                        None
                    },
                    None => None,
                },
                ..pool.list[k]
            }))
        }),
{
}

// Trees of workspaces that are hidden.

/// A display that shows another workspace gives the one it showed its tree to
/// keep, and takes up the tree of the one it shows: every workspace has the
/// tree it had.
pub proof fn law_a_display_changes_workspaces_with_their_trees(
    m: Model,
    i: int,
    display_id: DisplayId,
    j: int,
)
    requires
        0 <= i < m.workspaces.list.len(),
        0 <= j < m.workspaces.list.len(),
        m.workspaces.list[i].displayed_on is None,
        displays_distinct(m.workspaces),
    ensures
        ({
            let after = m.tree_stashed(display_id).workspace_shown(i, display_id);
            &&& tree_owned(after, j) == tree_owned(m, j)
            &&& after.workspaces.list[i].displayed_on == Some(display_id)
            &&& (j != i && m.workspaces.list[j].displayed_on == Some(display_id)
                ==> after.workspaces.list[j].displayed_on is None)
        }),
{
    let at = m.workspaces.displayed_at(display_id);
    lemma_shown(m.workspaces, display_id, at->0);
    match at {
        Some(shown) => {
            lemma_shown(m.workspaces, display_id, shown);
            if j != shown && m.workspaces.list[j].displayed_on == Some(display_id) {
                if j < shown {
                    assert(m.workspaces.list[j].displayed_on
                        != m.workspaces.list[shown].displayed_on);
                } else {
                    assert(m.workspaces.list[shown].displayed_on
                        != m.workspaces.list[j].displayed_on);
                }
            }
        },
        None => {
            lemma_shown(m.workspaces, display_id, j);
            assert(m.workspaces.list[j].displayed_on != Some(display_id));
        },
    }
}

proof fn lemma_stashed_follow(m: Model, displays: Seq<Display>, i: int, j: int)
    requires
        0 <= i <= displays.len(),
        0 <= j < m.workspaces.list.len(),
        displays_distinct(m.workspaces),
        forall|x: int, y: int|
            i <= x < y < displays.len() ==> (#[trigger] displays[x]).id != (
            #[trigger] displays[y]).id,
    ensures
        ({
            let after = m.trees_stashed(displays, i);
            &&& after.workspaces.list.len() == m.workspaces.list.len()
            &&& after.workspaces.list[j].displayed_on == m.workspaces.list[j].displayed_on
            &&& match m.workspaces.list[j].displayed_on {
                Some(d) => if exists|k: int|
                    i <= k < displays.len() && (#[trigger] displays[k]).id == d {
                    after.workspaces.list[j].stashed_tree == tree_owned(m, j)
                } else {
                    after.trees.contains_key(d.0) == m.trees.contains_key(d.0) && after.trees[d.0]
                        == m.trees[d.0]
                },
                None => after.workspaces.list[j].stashed_tree
                    == m.workspaces.list[j].stashed_tree,
            }
        }),
    decreases displays.len() - i,
{
    if i < displays.len() {
        let display_id = displays[i].id;
        let next = m.tree_stashed(display_id);
        let at = m.workspaces.displayed_at(display_id);
        lemma_shown(m.workspaces, display_id, at->0);
        assert forall|x: int, y: int|
            #![trigger next.workspaces.list[x], next.workspaces.list[y]]
            0 <= x < y < next.workspaces.list.len() && next.workspaces.list[x].displayed_on is Some
            implies next.workspaces.list[x].displayed_on
            != next.workspaces.list[y].displayed_on by {
            assert(m.workspaces.list[x].displayed_on == next.workspaces.list[x].displayed_on);
            assert(m.workspaces.list[y].displayed_on == next.workspaces.list[y].displayed_on);
        }
        lemma_stashed_follow(next, displays, i + 1, j);
        match m.workspaces.list[j].displayed_on {
            Some(d) => {
                if d == display_id {
                    assert(displays[i].id == d);
                    match at {
                        Some(shown) => {
                            if j < shown {
                                assert(m.workspaces.list[j].displayed_on
                                    != m.workspaces.list[shown].displayed_on);
                            } else if shown < j {
                                assert(m.workspaces.list[shown].displayed_on
                                    != m.workspaces.list[j].displayed_on);
                            }
                        },
                        None => {
                            assert(m.workspaces.list[j].displayed_on != Some(display_id));
                        },
                    }
                    assert forall|k: int| i + 1 <= k < displays.len() implies (
                    #[trigger] displays[k]).id != d by {
                        assert(displays[i].id != displays[k].id);
                    }
                    lemma_stash_stays(next, displays, i + 1, j, d);
                } else if exists|k: int|
                    i <= k < displays.len() && (#[trigger] displays[k]).id == d {
                    let k = choose|k: int|
                        i <= k < displays.len() && (#[trigger] displays[k]).id == d;
                    assert(i + 1 <= k);
                    assert(displays[k].id == d);
                }
            },
            None => {
                if at is Some {
                    assert(at != Some(j));
                }
            },
        }
    }
}

proof fn lemma_stash_stays(m: Model, displays: Seq<Display>, i: int, j: int, d: DisplayId)
    requires
        0 <= i <= displays.len(),
        0 <= j < m.workspaces.list.len(),
        m.workspaces.list[j].displayed_on == Some(d),
        forall|k: int| i <= k < displays.len() ==> (#[trigger] displays[k]).id != d,
    ensures
        m.trees_stashed(displays, i).workspaces.list[j] == m.workspaces.list[j],
    decreases displays.len() - i,
{
    if i < displays.len() {
        let display_id = displays[i].id;
        let at = m.workspaces.displayed_at(display_id);
        lemma_shown(m.workspaces, display_id, at->0);
        assert(displays[i].id != d);
        lemma_stash_stays(m.tree_stashed(display_id), displays, i + 1, j, d);
    }
}

/// A workspace whose display goes away is hidden with its tree intact, and
/// every other keeps its display and its tree.
pub proof fn law_a_lost_display_leaves_its_workspace_its_tree(
    m: Model,
    survivors: Seq<Display>,
    j: int,
    d: DisplayId,
)
    requires
        0 <= j < m.workspaces.list.len(),
        m.workspaces.list[j].displayed_on == Some(d),
        displays_distinct(m.workspaces),
        crate::laws::reflow::handles_distinct(m.displays),
        !gone(m.displays, d),
    ensures
        ({
            let after = m.vanished_hidden(survivors);
            &&& (gone(survivors, d) ==> after.workspaces.list[j].displayed_on is None
                && after.workspaces.list[j].stashed_tree == tree_owned(m, j))
            &&& (!gone(survivors, d) ==> after.workspaces.list[j].displayed_on == Some(d)
                && tree_owned(after, j) == tree_owned(m, j))
        }),
{
    broadcast use vstd::seq_lib::group_filter_ensures;

    reveal(Model::vanished_hidden);
    let pred = Model::vanished(survivors);
    let lost = m.displays.filter(pred);
    lemma_called(survivors, d, 0);
    lemma_called(m.displays, d, 0);
    lemma_lost_distinct(m.displays, pred);
    lemma_stashed_follow(m, lost, 0, j);
    let at = crate::topology::display_at(m.displays, d)->0;
    lemma_called(m.displays, d, at);
    if gone(survivors, d) {
        assert(pred(m.displays[at]));
        assert(lost.contains(m.displays[at]));
        let k = choose|k: int| 0 <= k < lost.len() && lost[k] == m.displays[at];
        assert(lost[k].id == d);
    } else {
        assert forall|k: int| 0 <= k < lost.len() implies (#[trigger] lost[k]).id != d by {
            m.displays.lemma_filter_pred(pred, k);
        }
    }
}

proof fn lemma_lost_distinct(displays: Seq<Display>, pred: spec_fn(Display) -> bool)
    requires
        crate::laws::reflow::handles_distinct(displays),
    ensures
        crate::laws::reflow::handles_distinct(displays.filter(pred)),
    decreases displays.len(),
{
    reveal(Seq::filter);
    if displays.len() > 0 {
        let rest = displays.drop_last();
        assert(crate::laws::reflow::handles_distinct(rest)) by {
            assert forall|i: int, j: int| 0 <= i < j < rest.len() implies (#[trigger] rest[i]).id
                != (#[trigger] rest[j]).id by {
                assert(displays[i].id != displays[j].id);
            }
        }
        lemma_lost_distinct(rest, pred);
        let left = rest.filter(pred);
        if pred(displays.last()) {
            let longer = left.push(displays.last());
            assert forall|i: int, j: int| 0 <= i < j < longer.len() implies (
            #[trigger] longer[i]).id != (#[trigger] longer[j]).id by {
                assert(longer[i] == left[i]);
                if j == left.len() {
                    rest.lemma_filter_contains_rev(pred, left[i]);
                    let k = choose|k: int| 0 <= k < rest.len() && rest[k] == left[i];
                    assert(displays[k].id != displays[displays.len() - 1].id);
                } else {
                    assert(longer[j] == left[j]);
                }
            }
        }
    }
}

} // verus!
