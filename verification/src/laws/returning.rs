//! What a switch waits for before it moves anything, and what is put back when
//! it fails.

use vstd::prelude::*;

verus! {

use crate::answers::Answers;
use crate::geometry::{RecoveryEntryId, WindowId};
use crate::laws::hotplug::{gone, lemma_called};
use crate::laws::settling::{lemma_off_stage, lemma_restores_in_order, off_stage};
use crate::outcome::{
    Conclusion, Degraded, ParkingRefusal, SwitchFailure, Switching, WorkspaceSwitchPhase,
};
use crate::state::{EngineEffect, Model, PendingParking};
use crate::text::{first_index, lemma_first_index};
use crate::window::{ManageAction, Window, WindowLifecycle};

/// A switch that failed asks back every window it parked that is still at the
/// parking site, in order and each under its own entry, and waits for exactly
/// those.
pub proof fn law_a_failed_switch_asks_back_what_it_parked(m: Model, switch: Switching, k: int)
    requires
        switch.phase == WorkspaceSwitchPhase::CompensatingPark,
        exists|j: int|
            0 <= j < switch.parked.len() && m.parked_windows.contains_key(
                (#[trigger] switch.parked[j]).0,
            ),
    ensures
        ({
            let after = m.compensation_advanced(switch);
            match after.switch {
                Some(moved) => {
                    &&& moved.phase == WorkspaceSwitchPhase::CompensatingRestore
                    &&& moved.failure == switch.failure
                    &&& moved.stranded == switch.stranded
                    &&& after.workspaces == m.workspaces
                    &&& after.effects.len() == m.effects.len() + moved.in_flight.len()
                    &&& (0 <= k < moved.in_flight.len() ==> {
                        let w = moved.in_flight[k];
                        &&& switch.parked.contains(w)
                        &&& m.parked_windows.contains_key(w.0)
                        &&& after.effects[m.effects.len() + k] == (EngineEffect::RestoreWindow {
                            window_id: w,
                            entry_id: m.parked_windows[w.0],
                        })
                    })
                    &&& (0 <= k < switch.parked.len() && m.parked_windows.contains_key(
                        switch.parked[k].0,
                    ) ==> moved.in_flight.contains(switch.parked[k]))
                },
                None => false,
            }
        }),
{
    broadcast use vstd::seq_lib::group_filter_ensures;

    let pred = m.at_parking_site();
    let owed = switch.parked.filter(pred);
    let j = choose|j: int|
        0 <= j < switch.parked.len() && m.parked_windows.contains_key(
            (#[trigger] switch.parked[j]).0,
        );
    assert(pred(switch.parked[j]));
    assert(owed.contains(switch.parked[j]));
    assert forall|n: int| 0 <= n < owed.len() implies m.parked_windows.contains_key(
        (#[trigger] owed[n]).0,
    ) by {
        switch.parked.lemma_filter_pred(pred, n);
    }
    let moved = m.switching(
        Switching {
            phase: WorkspaceSwitchPhase::CompensatingRestore,
            in_flight: owed,
            parked: owed,
            ..switch
        },
    );
    lemma_restores_in_order(moved, owed, 0, k);
    lemma_restores_in_order(moved, owed, 0, 0);
    if 0 <= k < owed.len() {
        switch.parked.lemma_filter_contains_rev(pred, owed[k]);
    }
    if 0 <= k < switch.parked.len() && m.parked_windows.contains_key(switch.parked[k].0) {
        assert(pred(switch.parked[k]));
        assert(owed.contains(switch.parked[k]));
    }
}

/// A switch that failed with nothing left at the parking site is concluded as
/// failed: it names its target and its reason, and what it could not put back
/// is stranded.
pub proof fn law_a_failed_switch_says_what_it_left(
    m: Model,
    switch: Switching,
    failure: SwitchFailure,
)
    requires
        switch.failure == Some(failure),
        forall|j: int|
            0 <= j < switch.parked.len() ==> !m.parked_windows.contains_key(
                (#[trigger] switch.parked[j]).0,
            ),
    ensures
        ({
            let after = m.compensation_advanced(switch);
            &&& after.switch is None
            &&& after.workspaces == m.workspaces
            &&& after.effects == m.effects
            &&& (after.last_switch_result matches Some(
                Conclusion::SwitchFailed { name, display_id, reason, compensated, stranded },
            ) && name == switch.target && display_id == switch.display_id && reason == failure
                && stranded == switch.stranded && compensated == (switch.stranded.len() == 0))
            &&& (switch.stranded.len() == 0 ==> after.switch_degraded == m.switch_degraded)
            &&& (switch.stranded.len() > 0 ==> (after.switch_degraded matches Some(left)
                && left.stranded == switch.stranded && left.target == switch.target
                && left.display_id == switch.display_id && left.outgoing == switch.outgoing
                && left.reason == failure))
        }),
{
    let pred = m.at_parking_site();
    let owed = switch.parked.filter(pred);
    if owed.len() > 0 {
        switch.parked.lemma_filter_pred(pred, 0);
        switch.parked.lemma_filter_contains_rev(pred, owed[0]);
        let j = choose|j: int| 0 <= j < switch.parked.len() && switch.parked[j] == owed[0];
        assert(!m.parked_windows.contains_key(switch.parked[j].0));
    }
}

proof fn lemma_reparks_keep_phase(
    m: Model,
    switch: Switching,
    windows: Seq<WindowId>,
    i: int,
    now_unix: i64,
)
    ensures
        ({
            let moved = m.reparks_asked(switch, windows, i, now_unix).1;
            &&& moved.phase == switch.phase
            &&& moved.failure == switch.failure
            &&& moved.target == switch.target
            &&& moved.display_id == switch.display_id
        }),
    decreases windows.len() - i,
{
    if i < windows.len() {
        let (next, moved) = m.repark_asked(switch, windows[i], now_unix);
        lemma_reparks_keep_phase(next, moved, windows, i + 1, now_unix);
    }
}

/// Whether a window waits under a token the switch has recorded.
pub open spec fn waits_in(pending: Seq<PendingParking>, switch: Switching, w: WindowId) -> bool {
    exists|p: int|
        0 <= p < pending.len() && (#[trigger] pending[p]).window_id == w && pending[p].transaction
            == Some(switch.id) && switch.recording.contains(pending[p].token)
}

proof fn lemma_still_waits(
    before: Seq<PendingParking>,
    earlier: Switching,
    after: Seq<PendingParking>,
    later: Switching,
    w: WindowId,
    added: PendingParking,
    token: u64,
)
    requires
        waits_in(before, earlier, w),
        after == before.push(added),
        later.id == earlier.id,
        later.recording == earlier.recording.push(token),
    ensures
        waits_in(after, later, w),
{
    let p = choose|p: int|
        0 <= p < before.len() && (#[trigger] before[p]).window_id == w && before[p].transaction
            == Some(earlier.id) && earlier.recording.contains(before[p].token);
    let t = choose|t: int|
        0 <= t < earlier.recording.len() && earlier.recording[t] == before[p].token;
    assert(later.recording[t] == before[p].token);
    assert(after[p] == before[p]);
}

proof fn lemma_keeps_waiting(m: Model, windows: Seq<WindowId>, i: int, now_unix: i64, w: WindowId)
    requires
        m.switch matches Some(switch) && !switch.phase.compensating() && waits_in(
            m.pending_parking,
            switch,
            w,
        ),
    ensures
        m.switch_parks_asked(windows, i, now_unix).switch matches Some(s)
            && !s.phase.compensating() ==> waits_in(
            m.switch_parks_asked(windows, i, now_unix).pending_parking,
            m.switch_parks_asked(windows, i, now_unix).switch->0,
            w,
        ),
    decreases windows.len() - i,
{
    let switch = m.switch->0;
    if i < windows.len() {
        if !m.inventory.contains_key(windows[i].0) {
            lemma_keeps_waiting(m, windows, i + 1, now_unix, w);
        } else {
            match m.parking(windows[i], now_unix) {
                Err(ParkingRefusal::UnknownDisplay { .. }) => {
                    lemma_keeps_waiting(m, windows, i + 1, now_unix, w);
                },
                Err(refusal) => {
                    lemma_compensates(m, SwitchFailure::NotParkable(refusal), now_unix);
                },
                Ok(draft) => {
                    let token = crate::state::bumped(m.next_parking_token);
                    let asked = m.entry_requested(windows[i], draft, Some(switch.id));
                    let more = Switching { recording: switch.recording.push(token), ..switch };
                    lemma_still_waits(
                        m.pending_parking,
                        switch,
                        asked.pending_parking,
                        more,
                        w,
                        asked.pending_parking.last(),
                        token,
                    );
                    lemma_keeps_waiting(asked.switching(more), windows, i + 1, now_unix, w);
                },
            }
        }
    }
}

proof fn lemma_compensates(m: Model, reason: SwitchFailure, now_unix: i64)
    requires
        m.switch matches Some(switch) && !switch.phase.compensating(),
    ensures
        m.compensation_begun(reason, now_unix).switch matches Some(s) ==> s.phase.compensating(),
{
    let switch = m.switch->0;
    let open = m.unswitched();
    let dropped = Model {
        pending_parking: open.pending_parking.filter(Model::on_its_own()),
        ..open
    };
    let abandoned = Switching {
        failure: Some(reason),
        phase: WorkspaceSwitchPhase::CompensatingPark,
        queued: Seq::empty(),
        recording: Seq::empty(),
        in_flight: switch.in_flight + switch.restored,
        ..switch
    };
    lemma_reparks_keep_phase(dropped, abandoned, switch.restored, 0, now_unix);
    let (asked, moved) = dropped.reparks_asked(abandoned, switch.restored, 0, now_unix);
    if moved.settled() {
        let owed = moved.parked.filter(asked.at_parking_site());
        if owed.len() > 0 {
            lemma_emitting_keeps_the_switch(
                asked.switching(
                    Switching {
                        phase: WorkspaceSwitchPhase::CompensatingRestore,
                        in_flight: owed,
                        parked: owed,
                        ..moved
                    },
                ),
                owed,
                0,
            );
        }
    }
}

proof fn lemma_emitting_keeps_the_switch(m: Model, windows: Seq<WindowId>, i: int)
    ensures
        m.restores_emitted(windows, i).switch == m.switch,
        m.restores_emitted(windows, i).workspaces == m.workspaces,
    decreases windows.len() - i,
{
    if i < windows.len() {
        lemma_emitting_keeps_the_switch(m.restore_asked(windows[i]), windows, i + 1);
    }
}

/// A switch moves nothing before every window it hides has its recovery data
/// under way: unless it failed already, each such window waits for the switch
/// under a token of its own, but for those no longer managed and those whose
/// display is gone; and what the switch is for is as it was.
pub proof fn law_a_switch_records_before_it_moves(
    m: Model,
    windows: Seq<WindowId>,
    i: int,
    now_unix: i64,
    switch: Switching,
    k: int,
)
    requires
        0 <= i <= windows.len(),
        m.switch == Some(switch),
        !switch.phase.compensating(),
    ensures
        ({
            let after = m.switch_parks_asked(windows, i, now_unix);
            match after.switch {
                Some(moved) => moved.phase.compensating() || {
                    &&& moved == (Switching { recording: moved.recording, ..switch })
                    &&& after.effects == m.effects
                    &&& after.parked_windows == m.parked_windows
                    &&& after.workspaces == m.workspaces
                    &&& (i <= k < windows.len() && m.inventory.contains_key(windows[k].0) && !gone(
                        m.displays,
                        m.inventory[windows[k].0].window.display_id,
                    ) ==> waits_in(after.pending_parking, moved, windows[k]))
                },
                None => true,
            }
        }),
    decreases windows.len() - i,
{
    if i < windows.len() {
        let w = windows[i];
        if !m.inventory.contains_key(w.0) {
            law_a_switch_records_before_it_moves(m, windows, i + 1, now_unix, switch, k);
        } else {
            let home = m.inventory[w.0].window.display_id;
            lemma_called(m.displays, home, 0);
            lemma_first_index(m.displays.len(), crate::topology::display_is(m.displays, home));
            match m.parking(w, now_unix) {
                Err(ParkingRefusal::UnknownDisplay { .. }) => {
                    law_a_switch_records_before_it_moves(m, windows, i + 1, now_unix, switch, k);
                },
                Err(refusal) => {
                    lemma_compensates(m, SwitchFailure::NotParkable(refusal), now_unix);
                },
                Ok(draft) => {
                    let token = crate::state::bumped(m.next_parking_token);
                    let more = Switching { recording: switch.recording.push(token), ..switch };
                    let next = m.entry_requested(w, draft, Some(switch.id)).switching(more);
                    law_a_switch_records_before_it_moves(
                        next,
                        windows,
                        i + 1,
                        now_unix,
                        more,
                        k,
                    );
                    if k == i {
                        let p = m.pending_parking.len() as int;
                        assert(next.pending_parking[p].window_id == w);
                        assert(more.recording[switch.recording.len() as int] == token);
                        assert(waits_in(next.pending_parking, more, w));
                        lemma_keeps_waiting(next, windows, i + 1, now_unix, w);
                    }
                },
            }
        }
    }
}

/// What a switch remembers of a window it hides is the display it was on and
/// the place it was meant to have there.
pub proof fn law_where_a_window_was_before_a_switch(m: Model, w: WindowId)
    ensures
        ({
            let prior = m.prior_placement()(w);
            &&& prior.window_id == w
            &&& prior.display_id == m.inventory[w.0].window.display_id
            &&& prior.bounds == if m.windows.contains_key(w.0) {
                m.windows[w.0].bounds
            } else {
                m.inventory[w.0].window.bounds
            }
        }),
{
}

/// A move that fails while a switch is under way turns it back: nothing new is
/// shown, and the switch carries the reason until everything is put back, when
/// it is concluded as failed for that reason.
pub proof fn law_a_failed_move_turns_the_switch_back(
    m: Model,
    a: Answers,
    switch: Switching,
    window_id: WindowId,
    failure: SwitchFailure,
)
    requires
        m.switch == Some(switch),
        switch.in_flight.contains(window_id),
        !switch.phase.compensating(),
    ensures
        match m.window_settled(a, window_id, Some(failure)) {
            Ok(after) => {
                &&& after.workspaces == m.workspaces
                &&& match after.switch {
                    Some(moved) => moved.phase.compensating() && moved.failure == Some(failure)
                        && moved.target == switch.target && moved.display_id
                        == switch.display_id,
                    None => after.last_switch_result matches Some(
                        Conclusion::SwitchFailed { name, display_id, reason, .. },
                    ) && name == switch.target && display_id == switch.display_id && reason
                        == failure,
                }
            },
            Err(_) => false,
        },
{
    reveal(Model::window_settled);
    let heard = switch.heard(window_id);
    let open = m.unswitched();
    let dropped = Model {
        pending_parking: open.pending_parking.filter(Model::on_its_own()),
        ..open
    };
    let abandoned = Switching {
        failure: Some(failure),
        phase: WorkspaceSwitchPhase::CompensatingPark,
        queued: Seq::empty(),
        recording: Seq::empty(),
        in_flight: heard.in_flight + heard.restored,
        ..heard
    };
    lemma_reparks_keep_phase(dropped, abandoned, heard.restored, 0, a.now_unix);
    lemma_reparks_keep_the_pool(dropped, abandoned, heard.restored, 0, a.now_unix);
    let (asked, moved) = dropped.reparks_asked(abandoned, heard.restored, 0, a.now_unix);
    if moved.settled() {
        let owed = moved.parked.filter(asked.at_parking_site());
        if owed.len() > 0 {
            let back = asked.switching(
                Switching {
                    phase: WorkspaceSwitchPhase::CompensatingRestore,
                    in_flight: owed,
                    parked: owed,
                    ..moved
                },
            );
            lemma_emitting_keeps_the_switch(back, owed, 0);
        }
    }
}

proof fn lemma_reparks_keep_the_pool(
    m: Model,
    switch: Switching,
    windows: Seq<WindowId>,
    i: int,
    now_unix: i64,
)
    ensures
        m.reparks_asked(switch, windows, i, now_unix).0.workspaces == m.workspaces,
    decreases windows.len() - i,
{
    if i < windows.len() {
        let (next, moved) = m.repark_asked(switch, windows[i], now_unix);
        lemma_reparks_keep_the_pool(next, moved, windows, i + 1, now_unix);
    }
}

/// Once a window's recovery data is durable the window is told to leave, under
/// that entry, and the switch waits for it and no longer for its token.
pub proof fn law_a_switch_waits_for_what_it_parks(
    m: Model,
    a: Answers,
    switch: Switching,
    i: int,
    entry_id: RecoveryEntryId,
    other: u64,
)
    requires
        m.switch == Some(switch),
        0 <= i < m.pending_parking.len(),
        forall|k: int|
            0 <= k < i ==> (#[trigger] m.pending_parking[k]).token != m.pending_parking[i].token,
        m.pending_parking[i].transaction == Some(switch.id),
        m.inventory.contains_key(m.pending_parking[i].window_id.0),
        switch.recording.contains(other),
        other != m.pending_parking[i].token,
    ensures
        ({
            let waiting = m.pending_parking[i];
            match m.on_entry_durable(a, waiting.token, entry_id) {
                Ok(after) => {
                    &&& after.effects == m.effects.push(
                        EngineEffect::ParkWindow { window_id: waiting.window_id, entry_id },
                    )
                    &&& after.pending_parking == m.pending_parking.remove(i)
                    &&& (after.switch matches Some(moved) && moved.in_flight.contains(
                        waiting.window_id,
                    ) && !moved.recording.contains(waiting.token) && moved.recording.contains(
                        other,
                    ) && moved.phase == switch.phase && moved.target == switch.target)
                },
                Err(_) => false,
            }
        }),
{
    broadcast use vstd::seq_lib::group_filter_ensures;

    reveal(Model::on_entry_durable);
    let waiting = m.pending_parking[i];
    let p = m.token_at(waiting.token);
    lemma_first_index(m.pending_parking.len(), p);
    assert(p(i));
    let found = first_index(m.pending_parking.len(), p)->0;
    assert(p(found));
    if found < i {
        assert(m.pending_parking[found].token != m.pending_parking[i].token);
    }
    let others = Model::other_token(waiting.token);
    let left = switch.recording.filter(others);
    assert(others(other));
    assert(left.contains(other));
    if left.contains(waiting.token) {
        let k = choose|k: int| 0 <= k < left.len() && left[k] == waiting.token;
        switch.recording.lemma_filter_pred(others, k);
    }
    let more = switch.in_flight.push(waiting.window_id);
    assert(more[more.len() - 1] == waiting.window_id);
}

/// A stranded window that has no move left to make is stranded no longer, the
/// others still are, and switching is open again once none is.
pub proof fn law_a_stranded_window_that_landed_is_free(
    m: Model,
    left: Degraded,
    window_id: WindowId,
    other: WindowId,
)
    requires
        m.switch_degraded == Some(left),
        left.stranded.contains(window_id),
        !m.inventory.contains_key(window_id.0) || off_stage(m, window_id.0)
            == m.parked_windows.contains_key(window_id.0),
    ensures
        match m.stranded_settled(window_id).switch_degraded {
            Some(still) => {
                &&& !still.stranded.contains(window_id)
                &&& (left.stranded.contains(other) && other != window_id
                    ==> still.stranded.contains(other))
                &&& still.stranded.len() > 0
                &&& still.target == left.target
                &&& still.display_id == left.display_id
            },
            None => left.stranded.contains(other) ==> other == window_id,
        },
{
    broadcast use vstd::seq_lib::group_filter_ensures;

    lemma_off_stage(m, window_id.0);
    let pred = crate::parking::other_than(window_id);
    let rest = left.stranded.filter(pred);
    if rest.contains(window_id) {
        let k = choose|k: int| 0 <= k < rest.len() && rest[k] == window_id;
        left.stranded.lemma_filter_pred(pred, k);
    }
    if left.stranded.contains(other) && other != window_id {
        assert(pred(other));
        assert(rest.contains(other));
    }
}

/// A window that a failed switch cannot put back either is stranded, unless it
/// was never one the switch had to take back.
pub proof fn law_what_cannot_be_put_back_is_stranded(switch: Switching, window_id: WindowId)
    requires
        switch.phase.compensating(),
    ensures
        ({
            let after = switch.given_up(window_id);
            &&& !after.in_flight.contains(window_id)
            &&& (switch.phase == WorkspaceSwitchPhase::CompensatingRestore
                || switch.restored.contains(window_id) ==> after.stranded.contains(window_id)
                && !after.parked.contains(window_id) && !after.restored.contains(window_id))
            &&& (switch.phase == WorkspaceSwitchPhase::CompensatingPark
                && !switch.restored.contains(window_id) ==> after.stranded == switch.stranded)
        }),
{
    lemma_without(switch.in_flight, window_id);
    lemma_without(switch.restored, window_id);
    lemma_without(switch.parked, window_id);
    if !switch.stranded.contains(window_id) {
        let more = switch.stranded.push(window_id);
        assert(more[more.len() - 1] == window_id);
    }
}

proof fn lemma_without(windows: Seq<WindowId>, window_id: WindowId)
    ensures
        !windows.filter(crate::parking::other_than(window_id)).contains(window_id),
{
    let pred = crate::parking::other_than(window_id);
    let rest = windows.filter(pred);
    if rest.contains(window_id) {
        let k = choose|k: int| 0 <= k < rest.len() && rest[k] == window_id;
        windows.lemma_filter_pred(pred, k);
    }
}

// Windows that are maximized.

/// Whether an observation says of a tiled window that it has been maximized.
pub open spec fn now_maximized(m: Model, seen: Window, id: isize) -> bool {
    &&& seen.id == WindowId(id)
    &&& seen.lifecycle == WindowLifecycle::Maximized
    &&& m.inventory.contains_key(id)
    &&& m.inventory[id].action == ManageAction::Tile
    &&& m.inventory[id].window.lifecycle != WindowLifecycle::Maximized
}

/// A tiled window floats for the session once it is seen maximized and was not
/// before, and no other window does on that account.
pub proof fn law_maximizing_floats_a_tiled_window(m: Model, windows: Seq<Window>, i: int, id: isize)
    requires
        0 <= i <= windows.len(),
    ensures
        ({
            let after = m.maximized_floated(windows, i);
            &&& after == (Model { session_floating: after.session_floating, ..m })
            &&& (after.session_floating.contains(id) <==> m.session_floating.contains(id) || exists|
                k: int,
            |
                i <= k < windows.len() && now_maximized(m, #[trigger] windows[k], id))
        }),
    decreases windows.len() - i,
{
    if i < windows.len() {
        let seen = windows[i];
        let next = if m.inventory.contains_key(seen.id.0) && m.inventory[seen.id.0].action
            == ManageAction::Tile && m.inventory[seen.id.0].window.lifecycle
            != WindowLifecycle::Maximized && seen.lifecycle == WindowLifecycle::Maximized {
            Model { session_floating: m.session_floating.insert(seen.id.0), ..m }
        } else {
            m
        };
        law_maximizing_floats_a_tiled_window(next, windows, i + 1, id);
        if exists|k: int| i <= k < windows.len() && now_maximized(m, #[trigger] windows[k], id) {
            let k = choose|k: int|
                i <= k < windows.len() && now_maximized(m, #[trigger] windows[k], id);
            if k > i {
                assert(now_maximized(next, windows[k], id));
            }
        }
        if exists|k: int| i + 1 <= k < windows.len() && now_maximized(
            next,
            #[trigger] windows[k],
            id,
        ) {
            let k = choose|k: int|
                i + 1 <= k < windows.len() && now_maximized(next, #[trigger] windows[k], id);
            assert(now_maximized(m, windows[k], id));
        }
        if now_maximized(m, windows[i], id) {
            assert(i <= i < windows.len());
        }
    }
}

} // verus!
