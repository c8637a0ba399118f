//! What the engine promises of a switch that failed: every window it moved,
//! or was still moving, is put back or accounted for.

use vstd::prelude::*;

verus! {

use crate::answers::{Answers, Query};
use crate::geometry::{RecoveryEntryId, WindowId};
use crate::outcome::{ParkingRefusal, SwitchFailure, Switching, WorkspaceSwitchPhase};
use crate::parking::other_than;
use crate::state::{EngineEffect, Model};
use crate::text::{first_index, lemma_first_index};

proof fn lemma_reparks_wait(
    m: Model,
    switch: Switching,
    windows: Seq<WindowId>,
    i: int,
    now_unix: i64,
    window_id: WindowId,
)
    requires
        0 <= i,
        switch.in_flight.contains(window_id),
        !windows.contains(window_id),
    ensures
        ({
            let (after, moved) = m.reparks_asked(switch, windows, i, now_unix);
            moved.in_flight.contains(window_id) && moved.phase == switch.phase
        }),
    decreases windows.len() - i,
{
    broadcast use vstd::seq_lib::group_filter_ensures;

    if i < windows.len() {
        assert(windows.contains(windows[i]));
        let pred = other_than(windows[i]);
        let k = choose|k: int|
            0 <= k < switch.in_flight.len() && switch.in_flight[k] == window_id;
        assert(pred(switch.in_flight[k]));
        assert(switch.in_flight.filter(pred).contains(switch.in_flight[k]));
        let (next, moved) = m.repark_asked(switch, windows[i], now_unix);
        lemma_reparks_wait(next, moved, windows, i + 1, now_unix, window_id);
    }
}

/// A switch that fails is not closed while a move of its is unanswered: the
/// window stays in flight, and whatever the adapter answers is heard.
pub proof fn law_compensation_waits_for_unanswered_moves(
    m: Model,
    switch: Switching,
    reason: SwitchFailure,
    now_unix: i64,
    window_id: WindowId,
)
    requires
        switch.in_flight.contains(window_id),
        !switch.restored.contains(window_id),
    ensures
        match m.compensating(switch, reason, now_unix).switch {
            Some(after) => after.in_flight.contains(window_id) && after.phase
                == WorkspaceSwitchPhase::CompensatingPark,
            None => false,
        },
{
    let dropped = Model {
        pending_parking: m.pending_parking.filter(Model::on_its_own()),
        ..m
    };
    let abandoned = Switching {
        failure: Some(reason),
        phase: WorkspaceSwitchPhase::CompensatingPark,
        queued: Seq::empty(),
        recording: Seq::empty(),
        in_flight: switch.in_flight + switch.restored,
        ..switch
    };
    let k = choose|k: int| 0 <= k < switch.in_flight.len() && switch.in_flight[k] == window_id;
    assert(abandoned.in_flight[k] == window_id);
    lemma_reparks_wait(dropped, abandoned, switch.restored, 0, now_unix, window_id);
}

proof fn lemma_restores_emitted(m: Model, windows: Seq<WindowId>, i: int)
    ensures
        ({
            let after = m.restores_emitted(windows, i);
            &&& after == (Model { effects: after.effects, ..m })
            &&& after.effects.len() >= m.effects.len()
            &&& forall|j: int|
                0 <= j < m.effects.len() ==> #[trigger] after.effects[j] == m.effects[j]
        }),
    decreases windows.len() - i,
{
    if i < windows.len() {
        let next = m.restore_asked(windows[i]);
        lemma_restores_emitted(next, windows, i + 1);
        let after = m.restores_emitted(windows, i);
        assert forall|j: int| 0 <= j < m.effects.len() implies #[trigger] after.effects[j]
            == m.effects[j] by {
            assert(next.effects[j] == m.effects[j]);
        }
    }
}

proof fn lemma_restore_emitted(m: Model, windows: Seq<WindowId>, i: int, k: int)
    requires
        0 <= i <= k < windows.len(),
        m.parked_windows.contains_key(windows[k].0),
    ensures
        exists|j: int|
            m.effects.len() <= j < m.restores_emitted(windows, i).effects.len()
                && #[trigger] m.restores_emitted(windows, i).effects[j]
                == (EngineEffect::RestoreWindow {
                window_id: windows[k],
                entry_id: m.parked_windows[windows[k].0],
            }),
    decreases windows.len() - i,
{
    let next = m.restore_asked(windows[i]);
    let after = m.restores_emitted(windows, i);
    lemma_restores_emitted(next, windows, i + 1);
    let told = EngineEffect::RestoreWindow {
        window_id: windows[k],
        entry_id: m.parked_windows[windows[k].0],
    };
    if i == k {
        assert(next.effects[m.effects.len() as int] == told);
        assert(after.effects[m.effects.len() as int] == told);
    } else {
        lemma_restore_emitted(next, windows, i + 1, k);
        let j = choose|j: int|
            next.effects.len() <= j < next.restores_emitted(windows, i + 1).effects.len()
                && #[trigger] next.restores_emitted(windows, i + 1).effects[j] == told;
        assert(after.effects[j] == told);
    }
}

/// A park that lands after the switch failed is put back: the window is asked
/// back on screen under its own entry, at once or, where other moves are
/// still awaited, among those the switch has parked.
pub proof fn law_a_late_park_is_put_back(
    m: Model,
    a: Answers,
    switch: Switching,
    window_id: WindowId,
    entry_id: RecoveryEntryId,
)
    requires
        m.switch == Some(switch),
        switch.phase == WorkspaceSwitchPhase::CompensatingPark,
        switch.in_flight.contains(window_id),
        !switch.restored.contains(window_id),
    ensures
        match m.on_parked(a, window_id, entry_id) {
            Ok(after) => {
                ||| after.switch matches Some(waiting) && waiting.phase
                    == WorkspaceSwitchPhase::CompensatingPark && waiting.parked.contains(window_id)
                ||| exists|j: int|
                    m.effects.len() <= j < after.effects.len() && #[trigger] after.effects[j]
                        == (EngineEffect::RestoreWindow { window_id, entry_id })
            },
            Err(_) => false,
        },
{
    broadcast use vstd::seq_lib::group_filter_ensures;

    reveal(Model::on_parked);
    reveal(Model::window_settled);
    let noted = Model {
        parked_windows: m.parked_windows.insert(window_id.0, entry_id),
        last_parking_failure: None,
        ..m
    }.intent(crate::state::Intent::MarkParked(entry_id));
    let lifted = noted.stranded_settled(window_id);
    assert(lifted.effects == m.effects && lifted.switch == m.switch);
    let heard = switch.heard(window_id);
    let landed = Switching { parked: heard.parked.push(window_id), ..heard };
    assert(landed.parked[heard.parked.len() as int] == window_id);
    let late = lifted.unswitched().landed_late(heard, window_id, a.now_unix);
    assert(late == lifted.unswitched().switching(landed));
    assert(lifted.window_settled(a, window_id, None) == late.switch_advanced(a));
    if !landed.settled() {
        assert(late.switch_advanced(a) == Ok::<Model, Query>(late));
        assert(m.on_parked(a, window_id, entry_id) == Ok::<Model, Query>(late.revised()));
        assert(late.revised().switch == Some(landed));
        assert(landed.parked.contains(window_id));
    } else {
        let closed = late.unswitched();
        let pred = closed.at_parking_site();
        let owed = landed.parked.filter(pred);
        assert(pred(landed.parked[heard.parked.len() as int]));
        assert(owed.contains(landed.parked[heard.parked.len() as int]));
        let k = choose|k: int| 0 <= k < owed.len() && owed[k] == window_id;
        let moved = closed.switching(
            Switching {
                phase: WorkspaceSwitchPhase::CompensatingRestore,
                in_flight: owed,
                parked: owed,
                ..landed
            },
        );
        lemma_restore_emitted(moved, owed, 0, k);
        let told = moved.restores_emitted(owed, 0);
        assert(late.switch_advanced(a) == Ok::<Model, Query>(told));
        assert(m.on_parked(a, window_id, entry_id) == Ok::<Model, Query>(told.revised()));
        let j = choose|j: int|
            moved.effects.len() <= j < told.effects.len() && #[trigger] told.effects[j] == (
            EngineEffect::RestoreWindow {
                window_id: owed[k],
                entry_id: moved.parked_windows[owed[k].0],
            });
        assert(told.revised().effects[j] == (EngineEffect::RestoreWindow { window_id, entry_id }));
    }
}

/// A window whose re-park the ledger refuses is stranded: it is waited for no
/// longer, and the switch says so, or the condition it leaves when it closes.
pub proof fn law_a_refused_repark_strands(
    m: Model,
    switch: Switching,
    token: u64,
    now_unix: i64,
    i: int,
)
    requires
        m.switch == Some(switch),
        switch.phase.compensating(),
        first_index(m.pending_parking.len(), m.token_at(token)) == Some(i),
        m.pending_parking[i].transaction == Some(switch.id),
    ensures
        ({
            let after = m.on_entry_refused(token, now_unix);
            let window_id = m.pending_parking[i].window_id;
            match after.switch {
                Some(left) => !left.in_flight.contains(window_id) && left.stranded.contains(
                    window_id,
                ),
                None => after.switch_degraded matches Some(degraded) && degraded.stranded.contains(
                    window_id,
                ),
            }
        }),
{
    reveal(Model::on_entry_refused);
    lemma_first_index(m.pending_parking.len(), m.token_at(token));
    assert(m.token_at(token)(i));
    let window_id = m.pending_parking[i].window_id;
    let left = Switching {
        recording: switch.recording.filter(Model::other_token(token)),
        ..switch
    }.heard(window_id).with_stranded(window_id);
    lemma_gone(switch.in_flight, window_id);
    lemma_gone(switch.parked, window_id);
    assert(left.stranded.contains(window_id)) by {
        if !switch.stranded.contains(window_id) {
            assert(left.stranded[switch.stranded.len() as int] == window_id);
        }
    }
    if left.settled() {
        let closed = Model {
            pending_parking: m.pending_parking.filter(Model::other_pending(token)),
            ..m
        }.unswitched();
        let pred = closed.at_parking_site();
        let owed = left.parked.filter(pred);
        if owed.contains(window_id) {
            left.parked.lemma_filter_contains_rev(pred, window_id);
        }
        let moved = closed.switching(
            Switching {
                phase: WorkspaceSwitchPhase::CompensatingRestore,
                in_flight: owed,
                parked: owed,
                ..left
            },
        );
        lemma_restores_emitted(moved, owed, 0);
        if left.stranded.len() == 0 {
            assert(!left.stranded.contains(window_id));
        }
    }
}

proof fn lemma_gone(windows: Seq<WindowId>, window_id: WindowId)
    ensures
        !windows.filter(other_than(window_id)).contains(window_id),
{
    let left = windows.filter(other_than(window_id));
    if left.contains(window_id) {
        let k = choose|k: int| 0 <= k < left.len() && left[k] == window_id;
        windows.lemma_filter_pred(other_than(window_id), k);
    }
}

/// A window whose display went away is simply not parked: nothing is asked
/// for it, and the switch carries on with the others.
pub proof fn law_a_window_without_a_display_is_not_parked(
    m: Model,
    windows: Seq<WindowId>,
    i: int,
    now_unix: i64,
)
    requires
        0 <= i < windows.len(),
        m.parking(windows[i], now_unix) == Err::<crate::outcome::RecoveryDraft, ParkingRefusal>(
            ParkingRefusal::UnknownDisplay { window_id: windows[i] },
        ),
    ensures
        m.switch_parks_asked(windows, i, now_unix) == m.switch_parks_asked(
            windows,
            i + 1,
            now_unix,
        ),
{
    if m.switch is Some && i + 1 >= windows.len() {
        assert(m.switch_parks_asked(windows, i + 1, now_unix) == m);
    }
}

} // verus!
