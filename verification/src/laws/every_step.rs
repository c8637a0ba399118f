//! What every step keeps, whatever the event: the logs only grow, a window
//! leaves the screen only under a durable recovery entry, the pool of
//! workspaces stays sound, and what a command gathers for its undo never
//! outlives it.

use vstd::prelude::*;

verus! {

use crate::answers::{Answers, Query};
use crate::laws::parts::{
    lemma_calm_compensation_advanced, lemma_calm_compensation_begun, lemma_resolve_in_range,
    lemma_tame_displayed_now, lemma_tame_switch_advanced, lemma_tame_switch_begun,
    lemma_tame_window_settled,
};
use crate::commands::CommandLabel;
use crate::event::Event;
use crate::laws::frame::{
    extends, lemma_arranged, lemma_workspaces_persisted, logs_kept, parks_from,
};
use crate::geometry::{DisplayId, RecoveryEntryId, WindowId};
use crate::laws::events::{
    lemma_calm_accepted, lemma_calm_bounds_observed, lemma_calm_directional_focus,
    lemma_calm_drag_ended, lemma_calm_focused, lemma_calm_layout, lemma_calm_on_observed,
    lemma_calm_rearranged, lemma_calm_rejected, lemma_calm_remove_position, lemma_calm_resize,
    lemma_calm_restore_requested, lemma_calm_resume, lemma_calm_rules, lemma_calm_startup,
    lemma_calm_swap, lemma_calm_throw, lemma_calm_toggle_floating, lemma_calm_toggle_tiling,
    lemma_calm_window_placed, lemma_calm_zone_snap, lemma_loose_config, lemma_loose_topology,
    lemma_loose_wake, lemma_tame_assignment_reconciled,
};
use crate::name::{RequestedName, WorkspaceName};
use crate::outcome::{ParkingStage, SwitchFailure, Switching, WorkspaceFocusApplied};
use crate::reducer::step;
use crate::state::{EngineEffect, Intent, Model, StoredTree};
use crate::laws::steady::{
    calm, calm_or_asked, displays_kept, grounded, kept, lemma_calm_same, lemma_sound_created,
    lemma_sound_removed, lemma_sound_swapped, lemma_sound_with, lemma_steady_arranged,
    lemma_steady_arranged_revised, lemma_steady_owed_asked, lemma_steady_persisted,
    lemma_steady_placed, lemma_steady_restores_asked, lemma_steady_scope_closed,
    lemma_steady_tree_stashed, lemma_steady_workspace_shown, lemma_then, lemma_trans,
    lemma_unnoticed_same, loose, loose_or_asked, marked, names_kept, pool_sound, tame,
    tame_or_asked, unnoticed,
};
use crate::table::{lemma_sorted, sorted};
use crate::text::{first_index, lemma_first_index};
use crate::undo::{Stored, UndoRestoredWindow, UndoTreeSnapshot};
use crate::workspace::{PersistedWorkspace, Workspace, WorkspaceOrigin};

pub proof fn lemma_calm_trees_loaded(m: Model, a: Answers, trees: Seq<StoredTree>)
    ensures
        calm_or_asked(m, m.on_trees_loaded(a, trees)),
        marked(m, m.on_trees_loaded(a, trees)),
{
    reveal(Model::on_trees_loaded);
    let waiting = Model { pending_trees: trees, ..m };
    assert(calm(m, waiting));
    lemma_steady_arranged_revised(waiting, a);
    lemma_then(m, waiting, waiting.arranged_revised(a));
}

proof fn lemma_loose_stored(m: Model, stored: PersistedWorkspace)
    ensures
        loose(m, m.stored_present(stored).stored_noted(stored)),
{
    let present = m.stored_present(stored);
    let origin = if crate::assign::spelled_in(m.config.workspaces, stored.name) {
        WorkspaceOrigin::Configuration
    } else {
        WorkspaceOrigin::Command
    };
    if m.workspaces.find(stored.name) is None && pool_sound(m.workspaces) {
        lemma_sound_created(m.workspaces, stored.name, origin);
    }
    assert(loose(m, present));
    lemma_first_index(present.workspaces.list.len(), present.workspaces.named(stored.name.key@));
    let noted = present.stored_noted(stored);
    match present.workspaces.find(stored.name) {
        Some(i) => {
            if pool_sound(present.workspaces) {
                lemma_sound_with(present.workspaces, i, noted.workspaces.list[i]);
            }
        },
        None => {},
    }
    assert(calm(present, noted));
    lemma_trans(m, present, noted);
}

pub proof fn lemma_loose_all_stored(m: Model, stored: Seq<PersistedWorkspace>, i: int)
    ensures
        loose(m, m.all_stored(stored, i)),
    decreases stored.len() - i,
{
    if i < stored.len() {
        let next = m.stored_present(stored[i]).stored_noted(stored[i]);
        lemma_loose_stored(m, stored[i]);
        lemma_loose_all_stored(next, stored, i + 1);
        lemma_trans(m, next, m.all_stored(stored, i));
    }
}

proof fn lemma_calm_pending_display_dropped(m: Model, i: int)
    requires
        0 <= i < m.workspaces.list.len(),
    ensures
        calm(m, m.pending_display_dropped(i)),
        m.pending_display_dropped(i).workspaces.list.len() == m.workspaces.list.len(),
{
    if pool_sound(m.workspaces) {
        lemma_sound_with(
            m.workspaces,
            i,
            Workspace { pending_display: None, ..m.workspaces.list[i] },
        );
    }
}

pub proof fn lemma_tame_displays_remembered(m: Model, i: int, n: int)
    requires
        0 <= i,
        n <= m.workspaces.list.len(),
    ensures
        tame(m, m.displays_remembered(i, n)),
    decreases n - i,
{
    if i < n {
        let next = m.display_remembered(i);
        match m.workspaces.list[i].pending_display {
            None => {},
            Some(fingerprint) => match crate::topology::id_of(m.displays, fingerprint@) {
                None => {},
                Some(display_id) => {
                    lemma_calm_pending_display_dropped(m, i);
                    let stashed = m.tree_stashed(display_id);
                    lemma_steady_tree_stashed(m, display_id);
                    let shown = stashed.workspace_shown(i, display_id);
                    lemma_steady_workspace_shown(stashed, i, display_id);
                    lemma_trans(m, stashed, shown);
                    lemma_calm_pending_display_dropped(shown, i);
                    lemma_trans(m, shown, shown.pending_display_dropped(i));
                },
            },
        }
        lemma_tame_displays_remembered(next, i + 1, n);
        lemma_trans(m, next, m.displays_remembered(i, n));
    }
}

pub proof fn lemma_loose_workspaces_loaded(m: Model, a: Answers, stored: Seq<PersistedWorkspace>)
    ensures
        loose_or_asked(m, m.on_workspaces_loaded(a, stored)),
        marked(m, m.on_workspaces_loaded(a, stored)),
{
    reveal(Model::on_workspaces_loaded);
    let present = m.all_stored(stored, 0);
    lemma_loose_all_stored(m, stored, 0);
    let n = present.workspaces.list.len() as int;
    let remembered = present.displays_remembered(0, n);
    lemma_tame_displays_remembered(present, 0, n);
    lemma_trans(m, present, remembered);
    lemma_tame_assignment_reconciled(remembered, a);
    lemma_then(m, remembered, remembered.assignment_reconciled(a));
}

pub proof fn lemma_loose_create(m: Model, a: Answers, request: RequestedName)
    ensures
        loose_or_asked(m, m.on_create(a, request)),
        marked(m, m.on_create(a, request)),
{
    reveal(Model::on_create);
    match m.create_plan(request) {
        Err(_) => {},
        Ok(applied) => {
            let created = Model {
                workspaces: m.workspaces.created(applied.name, WorkspaceOrigin::Command),
                ..m
            };
            if pool_sound(m.workspaces) {
                lemma_sound_created(m.workspaces, applied.name, WorkspaceOrigin::Command);
            }
            assert(loose(m, created));
            lemma_steady_persisted(created, a);
            match created.workspaces_persisted(a, 0) {
                Ok(next) => {
                    lemma_trans(m, created, next);
                    let done = next.answered(crate::outcome::Conclusion::Created(applied));
                    assert(calm(next, done));
                    lemma_trans(m, next, done);
                },
                Err(_) => {},
            }
        },
    }
}

/// A workspace that counts no members has none.
pub proof fn lemma_no_members(pool: crate::workspace::Pool, name: WorkspaceName)
    requires
        pool.members.dom().finite(),
        pool.members_of(name).len() == 0,
    ensures
        forall|window: isize| #[trigger]
            pool.members.contains_key(window) ==> !crate::name::collides(
                pool.members[window],
                name,
            ),
{
    broadcast use vstd::seq_lib::group_filter_ensures;

    let all = sorted(pool.members.dom());
    let pred = pool.belongs(name);
    lemma_sorted(pool.members.dom());
    assert forall|window: isize| #[trigger]
        pool.members.contains_key(window) implies !crate::name::collides(
        pool.members[window],
        name,
    ) by {
        assert(all.to_set().contains(window));
        if pred(window) {
            let k = choose|k: int| 0 <= k < all.len() && all[k] == window;
            assert(all.filter(pred).contains(all[k]));
        }
    }
}

pub proof fn lemma_loose_delete(m: Model, a: Answers, request: RequestedName)
    requires
        m.workspaces.members.dom().finite(),
    ensures
        loose_or_asked(m, m.on_delete(a, request)),
        marked(m, m.on_delete(a, request)),
{
    reveal(Model::on_delete);
    lemma_resolve_in_range(m.workspaces, request);
    match m.delete_plan(a, request) {
        Ok(Ok(applied)) => {
            lemma_no_members(m.workspaces, applied.name);
            lemma_first_index(m.workspaces.list.len(), m.workspaces.named(applied.name.key@));
            match m.workspaces.find(applied.name) {
                Some(i) => {
                    if pool_sound(m.workspaces) {
                        assert(crate::name::collides(m.workspaces.list[i].name, applied.name));
                        lemma_sound_removed(m.workspaces, i);
                    }
                },
                None => {},
            }
        },
        _ => {},
    }
}

pub proof fn lemma_tame_shown_without_moves(
    m: Model,
    a: Answers,
    name: WorkspaceName,
    display_id: DisplayId,
    replaced: Option<WorkspaceName>,
)
    ensures
        tame_or_asked(m, m.shown_without_moves(a, name, display_id, replaced)),
        marked(m, m.shown_without_moves(a, name, display_id, replaced)),
{
    reveal(Model::shown_without_moves);
    let scoped = m.scope_opened(CommandLabel::WorkspaceFocus(name)).assignment_captured(display_id);
    assert(kept(m, scoped));
    lemma_tame_displayed_now(scoped, a, name, display_id, replaced is Some);
    match scoped.displayed_now(a, name, display_id, replaced is Some) {
        Err(_) => {},
        Ok(shown) => {
            lemma_trans(m, scoped, shown);
            lemma_steady_scope_closed(shown, a);
            match shown.scope_closed(a) {
                Err(_) => {},
                Ok(next) => {
                    lemma_trans(m, shown, next);
                    let done = next.answered(
                        crate::outcome::Conclusion::Focused(
                            WorkspaceFocusApplied::Displayed { name, display_id, replaced },
                        ),
                    );
                    assert(calm(next, done));
                    lemma_trans(m, next, done);
                },
            }
        },
    }
}

pub proof fn lemma_tame_switch_started(
    m: Model,
    a: Answers,
    request: RequestedName,
    applied: WorkspaceFocusApplied,
)
    ensures
        tame_or_asked(m, m.switch_started(a, request, applied)),
        marked(m, m.switch_started(a, request, applied)),
{
    reveal(Model::switch_started);
    match m.switch_plan(request) {
        Err(_) => {},
        Ok(plan) => {
            lemma_tame_switch_begun(m, a, plan, None);
            match m.switch_begun(a, plan, None) {
                Err(_) => {},
                Ok(begun) => {
                    let done = begun.answered(
                        match (begun.switch, begun.last_switch_result) {
                            (None, Some(conclusion)) => conclusion,
                            _ => crate::outcome::Conclusion::Focused(applied),
                        },
                    );
                    assert(calm(begun, done));
                    lemma_trans(m, begun, done);
                },
            }
        },
    }
}

pub proof fn lemma_tame_workspace_focus(m: Model, a: Answers, request: RequestedName)
    ensures
        tame_or_asked(m, m.on_workspace_focus(a, request)),
        marked(m, m.on_workspace_focus(a, request)),
{
    reveal(Model::on_workspace_focus);
    match m.focus_plan(request) {
        Err(_) => {},
        Ok(applied) => match applied {
            WorkspaceFocusApplied::Displayed { name, display_id, replaced } => {
                lemma_tame_shown_without_moves(m, a, name, display_id, replaced);
            },
            WorkspaceFocusApplied::SwitchStarted { .. } => {
                lemma_tame_switch_started(m, a, request, applied);
            },
            WorkspaceFocusApplied::FocusedExisting { .. } => {},
        },
    }
}

pub proof fn lemma_tame_workspace_move(
    m: Model,
    a: Answers,
    request: RequestedName,
    display_id: DisplayId,
)
    ensures
        tame_or_asked(m, m.on_workspace_move(a, request, display_id)),
        marked(m, m.on_workspace_move(a, request, display_id)),
{
    reveal(Model::on_workspace_move);
    match m.move_plan(request, display_id) {
        Err(_) => {},
        Ok(applied) => {
            let from = applied.from_display_id;
            let to = applied.to_display_id;
            let exchanged = m.trees_exchanged(from, to);
            let swapped = Model {
                workspaces: exchanged.workspaces.swapped(from, to),
                focused_display: Some(to),
                ..exchanged
            };
            if pool_sound(m.workspaces) {
                lemma_sound_swapped(m.workspaces, from, to);
            }
            assert(tame(m, swapped));
            lemma_steady_arranged(swapped, a);
            match swapped.arranged(a) {
                Err(_) => {},
                Ok(next) => {
                    lemma_trans(m, swapped, next);
                    lemma_steady_persisted(next, a);
                    match next.workspaces_persisted(a, 0) {
                        Err(_) => {},
                        Ok(done) => {
                            lemma_trans(m, next, done);
                            let told = done.answered(crate::outcome::Conclusion::Moved(applied));
                            assert(calm(done, told));
                            lemma_trans(m, done, told);
                        },
                    }
                },
            }
        },
    }
}

pub proof fn lemma_calm_parking_requested(m: Model, window_id: WindowId, now_unix: i64)
    ensures
        calm(m, m.on_parking_requested(window_id, now_unix)),
        marked(m, Ok(m.on_parking_requested(window_id, now_unix))),
{
    reveal(Model::on_parking_requested);
}

pub proof fn lemma_calm_entry_refused(m: Model, token: u64, now_unix: i64)
    ensures
        calm(m, m.on_entry_refused(token, now_unix)),
        marked(m, Ok(m.on_entry_refused(token, now_unix))),
{
    reveal(Model::on_entry_refused);
    let dropped = Model {
        pending_parking: m.pending_parking.filter(Model::other_pending(token)),
        ..m
    };
    assert(calm(m, dropped));
    assert(calm(m, dropped.revised()));
    match m.switch {
        Some(switch) => {
            let i = first_index(m.pending_parking.len(), m.token_at(token));
            let left = Switching {
                recording: switch.recording.filter(Model::other_token(token)),
                ..switch
            }.heard(m.pending_parking[i->0].window_id).with_stranded(
                m.pending_parking[i->0].window_id,
            );
            lemma_first_index(m.pending_parking.len(), m.token_at(token));
            if i is Some {
                assert(m.token_at(token)(i->0));
            }
            let closed = dropped.unswitched();
            assert(calm(m, closed));
            lemma_calm_compensation_advanced(closed, left);
            let advanced = closed.compensation_advanced(left);
            lemma_trans(m, closed, advanced);
            assert(calm(advanced, advanced.revised()));
            lemma_trans(m, advanced, advanced.revised());
            assert(calm(m, dropped.switching(left).revised()));
            let heard = dropped.switching(
                Switching {
                    recording: switch.recording.filter(Model::other_token(token)),
                    ..switch
                },
            );
            assert(calm(m, heard));
            let begun = heard.compensation_begun(SwitchFailure::EntryNotDurable, now_unix);
            lemma_calm_compensation_begun(heard, SwitchFailure::EntryNotDurable, now_unix);
            lemma_trans(m, heard, begun);
            assert(calm(begun, begun.revised()));
            lemma_trans(m, begun, begun.revised());
        },
        None => {},
    }
}

proof fn lemma_tame_settled_revised(
    m: Model,
    a: Answers,
    window_id: WindowId,
    failure: Option<SwitchFailure>,
)
    ensures
        match m.window_settled(a, window_id, failure) {
            Ok(next) => {
                &&& tame(m, next)
                &&& tame(m, next.revised())
                &&& (failure is Some ==> calm(m, next) && calm(m, next.revised()))
            },
            Err(_) => true,
        },
{
    lemma_tame_window_settled(m, a, window_id, failure);
    match m.window_settled(a, window_id, failure) {
        Ok(next) => {
            assert(calm(next, next.revised()));
            lemma_trans(m, next, next.revised());
        },
        Err(_) => {},
    }
}

pub proof fn lemma_tame_parked(
    m: Model,
    a: Answers,
    window_id: WindowId,
    entry_id: RecoveryEntryId,
)
    ensures
        tame_or_asked(m, m.on_parked(a, window_id, entry_id)),
        marked(m, m.on_parked(a, window_id, entry_id)),
{
    reveal(Model::on_parked);
    let noted = Model {
        parked_windows: m.parked_windows.insert(window_id.0, entry_id),
        last_parking_failure: None,
        ..m
    }.intent(Intent::MarkParked(entry_id));
    assert(calm(m, noted));
    let lifted = noted.stranded_settled(window_id);
    assert(calm(noted, lifted));
    lemma_trans(m, noted, lifted);
    lemma_tame_settled_revised(lifted, a, window_id, None);
    match lifted.window_settled(a, window_id, None) {
        Ok(next) => {
            lemma_trans(m, lifted, next.revised());
        },
        Err(_) => {},
    }
}

pub proof fn lemma_calm_park_failed(
    m: Model,
    a: Answers,
    window_id: WindowId,
    entry_id: RecoveryEntryId,
    reason: String,
)
    ensures
        calm_or_asked(m, m.on_park_failed(a, window_id, entry_id, reason)),
        marked(m, m.on_park_failed(a, window_id, entry_id, reason)),
{
    reveal(Model::on_park_failed);
    let noted = m.failure_noted(window_id, entry_id, ParkingStage::Park, reason);
    assert(calm(m, noted));
    let failure = Some(SwitchFailure::Reported(reason));
    lemma_tame_settled_revised(noted, a, window_id, failure);
    match noted.window_settled(a, window_id, failure) {
        Ok(next) => {
            lemma_trans(m, noted, next);
            lemma_trans(m, noted, next.revised());
            let stranded = next.stranded(window_id, SwitchFailure::Reported(reason)).revised();
            assert(calm(next, stranded));
            lemma_trans(m, next, stranded);
        },
        Err(_) => {},
    }
}

pub proof fn lemma_tame_restored(m: Model, a: Answers, window_id: WindowId)
    ensures
        tame_or_asked(m, m.on_restored(a, window_id)),
        marked(m, m.on_restored(a, window_id)),
{
    reveal(Model::on_restored);
    let back = if m.parked_windows.contains_key(window_id.0) {
        Model {
            parked_windows: m.parked_windows.remove(window_id.0),
            last_parking_failure: None,
            ..m
        }.intent(Intent::MarkRestored(m.parked_windows[window_id.0])).revised()
    } else if m.moves_in_switch(window_id) {
        m.revised()
    } else {
        m
    };
    assert(calm(m, back));
    let lifted = back.stranded_settled(window_id);
    assert(calm(back, lifted));
    lemma_trans(m, back, lifted);
    lemma_tame_window_settled(lifted, a, window_id, None);
    lemma_then(m, lifted, lifted.window_settled(a, window_id, None));
    if !m.parked_windows.contains_key(window_id.0) && !m.moves_in_switch(window_id) {
        assert(lifted.window_settled(a, window_id, None) == Ok::<Model, Query>(lifted)) by {
            reveal(Model::window_settled);
        }
    }
}

pub proof fn lemma_calm_restore_failed(
    m: Model,
    a: Answers,
    window_id: WindowId,
    entry_id: RecoveryEntryId,
    reason: String,
)
    ensures
        calm_or_asked(m, m.on_restore_failed(a, window_id, entry_id, reason)),
        marked(m, m.on_restore_failed(a, window_id, entry_id, reason)),
{
    reveal(Model::on_restore_failed);
    let noted = m.failure_noted(window_id, entry_id, ParkingStage::Restore, reason);
    assert(calm(m, noted));
    let failure = Some(SwitchFailure::Reported(reason));
    lemma_tame_settled_revised(noted, a, window_id, failure);
    match noted.window_settled(a, window_id, failure) {
        Ok(next) => {
            lemma_trans(m, noted, next.revised());
        },
        Err(_) => {},
    }
}

pub proof fn lemma_calm_restore_all(m: Model)
    ensures
        calm(m, m.on_restore_all()),
        marked(m, Ok(m.on_restore_all())),
{
    reveal(Model::on_restore_all);
    let windows = sorted(m.parked_windows.dom());
    let asked = m.restores_asked(windows, 0);
    lemma_steady_restores_asked(m, windows, 0);
    assert(calm(asked, asked.revised()));
    lemma_trans(m, asked, asked.revised());
}

pub proof fn lemma_calm_switch_restore(m: Model, now_unix: i64)
    ensures
        calm(m, m.on_switch_restore(now_unix)),
        marked(m, Ok(m.on_switch_restore(now_unix))),
{
    reveal(Model::on_switch_restore);
    match m.switch_degraded {
        None => {},
        Some(degraded) => {
            let owed = degraded.stranded.filter(m.still_owes());
            let asked = m.owed_asked(owed, 0, now_unix);
            lemma_steady_owed_asked(m, owed, 0, now_unix);
            assert(calm(asked, asked.revised()));
            lemma_trans(m, asked, asked.revised());
        },
    }
}

pub proof fn lemma_calm_structure_restored(
    m: Model,
    a: Answers,
    snapshots: Seq<UndoTreeSnapshot>,
    i: int,
    any: bool,
)
    ensures
        match m.structure_restored(a, snapshots, i, any) {
            Ok((after, _)) => calm(m, after),
            Err(_) => true,
        },
    decreases snapshots.len() - i,
{
    if i < snapshots.len() {
        match crate::topology::id_of(m.displays, snapshots[i].display_fingerprint@) {
            None => {
                lemma_calm_structure_restored(m, a, snapshots, i + 1, any);
            },
            Some(display_id) => match m.restored_tree(
                a,
                snapshots[i].tree,
                m.active_tiled(display_id),
            ) {
                Err(_) => {},
                Ok(tree) => {
                    let next = Model { trees: m.trees.insert(display_id.0, tree), ..m };
                    assert(calm(m, next));
                    lemma_calm_structure_restored(next, a, snapshots, i + 1, true);
                    match next.structure_restored(a, snapshots, i + 1, true) {
                        Ok((after, _)) => {
                            lemma_trans(m, next, after);
                        },
                        Err(_) => {},
                    }
                },
            },
        }
    }
}

pub proof fn lemma_calm_all_put_back(m: Model, restored: Seq<UndoRestoredWindow>, i: int)
    ensures
        calm(m, m.all_put_back(restored, i)),
    decreases restored.len() - i,
{
    if i < restored.len() {
        let window = restored[i];
        let next = m.placed(window.window_id, window.display_id, window.placement, None);
        lemma_steady_placed(m, window.window_id, window.display_id, window.placement, None);
        lemma_calm_all_put_back(next, restored, i + 1);
        lemma_trans(m, next, m.all_put_back(restored, i));
    }
}

pub proof fn lemma_tame_windows_reversed(
    m: Model,
    a: Answers,
    transaction: Stored,
    restored: Seq<UndoRestoredWindow>,
)
    ensures
        tame_or_asked(m, m.windows_reversed(a, transaction, restored)),
{
    reveal(Model::windows_reversed);
    lemma_calm_all_put_back(m, restored, 0);
    match m.switch_back(transaction.prior_assignments, 0) {
        Ok(Some(plan)) => {
            lemma_tame_switch_begun(m, a, plan, Some(transaction.id));
        },
        _ => {},
    }
}

pub proof fn lemma_tame_reversed(
    m: Model,
    a: Answers,
    transaction: Stored,
    restored: Seq<UndoRestoredWindow>,
)
    ensures
        tame_or_asked(m, m.reversed(a, transaction, restored)),
{
    reveal(Model::reversed);
    lemma_calm_structure_restored(m, a, transaction.prior_trees, 0, false);
    match m.structure_restored(a, transaction.prior_trees, 0, false) {
        Err(_) => {},
        Ok((structured, reshaped)) => {
            lemma_tame_windows_reversed(structured, a, transaction, restored);
            match structured.windows_reversed(a, transaction, restored) {
                Err(_) => {},
                Ok(back) => {
                    lemma_trans(m, structured, back);
                    lemma_steady_arranged(back, a);
                    let settled = if reshaped {
                        back.arranged(a)
                    } else {
                        Ok(back)
                    };
                    match settled {
                        Err(_) => {},
                        Ok(next) => {
                            if reshaped {
                                lemma_trans(m, back, next);
                            }
                            let done = Model {
                                newest_undo: None,
                                ..next.intent(Intent::ConsumeUndoTransaction(transaction.id))
                            };
                            assert(calm(next, done));
                            lemma_trans(m, next, done);
                        },
                    }
                },
            }
        },
    }
}

pub proof fn lemma_tame_undo(m: Model, a: Answers)
    ensures
        tame_or_asked(m, m.on_undo(a)),
        marked(m, m.on_undo(a)),
{
    reveal(Model::on_undo);
    match (m.reversal(a), m.newest_undo) {
        (Ok(reversal), Some(transaction)) => match reversal {
            crate::undo::Reversal::Applied { restored, .. } => {
                lemma_tame_reversed(m, a, transaction, restored);
                match m.reversed(a, transaction, restored) {
                    Ok(next) => {
                        let done = Model {
                            last_undo_result: Some(reversal),
                            ..next
                        }.revised();
                        assert(calm(next, done));
                        lemma_trans(m, next, done);
                    },
                    Err(_) => {},
                }
            },
            _ => {},
        },
        _ => {},
    }
}

/// Events that ask for a window to leave the screen now.
pub open spec fn opens_the_way(event: Event) -> bool {
    event is RecoveryEntryDurable
}

/// Events that open or close a hotkey capture.
pub open spec fn holds_capture(event: Event) -> bool {
    event is HotkeyCaptureStarted || event is HotkeyCaptureEnded
}

/// Events after which there may be other workspaces than before.
pub open spec fn redraws_pool(event: Event) -> bool {
    ||| event is WorkspaceCreateRequested
    ||| event is WorkspaceDeleteRequested
    ||| event is WorkspacesLoaded
    ||| event is ConfigChanged
    ||| event is DisplayTopologyChanged
    ||| event is WakeReconciliation
}

/// Events after which a display may show another workspace than before: the
/// commands that ask for it, and the answers a switch waits for.
pub open spec fn may_redisplay(event: Event) -> bool {
    ||| event is WorkspaceFocusRequested
    ||| event is WorkspaceMoveRequested
    ||| event is UndoRequested
    ||| event is RecoveryEntryDurable
    ||| event is WindowParked
    ||| event is WindowRestored
}

/// The events that only note what they report.
proof fn lemma_calm_report(m: Model, event: Event, a: Answers)
    requires
        m.undo_scope is None,
        event is PersistenceHealthChanged || event is UndoHistoryLoaded
            || event is ParkingCapabilityReported || event is RecoveryReported
            || event is DesktopFocused || event is FocusDisplayRequested || event is PauseRequested
            || event is InteractivePlacementStarted || event is RearrangeRequested
            || event is HotkeyRegistrationReported,
    ensures
        calm_or_asked(m, step(m, event, a)),
        marked(m, step(m, event, a)),
{
    match step(m, event, a) {
        Ok(after) => {
            if event is RearrangeRequested {
                assert(calm(m, after));
            } else {
                lemma_calm_same(m, after);
            }
        },
        Err(_) => {},
    }
}

#[verifier::spinoff_prover]
#[verifier::rlimit(60)]
proof fn lemma_calm_step(m: Model, event: Event, a: Answers)
    requires
        m.undo_scope is None,
        event is WorkspaceDeleteRequested ==> m.workspaces.members.dom().finite(),
        !opens_the_way(event),
        !holds_capture(event),
    ensures
        loose_or_asked(m, step(m, event, a)),
        !redraws_pool(event) ==> tame_or_asked(m, step(m, event, a)),
        !redraws_pool(event) && !may_redisplay(event) ==> calm_or_asked(m, step(m, event, a)),
        m.finite() ==> marked(m, step(m, event, a)),
{
    assert((Model { undo_scope: None, ..m }) == m);
    match event {
        Event::ContainerTreesLoaded(trees) => lemma_calm_trees_loaded(m, a, trees@),
        Event::WorkspacesLoaded(stored) => lemma_loose_workspaces_loaded(m, a, stored@),
        Event::WorkspaceCreateRequested { name } => lemma_loose_create(m, a, name),
        Event::WorkspaceDeleteRequested { name } => lemma_loose_delete(m, a, name),
        Event::WorkspaceFocusRequested { name } => lemma_tame_workspace_focus(m, a, name),
        Event::WorkspaceMoveRequested { name, display_id } => lemma_tame_workspace_move(
            m,
            a,
            name,
            display_id,
        ),
        Event::ParkingAuthorizationRequested { window_id } => lemma_calm_parking_requested(
            m,
            window_id,
            a.now_unix,
        ),
        Event::RecoveryEntryRefused { token } => lemma_calm_entry_refused(m, token, a.now_unix),
        Event::WindowParked { window_id, entry_id } => lemma_tame_parked(
            m,
            a,
            window_id,
            entry_id,
        ),
        Event::WindowParkFailed { window_id, entry_id, reason } => lemma_calm_park_failed(
            m,
            a,
            window_id,
            entry_id,
            reason,
        ),
        Event::WindowRestored { window_id } => lemma_tame_restored(m, a, window_id),
        Event::WindowRestoreFailed { window_id, entry_id, reason } => lemma_calm_restore_failed(
            m,
            a,
            window_id,
            entry_id,
            reason,
        ),
        Event::WorkspaceSwitchRestoreRequested => lemma_calm_switch_restore(m, a.now_unix),
        Event::RestoreParkedWindowsRequested => lemma_calm_restore_all(m),
        Event::UndoRequested => lemma_tame_undo(m, a),
        Event::DisplayTopologyChanged { displays, topology } => lemma_loose_topology(
            m,
            a,
            displays@,
            topology,
        ),
        Event::WindowPlaced { window_id, display_id, bounds } => lemma_calm_window_placed(
            m,
            a,
            window_id,
            display_id,
            bounds,
        ),
        Event::WindowRestoreRequested { window_id } => lemma_calm_restore_requested(
            m,
            a,
            window_id,
        ),
        Event::WindowThrowToDisplayRequested { window_id, direction } => lemma_calm_throw(
            m,
            a,
            window_id,
            direction,
        ),
        Event::WindowFocused { window_id, display_id, bounds } => lemma_calm_focused(
            m,
            window_id,
            display_id,
            bounds,
        ),
        Event::ZoneSnapRequested { direction } => lemma_calm_zone_snap(m, a, direction),
        Event::WindowBoundsObserved { window_id, display_id, bounds } =>
            lemma_calm_bounds_observed(m, window_id, display_id, bounds),
        Event::ConfigChanged(set) => lemma_loose_config(m, a, set@),
        Event::ResumeRequested => lemma_calm_resume(m, a),
        Event::ToggleAutomaticTilingRequested => lemma_calm_toggle_tiling(m, a),
        Event::ToggleFloatingRequested => lemma_calm_toggle_floating(m, a),
        Event::DirectionalFocusRequested { direction } => lemma_calm_directional_focus(
            m,
            a,
            direction,
        ),
        Event::DirectionalSwapRequested { direction } => lemma_calm_swap(m, a, direction),
        Event::TreePositionRemoveRequested { display_id, position } => lemma_calm_remove_position(
            m,
            a,
            display_id,
            position,
        ),
        Event::TreeResizeRequested { direction } => lemma_calm_resize(m, a, direction),
        Event::InteractivePlacementEnded { window_id, committed_manual_placement } =>
            lemma_calm_drag_ended(m, a, window_id, committed_manual_placement),
        Event::StartupReconciliation { windows } => lemma_calm_startup(m, windows@),
        Event::WakeReconciliation { displays, topology, windows } => lemma_loose_wake(
            m,
            a,
            displays@,
            topology,
            match windows {
                Some(list) => Some(list@),
                None => None,
            },
        ),
        Event::PlacementRejected { window_id } => lemma_calm_rejected(m, a, window_id),
        Event::PlacementAccepted { window_id } => lemma_calm_accepted(m, window_id),
        Event::RearrangeReconciliationComplete { windows } => lemma_calm_rearranged(
            m,
            a,
            windows@,
        ),
        Event::WindowsObserved { windows } => lemma_calm_on_observed(m, a, windows@),
        Event::RulesChanged { rules } => lemma_calm_rules(m, a, rules),
        Event::SavedLayoutApplyRequested { name } => lemma_calm_layout(m, a, name),
        _ => lemma_calm_report(m, event, a),
    }
}

proof fn lemma_displayed_now_waits(
    m: Model,
    a: Answers,
    name: WorkspaceName,
    display_id: DisplayId,
    replaces: bool,
)
    ensures
        match m.displayed_now(a, name, display_id, replaces) {
            Ok(after) => after.pending_parking == m.pending_parking,
            Err(_) => true,
        },
{
    reveal(Model::displayed_now);
    let stashed = if replaces {
        m.tree_stashed(display_id)
    } else {
        m
    };
    let shown = Model {
        focused_display: Some(display_id),
        ..stashed.name_shown(name, display_id)
    };
    lemma_arranged(shown, a);
    match shown.arranged(a) {
        Ok(next) => {
            lemma_workspaces_persisted(next, a, 0);
        },
        Err(_) => {},
    }
}

proof fn lemma_priors_recorded_waits(
    m: Model,
    priors: Seq<crate::outcome::PriorPlacement>,
    i: int,
)
    ensures
        m.priors_recorded(priors, i).pending_parking == m.pending_parking,
    decreases priors.len() - i,
{
    if i < priors.len() {
        lemma_priors_recorded_waits(
            m.member_recorded(
                priors[i].window_id,
                Some((priors[i].display_id, priors[i].bounds)),
            ),
            priors,
            i + 1,
        );
    }
}

proof fn lemma_restores_emitted_waits(m: Model, windows: Seq<WindowId>, i: int)
    ensures
        m.restores_emitted(windows, i).pending_parking == m.pending_parking,
    decreases windows.len() - i,
{
    if i < windows.len() {
        lemma_restores_emitted_waits(m.restore_asked(windows[i]), windows, i + 1);
    }
}

/// A transaction that moves on leaves the entries that are waited for alone.
proof fn lemma_switch_advanced_waits(m: Model, a: Answers)
    ensures
        match m.switch_advanced(a) {
            Ok(after) => after.pending_parking == m.pending_parking,
            Err(_) => true,
        },
{
    match m.switch {
        None => {},
        Some(switch) => {
            let closed = m.unswitched();
            assert forall|next: Model, windows: Seq<WindowId>| (
            #[trigger] next.restores_emitted(windows, 0)).pending_parking
                == next.pending_parking by {
                lemma_restores_emitted_waits(next, windows, 0);
            }
            let scoped = closed.unswitched().commit_scoped(switch);
            reveal(Model::commit_scoped);
            let captured = closed.scope_opened(
                CommandLabel::WorkspaceFocus(switch.target),
            ).assignment_captured(switch.display_id);
            lemma_priors_recorded_waits(captured, switch.prior_placements, 0);
            lemma_displayed_now_waits(
                scoped,
                a,
                switch.target,
                switch.display_id,
                switch.outgoing is Some,
            );
            reveal(Model::commit_closed);
            reveal(Model::scope_closed);
            reveal(Model::commit_concluded);
        },
    }
}

/// The entry became durable: the one place where a window is told to leave
/// the screen.
proof fn lemma_entry_durable(m: Model, a: Answers, token: u64, entry_id: RecoveryEntryId)
    ensures
        match m.on_entry_durable(a, token, entry_id) {
            Ok(after) => {
                &&& m.revision <= after.revision
                &&& after.pending_parking == match first_index(
                    m.pending_parking.len(),
                    m.token_at(token),
                ) {
                    Some(i) => m.pending_parking.remove(i),
                    None => m.pending_parking,
                }
                &&& extends(m.effects, after.effects)
                &&& extends(m.intents, after.intents)
                &&& (pool_sound(m.workspaces) ==> pool_sound(after.workspaces))
                &&& names_kept(m.workspaces, after.workspaces)
                &&& grounded(m, after)
                &&& after.capture_holds == m.capture_holds
                &&& after.capture_suspended == m.capture_suspended
                &&& (m.undo_scope is None ==> after.undo_scope is None)
                &&& forall|k: int|
                    m.effects.len() <= k < after.effects.len() && (
                    #[trigger] after.effects[k]) is ParkWindow ==> {
                        &&& k == m.effects.len()
                        &&& first_index(m.pending_parking.len(), m.token_at(token)) matches Some(i)
                            && m.inventory.contains_key(m.pending_parking[i].window_id.0)
                            && after.effects[k] == EngineEffect::ParkWindow {
                            window_id: m.pending_parking[i].window_id,
                            entry_id,
                        }
                    }
            },
            Err(_) => true,
        },
        marked(m, m.on_entry_durable(a, token, entry_id)),
{
    reveal(Model::on_entry_durable);
    match first_index(m.pending_parking.len(), m.token_at(token)) {
        None => {},
        Some(i) => {
            let pending = m.pending_parking[i];
            let parks = m.inventory.contains_key(pending.window_id.0);
            let heard = Model {
                pending_parking: m.pending_parking.remove(i),
                ..m
            }.entry_heard(pending, parks);
            assert(calm(m, heard) && heard.effects == m.effects);
            let parked = if parks {
                heard.effect(EngineEffect::ParkWindow { window_id: pending.window_id, entry_id })
            } else {
                heard
            };
            lemma_tame_switch_advanced(parked, a);
            lemma_switch_advanced_waits(parked, a);
            match parked.switch_advanced(a) {
                Ok(next) => {
                    assert(logs_kept(parked, next));
                    assert forall|k: int| parked.effects.len() <= k < next.effects.len() implies !(
                    #[trigger] next.effects[k] is ParkWindow) by {}
                },
                Err(_) => {},
            }
        },
    }
}

/// Both logs, the effects for the adapter and the intents for the database,
/// only ever grow: no step takes back or rewrites what was already there.
pub proof fn law_logs_only_grow(before: Model, event: Event, a: Answers)
    ensures
        match step(before, event, a) {
            Ok(after) => extends(before.effects, after.effects) && extends(
                before.intents,
                after.intents,
            ),
            Err(_) => true,
        },
{
    let m = Model { undo_scope: None, ..before };
    match event {
        Event::RecoveryEntryDurable { token, entry_id } => {
            lemma_entry_durable(m, a, token, entry_id);
        },
        Event::WorkspaceDeleteRequested { .. } => {
            reveal(Model::on_delete);
        },
        Event::HotkeyCaptureStarted => {},
        Event::HotkeyCaptureEnded => {},
        _ => {
            lemma_calm_step(m, event, a);
            assert(step(before, event, a) == step(m, event, a));
        },
    }
}

/// A window is told to leave the screen only by the step that hears that its
/// recovery entry is durable: the request is under that entry, for the window
/// the entry was asked for, and only while the window is still managed. It is
/// the first effect of that step and the only one of its sort, and the entry
/// is no longer waited for.
pub proof fn law_parking_follows_its_durable_entry(
    before: Model,
    event: Event,
    a: Answers,
    k: int,
)
    ensures
        match step(before, event, a) {
            Ok(after) => before.effects.len() <= k < after.effects.len()
                && after.effects[k] is ParkWindow ==> match event {
                Event::RecoveryEntryDurable { token, entry_id } => first_index(
                    before.pending_parking.len(),
                    before.token_at(token),
                ) matches Some(i) && before.inventory.contains_key(
                    before.pending_parking[i].window_id.0,
                ) && after.effects[k] == EngineEffect::ParkWindow {
                    window_id: before.pending_parking[i].window_id,
                    entry_id,
                } && k == before.effects.len() && after.pending_parking
                    == before.pending_parking.remove(i),
                _ => false,
            },
            Err(_) => true,
        },
{
    let m = Model { undo_scope: None, ..before };
    match event {
        Event::RecoveryEntryDurable { token, entry_id } => {
            lemma_entry_durable(m, a, token, entry_id);
            lemma_first_index(m.pending_parking.len(), m.token_at(token));
            lemma_first_index(before.pending_parking.len(), before.token_at(token));
            assert forall|i: int| #[trigger]
                m.token_at(token)(i) == before.token_at(token)(i) by {}
            assert(m.token_at(token) =~= before.token_at(token));
        },
        Event::WorkspaceDeleteRequested { .. } => {
            reveal(Model::on_delete);
        },
        Event::HotkeyCaptureStarted => {},
        Event::HotkeyCaptureEnded => {},
        _ => {
            lemma_calm_step(m, event, a);
            assert(step(before, event, a) == step(m, event, a));
            match step(before, event, a) {
                Ok(after) => {
                    assert(!parks_from(after.effects, m.effects.len()));
                },
                Err(_) => {},
            }
        },
    }
}

/// A durable entry is used up by being heard of: where no two entries wait
/// under one token, hearing of it again changes nothing.
pub proof fn law_durable_entry_is_used_once(
    before: Model,
    token: u64,
    entry_id: RecoveryEntryId,
    a: Answers,
)
    requires
        forall|i: int, j: int|
            0 <= i < j < before.pending_parking.len() ==> (
            #[trigger] before.pending_parking[i]).token != (
            #[trigger] before.pending_parking[j]).token,
    ensures
        match before.on_entry_durable(a, token, entry_id) {
            Ok(after) => after.on_entry_durable(a, token, entry_id) == Ok::<Model, Query>(after),
            Err(_) => true,
        },
{
    lemma_entry_durable(before, a, token, entry_id);
    lemma_first_index(before.pending_parking.len(), before.token_at(token));
    reveal(Model::on_entry_durable);
    match before.on_entry_durable(a, token, entry_id) {
        Ok(after) => {
            lemma_first_index(after.pending_parking.len(), after.token_at(token));
            match (
                first_index(before.pending_parking.len(), before.token_at(token)),
                first_index(after.pending_parking.len(), after.token_at(token)),
            ) {
                (Some(i), Some(j)) => {
                    assert(before.token_at(token)(i));
                    assert(after.token_at(token)(j));
                    let from = if j < i {
                        j
                    } else {
                        j + 1
                    };
                    assert(after.pending_parking[j] == before.pending_parking[from]);
                    assert(before.pending_parking[from].token == before.pending_parking[i].token);
                },
                _ => {},
            }
        },
        Err(_) => {},
    }
}

/// The revision never goes back, and it goes up with every step after which a
/// reader of the state could notice a difference, until it reaches the limit
/// of its type.
pub proof fn law_every_change_is_revised(before: Model, event: Event, a: Answers)
    requires
        before.finite(),
    ensures
        match step(before, event, a) {
            Ok(after) => {
                &&& before.revision <= after.revision
                &&& (before.revision < u64::MAX && !unnoticed(before, after) ==> before.revision
                    < after.revision)
            },
            Err(_) => true,
        },
{
    let m = Model { undo_scope: None, ..before };
    match event {
        Event::RecoveryEntryDurable { token, entry_id } => {
            lemma_entry_durable(m, a, token, entry_id);
        },
        Event::HotkeyCaptureStarted => {},
        Event::HotkeyCaptureEnded => {},
        _ => {
            lemma_calm_step(m, event, a);
            assert(step(before, event, a) == step(m, event, a));
        },
    }
    match step(before, event, a) {
        Ok(after) => {
            if after == m || event is HotkeyCaptureStarted || event is HotkeyCaptureEnded {
                if after.revision == m.revision {
                    assert(m.revision < u64::MAX ==> after == (Model {
                        capture_holds: after.capture_holds,
                        ..m
                    }));
                    if m.revision < u64::MAX {
                        lemma_unnoticed_same(before, after);
                    }
                }
            }
        },
        Err(_) => {},
    }
}

/// What a command gathers for its undo never outlives the event that opened
/// it.
pub proof fn law_no_scope_outlives_its_event(before: Model, event: Event, a: Answers)
    ensures
        match step(before, event, a) {
            Ok(after) => after.undo_scope is None,
            Err(_) => true,
        },
{
    let m = Model { undo_scope: None, ..before };
    match event {
        Event::RecoveryEntryDurable { token, entry_id } => {
            lemma_entry_durable(m, a, token, entry_id);
        },
        Event::WorkspaceDeleteRequested { .. } => {
            reveal(Model::on_delete);
        },
        Event::HotkeyCaptureStarted => {},
        Event::HotkeyCaptureEnded => {},
        _ => {
            lemma_calm_step(m, event, a);
            assert(step(before, event, a) == step(m, event, a));
        },
    }
}

/// No step breaks the pool: names stay distinct and in order, no display ever
/// shows two workspaces, no workspace is on two displays, and every member
/// belongs to a workspace that is there.
pub proof fn law_pool_stays_sound(before: Model, event: Event, a: Answers)
    requires
        pool_sound(before.workspaces),
        before.workspaces.members.dom().finite(),
    ensures
        match step(before, event, a) {
            Ok(after) => pool_sound(after.workspaces),
            Err(_) => true,
        },
{
    let m = Model { undo_scope: None, ..before };
    match event {
        Event::RecoveryEntryDurable { token, entry_id } => {
            lemma_entry_durable(m, a, token, entry_id);
        },
        Event::HotkeyCaptureStarted => {},
        Event::HotkeyCaptureEnded => {},
        _ => {
            lemma_calm_step(m, event, a);
            assert(step(before, event, a) == step(m, event, a));
        },
    }
}

/// Hotkeys are suspended exactly while a capture is held.
pub open spec fn capture_agrees(m: Model) -> bool {
    m.capture_suspended == (m.capture_holds > 0)
}

/// Every step keeps the suspension in agreement with the captures that are
/// held, so nested captures end with the last of them.
pub proof fn law_capture_agrees(before: Model, event: Event, a: Answers)
    requires
        capture_agrees(before),
    ensures
        match step(before, event, a) {
            Ok(after) => capture_agrees(after),
            Err(_) => true,
        },
{
    let m = Model { undo_scope: None, ..before };
    match event {
        Event::RecoveryEntryDurable { token, entry_id } => {
            lemma_entry_durable(m, a, token, entry_id);
        },
        Event::WorkspaceDeleteRequested { .. } => {
            reveal(Model::on_delete);
        },
        Event::HotkeyCaptureStarted => {},
        Event::HotkeyCaptureEnded => {},
        _ => {
            lemma_calm_step(m, event, a);
            assert(step(before, event, a) == step(m, event, a));
        },
    }
}

/// The engine never invents a workspace, and never loses one: the pool holds
/// the same workspaces under the same names after every event but those that
/// create, delete, declare or load them.
pub proof fn law_no_workspace_is_invented(before: Model, event: Event, a: Answers)
    requires
        !redraws_pool(event),
    ensures
        match step(before, event, a) {
            Ok(after) => names_kept(before.workspaces, after.workspaces),
            Err(_) => true,
        },
{
    let m = Model { undo_scope: None, ..before };
    match event {
        Event::RecoveryEntryDurable { token, entry_id } => {
            lemma_entry_durable(m, a, token, entry_id);
        },
        Event::HotkeyCaptureStarted => {},
        Event::HotkeyCaptureEnded => {},
        _ => {
            lemma_calm_step(m, event, a);
            assert(step(before, event, a) == step(m, event, a));
        },
    }
}

/// Which workspace each display shows changes only by a workspace command, an
/// undo, a load, a new configuration or topology, or the answer that lets a
/// switch commit. A move that failed, above all, never changes it.
pub proof fn law_displayed_assignment_is_kept(before: Model, event: Event, a: Answers)
    requires
        !redraws_pool(event),
        !may_redisplay(event),
    ensures
        match step(before, event, a) {
            Ok(after) => names_kept(before.workspaces, after.workspaces) && displays_kept(
                before.workspaces,
                after.workspaces,
            ),
            Err(_) => true,
        },
{
    let m = Model { undo_scope: None, ..before };
    match event {
        Event::HotkeyCaptureStarted => {},
        Event::HotkeyCaptureEnded => {},
        _ => {
            lemma_calm_step(m, event, a);
            assert(step(before, event, a) == step(m, event, a));
        },
    }
}

/// What is true of every state the engine reaches.
pub open spec fn sound(m: Model) -> bool {
    &&& m.finite()
    &&& m.undo_scope is None
    &&& capture_agrees(m)
    &&& pool_sound(m.workspaces)
}

/// Every step from a sound state that is finite again is sound again.
pub proof fn law_steps_stay_sound(before: Model, event: Event, a: Answers)
    requires
        sound(before),
    ensures
        match step(before, event, a) {
            Ok(after) => after.finite() ==> sound(after),
            Err(_) => true,
        },
{
    law_no_scope_outlives_its_event(before, event, a);
    law_pool_stays_sound(before, event, a);
    law_capture_agrees(before, event, a);
}

} // verus!
