//! One event, one step.

use vstd::prelude::*;

verus! {

use crate::answers::{Answers, Query, Question};
use crate::event::Event;
use crate::initial::confirm_finite;
use crate::laws::every_step::law_every_change_is_revised;
use crate::laws::steady::unnoticed;
use crate::outcome::seen;
use crate::placement::reached;
use crate::state::{EngineEffect, EngineState, Model};

/// The state an event leads to, or the first question whose answer was
/// missing.
pub open spec fn step(before: Model, event: Event, a: Answers) -> Result<Model, Query> {
    let model = Model { undo_scope: None, ..before };
    match event {
        Event::PersistenceHealthChanged(health) => Ok(model.on_health(health)),
        Event::UndoHistoryLoaded(transaction) => Ok(model.on_history_loaded(seen(transaction))),
        Event::ContainerTreesLoaded(trees) => model.on_trees_loaded(a, trees@),
        Event::WorkspacesLoaded(stored) => model.on_workspaces_loaded(a, stored@),
        Event::WorkspaceCreateRequested { name } => model.on_create(a, name),
        Event::WorkspaceDeleteRequested { name } => model.on_delete(a, name),
        Event::WorkspaceFocusRequested { name } => model.on_workspace_focus(a, name),
        Event::WorkspaceMoveRequested { name, display_id } => model.on_workspace_move(
            a,
            name,
            display_id,
        ),
        Event::ParkingCapabilityReported(capability) => Ok(model.on_capability(capability)),
        Event::ParkingAuthorizationRequested { window_id } => Ok(
            model.on_parking_requested(window_id, a.now_unix),
        ),
        Event::RecoveryEntryDurable { token, entry_id } => model.on_entry_durable(
            a,
            token,
            entry_id,
        ),
        Event::RecoveryEntryRefused { token } => Ok(model.on_entry_refused(token, a.now_unix)),
        Event::WindowParked { window_id, entry_id } => model.on_parked(a, window_id, entry_id),
        Event::WindowParkFailed { window_id, entry_id, reason } => model.on_park_failed(
            a,
            window_id,
            entry_id,
            reason,
        ),
        Event::WindowRestored { window_id } => model.on_restored(a, window_id),
        Event::WindowRestoreFailed { window_id, entry_id, reason } => model.on_restore_failed(
            a,
            window_id,
            entry_id,
            reason,
        ),
        Event::WorkspaceSwitchRestoreRequested => Ok(model.on_switch_restore(a.now_unix)),
        Event::RestoreParkedWindowsRequested => Ok(model.on_restore_all()),
        Event::RecoveryReported(outcomes) => Ok(
            Model { recovery_outcomes: outcomes@, ..model }.revised(),
        ),
        Event::UndoRequested => model.on_undo(a),
        Event::DisplayTopologyChanged { displays, topology } => model.on_topology(
            a,
            displays@,
            topology,
        ),
        Event::WindowPlaced { window_id, display_id, bounds } => model.on_window_placed(
            a,
            window_id,
            display_id,
            bounds,
        ),
        Event::WindowRestoreRequested { window_id } => model.on_restore_requested(a, window_id),
        Event::WindowThrowToDisplayRequested { window_id, direction } => model.on_throw(
            a,
            window_id,
            direction,
        ),
        Event::WindowFocused { window_id, display_id, bounds } => Ok(
            model.on_focused(window_id, display_id, bounds),
        ),
        Event::DesktopFocused => Ok(model.on_desktop_focused()),
        Event::FocusDisplayRequested { display_id } => Ok(model.on_focus_display(display_id)),
        Event::ZoneSnapRequested { direction } => model.on_zone_snap(a, direction),
        Event::WindowBoundsObserved { window_id, display_id, bounds } => Ok(
            model.on_bounds_observed(window_id, display_id, bounds),
        ),
        Event::ConfigChanged(set) => model.on_config(a, set@),
        Event::PauseRequested => Ok(model.on_pause()),
        Event::ResumeRequested => model.on_resume(a),
        Event::ToggleAutomaticTilingRequested => model.on_toggle_tiling(a),
        Event::ToggleFloatingRequested => model.on_toggle_floating(a),
        Event::DirectionalFocusRequested { direction } => model.on_directional_focus(a, direction),
        Event::DirectionalSwapRequested { direction } => model.on_swap(a, direction),
        Event::TreePositionRemoveRequested { display_id, position } => model.on_remove_position(
            a,
            display_id,
            position,
        ),
        Event::TreeResizeRequested { direction } => model.on_resize(a, direction),
        Event::InteractivePlacementStarted { window_id } => Ok(model.on_drag_started(window_id)),
        Event::InteractivePlacementEnded { window_id, committed_manual_placement } =>
            model.on_drag_ended(a, window_id, committed_manual_placement),
        Event::StartupReconciliation { windows } => Ok(model.on_startup(windows@)),
        Event::WakeReconciliation { displays, topology, windows } => model.on_wake(
            a,
            displays@,
            topology,
            match windows {
                Some(list) => Some(list@),
                None => None,
            },
        ),
        Event::PlacementRejected { window_id } => model.on_rejected(a, window_id),
        Event::PlacementAccepted { window_id } => Ok(model.on_accepted(window_id)),
        Event::RearrangeRequested => Ok(model.effect(EngineEffect::ReconcileWindows).revised()),
        Event::RearrangeReconciliationComplete { windows } => model.on_rearranged(a, windows@),
        Event::WindowsObserved { windows } => model.on_observed(a, windows@),
        Event::RulesChanged { rules } => model.on_rules(a, rules),
        Event::SavedLayoutApplyRequested { name } => model.on_layout(a, name),
        Event::HotkeyCaptureStarted => Ok(model.on_capture_started()),
        Event::HotkeyCaptureEnded => Ok(model.on_capture_ended()),
        Event::HotkeyRegistrationReported { unregistered } => Ok(model.on_bindings(unregistered@)),
    }
}

/// Applies one event to `state`.
///
/// Where an answer the step needs is missing, the question comes back and
/// the state is to be discarded: the caller keeps the state it had, finds the
/// answer and applies the event again.
pub fn apply(state: &mut EngineState, event: Event, a: &Answers) -> (reply: Result<(), Question>)
    ensures
        reached(reply, final(state)@, step(old(state)@, event, *a)),
        reply is Ok ==> old(state).revision <= final(state).revision,
        reply is Ok && old(state).revision < u64::MAX && !unnoticed(old(state)@, final(state)@)
            ==> old(state).revision < final(state).revision,
{
    confirm_finite(state);
    proof {
        law_every_change_is_revised(state@, event, *a);
    }
    // An undo scope never outlives the event that opened it.
    state.undo_scope = None;
    match event {
        Event::PersistenceHealthChanged(health) => {
            state.health_changed(health);
            Ok(())
        },
        Event::UndoHistoryLoaded(transaction) => {
            state.history_loaded(transaction);
            Ok(())
        },
        Event::ContainerTreesLoaded(trees) => state.trees_loaded(a, trees),
        Event::WorkspacesLoaded(stored) => state.workspaces_loaded(a, &stored),
        Event::WorkspaceCreateRequested { name } => state.workspace_create(a, &name),
        Event::WorkspaceDeleteRequested { name } => state.workspace_delete(a, &name),
        Event::WorkspaceFocusRequested { name } => state.workspace_focus(a, &name),
        Event::WorkspaceMoveRequested { name, display_id } => state.workspace_move(
            a,
            &name,
            display_id,
        ),
        Event::ParkingCapabilityReported(capability) => {
            state.capability_reported(capability);
            Ok(())
        },
        Event::ParkingAuthorizationRequested { window_id } => {
            state.parking_requested(window_id, a.now_unix);
            Ok(())
        },
        Event::RecoveryEntryDurable { token, entry_id } => state.entry_durable(a, token, entry_id),
        Event::RecoveryEntryRefused { token } => {
            state.entry_refused(token, a.now_unix);
            Ok(())
        },
        Event::WindowParked { window_id, entry_id } => state.window_parked(a, window_id, entry_id),
        Event::WindowParkFailed { window_id, entry_id, reason } => state.park_failed(
            a,
            window_id,
            entry_id,
            reason,
        ),
        Event::WindowRestored { window_id } => state.window_restored(a, window_id),
        Event::WindowRestoreFailed { window_id, entry_id, reason } => state.restore_failed(
            a,
            window_id,
            entry_id,
            reason,
        ),
        Event::WorkspaceSwitchRestoreRequested => {
            state.switch_restore(a.now_unix);
            Ok(())
        },
        Event::RestoreParkedWindowsRequested => {
            state.restore_all();
            Ok(())
        },
        Event::RecoveryReported(outcomes) => {
            state.recovery_outcomes = outcomes;
            state.revise();
            Ok(())
        },
        Event::UndoRequested => state.undo(a),
        Event::DisplayTopologyChanged { displays, topology } => state.topology_changed(
            a,
            displays,
            topology,
        ),
        Event::WindowPlaced { window_id, display_id, bounds } => state.window_placed(
            a,
            window_id,
            display_id,
            bounds,
        ),
        Event::WindowRestoreRequested { window_id } => state.restore_requested(a, window_id),
        Event::WindowThrowToDisplayRequested { window_id, direction } => state.throw_requested(
            a,
            window_id,
            direction,
        ),
        Event::WindowFocused { window_id, display_id, bounds } => {
            state.window_focused(window_id, display_id, bounds);
            Ok(())
        },
        Event::DesktopFocused => {
            state.desktop_focused();
            Ok(())
        },
        Event::FocusDisplayRequested { display_id } => {
            state.focus_display(display_id);
            Ok(())
        },
        Event::ZoneSnapRequested { direction } => state.zone_snap(a, direction),
        Event::WindowBoundsObserved { window_id, display_id, bounds } => {
            state.bounds_observed(window_id, display_id, bounds);
            Ok(())
        },
        Event::ConfigChanged(set) => state.config_changed(a, set),
        Event::PauseRequested => {
            state.pause();
            Ok(())
        },
        Event::ResumeRequested => state.resume(a),
        Event::ToggleAutomaticTilingRequested => state.toggle_tiling(a),
        Event::ToggleFloatingRequested => state.toggle_floating(a),
        Event::DirectionalFocusRequested { direction } => state.directional_focus(a, direction),
        Event::DirectionalSwapRequested { direction } => state.directional_swap(a, direction),
        Event::TreePositionRemoveRequested { display_id, position } => state.remove_position(
            a,
            display_id,
            position,
        ),
        Event::TreeResizeRequested { direction } => state.tree_resize(a, direction),
        Event::InteractivePlacementStarted { window_id } => {
            state.drag_started(window_id);
            Ok(())
        },
        Event::InteractivePlacementEnded { window_id, committed_manual_placement } =>
            state.drag_ended(a, window_id, committed_manual_placement),
        Event::StartupReconciliation { windows } => {
            state.startup(&windows);
            Ok(())
        },
        Event::WakeReconciliation { displays, topology, windows } => state.wake_reconciled(
            a,
            displays,
            topology,
            windows,
        ),
        Event::PlacementRejected { window_id } => state.placement_rejected(a, window_id),
        Event::PlacementAccepted { window_id } => {
            state.placement_accepted(window_id);
            Ok(())
        },
        Event::RearrangeRequested => {
            state.emit(EngineEffect::ReconcileWindows);
            state.revise();
            Ok(())
        },
        Event::RearrangeReconciliationComplete { windows } => state.rearranged(a, &windows),
        Event::WindowsObserved { windows } => state.windows_observed(a, &windows),
        Event::RulesChanged { rules } => state.rules_changed(a, rules),
        Event::SavedLayoutApplyRequested { name } => state.apply_layout(a, name),
        Event::HotkeyCaptureStarted => {
            state.capture_started();
            Ok(())
        },
        Event::HotkeyCaptureEnded => {
            state.capture_ended();
            Ok(())
        },
        Event::HotkeyRegistrationReported { unregistered } => {
            state.bindings_reported(unregistered);
            Ok(())
        },
    }
}

} // verus!
