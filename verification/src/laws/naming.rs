//! Under what name a command is recorded for its undo.

use vstd::prelude::*;

verus! {

use crate::answers::{Answers, ContainerTree, PlannedPlacement};
use crate::commands::{CommandLabel, ZoneSnapDirection};
use crate::geometry::{DisplayDirection, DisplayId, Rect, WindowId};
use crate::laws::frame::lemma_arranged;
use crate::laws::reflow::{lemma_arranged_as_only, lemma_evidence_refreshed_only, lemma_shed_only};
use crate::state::{Intent, Model};
use crate::window::Display;
use crate::workspace::Workspace;

/// Everything to be written since `before` that is an undo is one of the
/// command `name`.
pub open spec fn recorded_as(before: Model, after: Model, name: Seq<char>) -> bool {
    &&& before.intents.len() <= after.intents.len()
    &&& forall|k: int|
        before.intents.len() <= k < after.intents.len() ==> match #[trigger] after.intents[k] {
            Intent::RecordUndoTransaction(draft) => draft.command == name,
            _ => true,
        }
}

/// Nothing to be written since `before` is an undo.
spec fn unrecorded(before: Model, after: Model) -> bool {
    &&& before.intents.len() <= after.intents.len()
    &&& forall|k: int|
        0 <= k < before.intents.len() ==> #[trigger] after.intents[k] == before.intents[k]
    &&& forall|k: int|
        before.intents.len() <= k < after.intents.len() ==> !(
        #[trigger] after.intents[k] is RecordUndoTransaction)
}

proof fn lemma_unrecorded_both(a: Model, b: Model, c: Model)
    requires
        unrecorded(a, b),
        unrecorded(b, c),
    ensures
        unrecorded(a, c),
{
    assert forall|k: int| 0 <= k < a.intents.len() implies #[trigger] c.intents[k]
        == a.intents[k] by {
        assert(b.intents[k] == a.intents[k]);
    }
    assert forall|k: int| a.intents.len() <= k < c.intents.len() implies !(
    #[trigger] c.intents[k] is RecordUndoTransaction) by {
        if k < b.intents.len() {
            assert(c.intents[k] == b.intents[k]);
        }
    }
}

proof fn lemma_tiled_unrecorded(
    m: Model,
    a: Answers,
    windows: Seq<WindowId>,
    cells: Seq<Rect>,
    i: int,
    display_id: DisplayId,
    area: Rect,
)
    ensures
        match m.tiled(a, windows, cells, i, display_id, area) {
            Ok(after) => after.intents == m.intents,
            Err(_) => true,
        },
    decreases windows.len() - i,
{
    if i < windows.len() && i < cells.len() {
        match a.gapped_spec(cells[i], area, m.config.gaps) {
            Ok(bounds) => {
                let next = m.arranged_at(windows[i], display_id, bounds);
                lemma_tiled_unrecorded(next, a, windows, cells, i + 1, display_id, area);
            },
            Err(_) => {},
        }
    }
}

proof fn lemma_gridded_unrecorded(m: Model, a: Answers, base: Model, i: int)
    requires
        0 <= i <= base.displays.len(),
    ensures
        match m.gridded(a, base, i) {
            Ok(after) => after.intents == m.intents,
            Err(_) => true,
        },
    decreases base.displays.len() - i,
{
    if i < base.displays.len() {
        let display = base.displays[i];
        if m.defers(display.id) {
            lemma_gridded_unrecorded(m.deferred_for(display.id), a, base, i + 1);
        } else {
            let windows = base.active_on(display.id);
            match a.grid_spec(display.work_area, windows.len() as usize) {
                Ok(cells) => {
                    lemma_tiled_unrecorded(
                        m,
                        a,
                        windows,
                        cells,
                        0,
                        display.id,
                        display.work_area,
                    );
                    match m.tiled(a, windows, cells, 0, display.id, display.work_area) {
                        Ok(next) => {
                            lemma_gridded_unrecorded(next, a, base, i + 1);
                        },
                        Err(_) => {},
                    }
                },
                Err(_) => {},
            }
        }
    }
}

proof fn lemma_laid_out_unrecorded(m: Model, a: Answers, display: Display, tree: ContainerTree)
    ensures
        match m.tree_laid_out(a, display, tree) {
            Ok(after) => after.intents == m.intents,
            Err(_) => true,
        },
{
    reveal(Model::tree_laid_out);
    match m.tree_laid_out(a, display, tree) {
        Err(_) => {},
        Ok(_) => {
            let windows = a.windows_spec(tree)->Ok_0;
            let plan = a.plan_spec(
                tree,
                display.work_area,
                m.config.gaps,
                m.minimums(windows),
            )->Ok_0;
            let held = Model { trees: m.trees.insert(display.id.0, tree), ..m }.overflowing(
                display.id,
                plan.overflow@,
            );
            lemma_arranged_as_only(held, plan.placements@, 0, display.id);
        },
    }
}

proof fn lemma_reflowed_unrecorded(
    m: Model,
    a: Answers,
    display: Display,
    active: Seq<WindowId>,
)
    ensures
        match m.tree_reflowed(a, display, active) {
            Ok(after) => unrecorded(m, after),
            Err(_) => true,
        },
{
    reveal(Model::tree_reflowed);
    reveal(Model::waiting_tree_taken);
    reveal(Model::reshaped);
    reveal(Model::tree_saved);
    let lifted = m.lifted(display.id);
    assert(lifted.intents == m.intents);
    match m.starting_tree(a, display.id, active) {
        Err(_) => {},
        Ok(tree) => {
            match a.windows_spec(tree) {
                Err(_) => {},
                Ok(present) => {
                    lemma_shed_only(lifted, a, present.filter(Model::not_in(active)), 0, tree);
                },
            }
            match lifted.reshaped(a, tree, active, display.work_area) {
                Err(_) => {},
                Ok((next, grown)) => {
                    assert(next.intents == m.intents);
                    match a.windows_spec(grown) {
                        Err(_) => {},
                        Ok(windows) => {
                            lemma_evidence_refreshed_only(next, windows, 0);
                            let fresh = next.evidence_refreshed(windows, 0);
                            match fresh.tree_saved(a, display.id, grown) {
                                Err(_) => {},
                                Ok(saved) => {
                                    assert(unrecorded(m, saved));
                                    lemma_laid_out_unrecorded(saved, a, display, grown);
                                },
                            }
                        },
                    }
                },
            }
        },
    }
}

proof fn lemma_all_reflowed_unrecorded(m: Model, a: Answers, base: Model, i: int)
    requires
        0 <= i <= base.displays.len(),
    ensures
        match m.trees_reflowed(a, base, i) {
            Ok(after) => unrecorded(m, after),
            Err(_) => true,
        },
    decreases base.displays.len() - i,
{
    if i < base.displays.len() {
        let display = base.displays[i];
        if m.defers(display.id) {
            lemma_all_reflowed_unrecorded(m.deferred_for(display.id), a, base, i + 1);
        } else {
            let active = base.active_on(display.id);
            lemma_reflowed_unrecorded(m, a, display, active);
            match m.tree_reflowed(a, display, active) {
                Err(_) => {},
                Ok(next) => {
                    lemma_all_reflowed_unrecorded(next, a, base, i + 1);
                    match next.trees_reflowed(a, base, i + 1) {
                        Ok(after) => {
                            lemma_unrecorded_both(m, next, after);
                        },
                        Err(_) => {},
                    }
                },
            }
        }
    }
}

proof fn lemma_persisted_unrecorded(m: Model, a: Answers, i: int)
    ensures
        match m.workspaces_persisted(a, i) {
            Ok(after) => unrecorded(m, after),
            Err(_) => true,
        },
    decreases m.workspaces.list.len() - i,
{
    if 0 <= i < m.workspaces.list.len() {
        let workspace = m.workspaces.list[i];
        if workspace.pending_tree is Some {
            lemma_persisted_unrecorded(m, a, i + 1);
        } else {
            match m.persisted(a, i) {
                Err(_) => {},
                Ok(persisted) => {
                    let next = Model {
                        workspaces: m.workspaces.with(
                            i,
                            Workspace { saved: Some(persisted), ..workspace },
                        ),
                        ..m
                    }.intent(Intent::SaveWorkspace(persisted));
                    assert(unrecorded(m, next));
                    lemma_persisted_unrecorded(m, a, i + 1);
                    lemma_persisted_unrecorded(next, a, i + 1);
                    match next.workspaces_persisted(a, i + 1) {
                        Ok(after) => {
                            lemma_unrecorded_both(m, next, after);
                        },
                        Err(_) => {},
                    }
                },
            }
        }
    }
}

proof fn lemma_arranged_unrecorded(m: Model, a: Answers)
    ensures
        match m.arranged(a) {
            Ok(after) => unrecorded(m, after),
            Err(_) => true,
        },
{
    reveal(Model::arranged);
    if m.tiling_active && !m.paused {
        let grid = m.unstructured().refreshed();
        lemma_gridded_unrecorded(grid, a, grid, 0);
        let base = m.trees_on_connected().refreshed();
        lemma_all_reflowed_unrecorded(base, a, base, 0);
        match base.trees_reflowed(a, base, 0) {
            Ok(next) => {
                let kept = next.evidence_kept();
                lemma_persisted_unrecorded(kept, a, 0);
                match kept.workspaces_persisted(a, 0) {
                    Ok(after) => {
                        assert(unrecorded(base, kept));
                        lemma_unrecorded_both(base, kept, after);
                    },
                    Err(_) => {},
                }
            },
            Err(_) => {},
        }
    }
}

/// What a scope that is closed records is under the name it was opened with.
proof fn lemma_closed_as(before: Model, m: Model, a: Answers, label: CommandLabel)
    requires
        unrecorded(before, m),
        m.undo_scope matches Some(scope) && scope.command == label,
    ensures
        match m.scope_closed(a) {
            Ok(after) => recorded_as(before, after, label.spelled()),
            Err(_) => true,
        },
{
    reveal(Model::scope_closed);
}

proof fn lemma_arranged_closed_as(before: Model, m: Model, a: Answers, label: CommandLabel)
    requires
        m.intents == before.intents,
        m.undo_scope matches Some(scope) && scope.command == label,
    ensures
        match m.arranged(a) {
            Ok(next) => {
                &&& unrecorded(before, next)
                &&& (next.undo_scope matches Some(scope) && scope.command == label)
            },
            Err(_) => true,
        },
        match m.arranged_closed(a) {
            Ok(after) => recorded_as(before, after, label.spelled()),
            Err(_) => true,
        },
{
    lemma_arranged(m, a);
    lemma_arranged_unrecorded(m, a);
    match m.arranged(a) {
        Ok(next) => {
            assert(unrecorded(before, next));
            lemma_closed_as(before, next.revised(), a, label);
        },
        Err(_) => {},
    }
}

/// Toggling tiling or floating is recorded under the name of the toggle.
pub proof fn law_toggles_are_recorded_by_name(m: Model, a: Answers)
    ensures
        match m.on_toggle_tiling(a) {
            Ok(after) => recorded_as(m, after, "toggle-automatic-tiling"@),
            Err(_) => true,
        },
        match m.on_toggle_floating(a) {
            Ok(after) => recorded_as(m, after, "toggle-floating"@),
            Err(_) => true,
        },
{
    reveal(Model::on_toggle_tiling);
    reveal(Model::on_toggle_floating);
    let toggled = Model {
        tiling_suspended: !m.tiling_suspended,
        tiling_active: m.tiling_suspended,
        ..m
    }.scope_opened(CommandLabel::ToggleAutomaticTiling);
    lemma_arranged_closed_as(m, toggled, a, CommandLabel::ToggleAutomaticTiling);
    lemma_closed_as(m, toggled.revised(), a, CommandLabel::ToggleAutomaticTiling);
    match m.focused_window {
        Some(window_id) => {
            let floating = m.scope_opened(CommandLabel::ToggleFloating).floating_toggled(
                window_id,
            );
            lemma_arranged_closed_as(m, floating, a, CommandLabel::ToggleFloating);
        },
        None => {},
    }
}

/// A throw is recorded under the way it went.
pub proof fn law_throws_are_recorded_by_name(
    m: Model,
    a: Answers,
    window_id: WindowId,
    direction: DisplayDirection,
)
    ensures
        match m.on_throw(a, window_id, direction) {
            Ok(after) => recorded_as(
                m,
                after,
                match direction {
                    DisplayDirection::Next => "throw-next-display"@,
                    DisplayDirection::Prev => "throw-previous-display"@,
                },
            ),
            Err(_) => true,
        },
{
    reveal(Model::on_throw);
    reveal(Model::thrown);
    reveal(Model::arranged_placing);
    let label = CommandLabel::Throw(direction);
    let placement = m.windows[window_id.0];
    match a.adjacent_spec(m.displays, placement.display_id, direction) {
        Ok(Some(to)) => {
            match (
                crate::topology::work_area(m.displays, placement.display_id),
                crate::topology::work_area(m.displays, to),
            ) {
                (Some(from_area), Some(to_area)) => {
                    match a.thrown_spec(placement.bounds, from_area, to_area) {
                        Err(_) => {},
                        Ok(bounds) => {
                            let opened = m.scope_opened(label);
                            let moved = opened.relisted(
                                window_id,
                                placement.display_id,
                                to,
                            ).placement_set(
                                window_id.0,
                                crate::window::WindowPlacement {
                                    display_id: to,
                                    bounds,
                                    ..placement
                                },
                            ).inventory_moved(window_id, to, bounds).member_recorded(
                                window_id,
                                Some((placement.display_id, placement.bounds)),
                            );
                            assert(moved.intents == m.intents);
                            lemma_arranged_closed_as(m, moved, a, label);
                            match moved.arranged(a) {
                                Ok(next) => {
                                    lemma_closed_as(m, next.revised(), a, label);
                                    let told = next.effect(
                                        crate::state::EngineEffect::PlaceWindow {
                                            window_id,
                                            display_id: next.windows[window_id.0].display_id,
                                            bounds: next.windows[window_id.0].bounds,
                                        },
                                    );
                                    assert(unrecorded(m, told));
                                    lemma_closed_as(m, told.revised(), a, label);
                                },
                                Err(_) => {},
                            }
                            let placed = opened.placed(window_id, to, bounds, None);
                            assert(unrecorded(m, placed));
                            lemma_closed_as(m, placed, a, label);
                        },
                    }
                },
                _ => {},
            }
        },
        _ => {},
    }
}

/// A snap is recorded under the side it went to.
pub proof fn law_snaps_are_recorded_by_name(m: Model, a: Answers, direction: ZoneSnapDirection)
    ensures
        match m.on_zone_snap(a, direction) {
            Ok(after) => recorded_as(
                m,
                after,
                match direction {
                    ZoneSnapDirection::Left => "snap-left"@,
                    ZoneSnapDirection::Right => "snap-right"@,
                    ZoneSnapDirection::Top => "snap-top"@,
                    ZoneSnapDirection::Bottom => "snap-bottom"@,
                },
            ),
            Err(_) => true,
        },
{
    reveal(Model::on_zone_snap);
    match m.focused_window {
        Some(window_id) => {
            let area = crate::topology::work_area(
                m.displays,
                m.windows[window_id.0].display_id,
            )->0;
            let (zone, _) = m.snap_zone(window_id.0, direction);
            let raw = a.zone_spec(area, zone)->Ok_0;
            let bounds = a.gapped_spec(raw, area, m.config.gaps)->Ok_0;
            lemma_snapped_as(m, a, window_id, direction, bounds);
        },
        None => {},
    }
}

proof fn lemma_snapped_as(
    m: Model,
    a: Answers,
    window_id: WindowId,
    direction: ZoneSnapDirection,
    bounds: Rect,
)
    ensures
        match m.snapped(a, window_id, direction, bounds) {
            Ok(after) => recorded_as(m, after, CommandLabel::ZoneSnap(direction).spelled()),
            Err(_) => true,
        },
{
    reveal(Model::snapped);
    let label = CommandLabel::ZoneSnap(direction);
    let placement = m.windows[window_id.0];
    let (_, cycle) = m.snap_zone(window_id.0, direction);
    let placed = m.placement_set(
        window_id.0,
        crate::window::WindowPlacement { rejection_count: 0, ..placement },
    ).scope_opened(label).placed(window_id, placement.display_id, bounds, cycle);
    assert(placed.intents == m.intents);
    let floating = placed.session_float(window_id, true);
    lemma_arranged_closed_as(m, floating, a, label);
    match floating.arranged(a) {
        Ok(next) => {
            lemma_closed_as(m, next, a, label);
        },
        Err(_) => {},
    }
    lemma_closed_as(m, placed, a, label);
}

proof fn lemma_placed_unrecorded(
    m: Model,
    placements: Seq<PlannedPlacement>,
    display_id: DisplayId,
    i: int,
    done: Seq<WindowId>,
    label: CommandLabel,
)
    requires
        m.undo_scope matches Some(scope) && scope.command == label,
    ensures
        ({
            let (after, _) = m.layout_placed(placements, display_id, i, done);
            after.intents == m.intents && (after.undo_scope matches Some(scope) && scope.command
                == label)
        }),
    decreases placements.len() - i,
{
    if i < placements.len() {
        let window_id = placements[i].window_id;
        let next = m.placed(window_id, display_id, placements[i].bounds, None);
        let more = if m.breaker_open(window_id.0) {
            done
        } else {
            done.push(window_id)
        };
        lemma_placed_unrecorded(next, placements, display_id, i + 1, more, label);
    }
}

proof fn lemma_floated_unrecorded(m: Model, windows: Seq<WindowId>, i: int)
    ensures
        m.all_floated(windows, i).intents == m.intents,
        m.all_floated(windows, i).undo_scope == m.undo_scope,
    decreases windows.len() - i,
{
    if i < windows.len() {
        lemma_floated_unrecorded(m.session_float(windows[i], true), windows, i + 1);
    }
}

/// A saved layout is recorded under its own name.
pub proof fn law_layouts_are_recorded_by_name(m: Model, a: Answers, name: String)
    ensures
        match m.on_layout(a, name) {
            Ok(after) => recorded_as(m, after, "apply-layout "@ + name@),
            Err(_) => true,
        },
{
    reveal(Model::on_layout);
    reveal(Model::layout_finished);
    let label = CommandLabel::ApplyLayout(name);
    match m.layout_plan(a, name) {
        Ok(Ok(plan)) => {
            let opened = m.scope_opened(label);
            lemma_placed_unrecorded(
                opened,
                plan.placements,
                plan.display_id,
                0,
                Seq::empty(),
                label,
            );
            let (next, placed) = opened.layout_placed(
                plan.placements,
                plan.display_id,
                0,
                Seq::empty(),
            );
            lemma_closed_as(m, next, a, label);
            let noted = Model {
                last_applied_layouts: next.last_applied_layouts.insert(plan.display_id.0, name),
                ..next
            };
            lemma_closed_as(m, noted, a, label);
            lemma_floated_unrecorded(noted, placed, 0);
            let floated = noted.all_floated(placed, 0);
            lemma_arranged_closed_as(m, floated, a, label);
            match floated.arranged(a) {
                Ok(done) => {
                    lemma_closed_as(m, done, a, label);
                },
                Err(_) => {},
            }
        },
        _ => {},
    }
}

} // verus!
