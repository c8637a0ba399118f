//! What the pieces of a step leave alone.

use vstd::prelude::*;

verus! {

use crate::answers::{Answers, ContainerTree, PlannedPlacement, TreeChange};
use crate::geometry::{CycleStep, DisplayId, HorizontalDirection, Rect, WindowId};
use crate::state::{EngineEffect, Intent, Model};
use crate::undo::Scope;
use crate::window::{Display, ManagedWindow, Window, WindowPlacement};
use crate::workspace::{Pool, Workspace};

/// `longer` starts with all of `shorter`.
pub open spec fn extends<T>(shorter: Seq<T>, longer: Seq<T>) -> bool {
    shorter.len() <= longer.len() && forall|i: int|
        0 <= i < shorter.len() ==> #[trigger] longer[i] == shorter[i]
}

/// Whether one of the effects from `start` on parks a window.
pub open spec fn parks_from(effects: Seq<EngineEffect>, start: nat) -> bool {
    exists|k: int| start <= k < effects.len() && (#[trigger] effects[k]) is ParkWindow
}

/// Both logs only grew, the revision did not go back, and no window was told
/// to leave the screen.
pub open spec fn logs_kept(before: Model, after: Model) -> bool {
    &&& before.revision <= after.revision
    &&& extends(before.effects, after.effects)
    &&& extends(before.intents, after.intents)
    &&& !parks_from(after.effects, before.effects.len())
}

/// The same workspaces, displayed in the same places, with the same members
/// and the same stashed trees.
pub open spec fn pool_kept(before: Pool, after: Pool) -> bool {
    &&& after.members == before.members
    &&& after.list.len() == before.list.len()
    &&& forall|i: int|
        0 <= i < before.list.len() ==> (#[trigger] after.list[i]) == (Workspace {
            pending_tree: after.list[i].pending_tree,
            saved: after.list[i].saved,
            ..before.list[i]
        })
}

/// The same windows, though perhaps elsewhere.
pub open spec fn inventory_kept(
    before: Map<isize, ManagedWindow>,
    after: Map<isize, ManagedWindow>,
) -> bool {
    &&& after.dom() == before.dom()
    &&& forall|id: isize| #[trigger]
        before.contains_key(id) ==> after[id] == (ManagedWindow {
            window: Window {
                display_id: after[id].window.display_id,
                bounds: after[id].window.bounds,
                ..before[id].window
            },
            ..before[id]
        })
}

/// A scope opens and closes only where a command says so.
pub open spec fn scope_kept(before: Option<Scope>, after: Option<Scope>) -> bool {
    match (before, after) {
        (None, None) => true,
        (Some(x), Some(y)) => y.command == x.command && y.prior_trees == x.prior_trees
            && y.prior_assignments == x.prior_assignments && extends(x.members, y.members),
        _ => false,
    }
}

/// Every tracked window is still tracked, with the rejections it had; one
/// whose breaker is open is not touched.
pub open spec fn windows_kept(
    before: Map<isize, WindowPlacement>,
    after: Map<isize, WindowPlacement>,
) -> bool {
    forall|id: isize| #[trigger]
        before.contains_key(id) ==> {
            &&& after.contains_key(id)
            &&& after[id].rejection_count == before[id].rejection_count
            &&& (before[id].breaker_open() ==> after[id] == before[id])
        }
}

/// Only what arranging windows is about differs: where windows are, the trees
/// and the visual order. Everything else is as it was.
pub open spec fn only_arranged(before: Model, after: Model) -> bool {
    &&& logs_kept(before, after)
    &&& pool_kept(before.workspaces, after.workspaces)
    &&& inventory_kept(before.inventory, after.inventory)
    &&& scope_kept(before.undo_scope, after.undo_scope)
    &&& windows_kept(before.windows, after.windows)
    &&& after == (Model {
        revision: after.revision,
        effects: after.effects,
        intents: after.intents,
        windows: after.windows,
        inventory: after.inventory,
        undo_scope: after.undo_scope,
        trees: after.trees,
        pending_trees: after.pending_trees,
        saved_trees: after.saved_trees,
        leaf_evidence: after.leaf_evidence,
        constraint_overflow: after.constraint_overflow,
        workspaces: after.workspaces,
        order: after.order,
        deferred: after.deferred,
        ..before
    })
}

pub proof fn lemma_logs_kept_trans(a: Model, b: Model, c: Model)
    requires
        logs_kept(a, b),
        logs_kept(b, c),
    ensures
        logs_kept(a, c),
{
    assert forall|i: int| 0 <= i < a.effects.len() implies #[trigger] c.effects[i] == a.effects[i] by {
        assert(b.effects[i] == a.effects[i]);
    }
    assert forall|i: int| 0 <= i < a.intents.len() implies #[trigger] c.intents[i] == a.intents[i] by {
        assert(b.intents[i] == a.intents[i]);
    }
    if parks_from(c.effects, a.effects.len()) {
        let k = choose|k: int|
            a.effects.len() <= k < c.effects.len() && (#[trigger] c.effects[k]) is ParkWindow;
        if k < b.effects.len() {
            assert(c.effects[k] == b.effects[k]);
            assert(parks_from(b.effects, a.effects.len()));
        } else {
            assert(parks_from(c.effects, b.effects.len()));
        }
    }
}

pub proof fn lemma_only_arranged_trans(a: Model, b: Model, c: Model)
    requires
        only_arranged(a, b),
        only_arranged(b, c),
    ensures
        only_arranged(a, c),
{
    lemma_logs_kept_trans(a, b, c);
    assert forall|i: int| 0 <= i < a.workspaces.list.len() implies (
    #[trigger] c.workspaces.list[i]) == (Workspace {
        pending_tree: c.workspaces.list[i].pending_tree,
        saved: c.workspaces.list[i].saved,
        ..a.workspaces.list[i]
    }) by {
        assert(b.workspaces.list[i] == (Workspace {
            pending_tree: b.workspaces.list[i].pending_tree,
            saved: b.workspaces.list[i].saved,
            ..a.workspaces.list[i]
        }));
    }
    assert forall|id: isize| #[trigger] a.inventory.contains_key(id) implies c.inventory[id] == (
    ManagedWindow {
        window: Window {
            display_id: c.inventory[id].window.display_id,
            bounds: c.inventory[id].window.bounds,
            ..a.inventory[id].window
        },
        ..a.inventory[id]
    }) by {
        assert(b.inventory.contains_key(id));
    }
    assert forall|id: isize| #[trigger] a.windows.contains_key(id) implies c.windows.contains_key(id)
        && c.windows[id].rejection_count == a.windows[id].rejection_count && (
    a.windows[id].breaker_open() ==> c.windows[id] == a.windows[id]) by {
        assert(b.windows.contains_key(id));
    }
    match (a.undo_scope, b.undo_scope, c.undo_scope) {
        (Some(x), Some(y), Some(z)) => {
            assert forall|i: int| 0 <= i < x.members.len() implies #[trigger] z.members[i]
                == x.members[i] by {
                assert(y.members[i] == x.members[i]);
            }
        },
        _ => {},
    }
}

pub proof fn lemma_placed(
    m: Model,
    window_id: WindowId,
    display_id: DisplayId,
    bounds: Rect,
    cycle: Option<(HorizontalDirection, CycleStep)>,
)
    ensures
        only_arranged(m, m.placed(window_id, display_id, bounds, cycle)),
{
    let after = m.placed(window_id, display_id, bounds, cycle);
    if !m.breaker_open(window_id.0) {
        assert(after.inventory.dom() =~= m.inventory.dom());
        assert(!parks_from(after.effects, m.effects.len()));
    }
}

pub proof fn lemma_arranged_at(m: Model, window_id: WindowId, display_id: DisplayId, bounds: Rect)
    ensures
        only_arranged(m, m.arranged_at(window_id, display_id, bounds)),
{
    lemma_placed(m, window_id, display_id, bounds, None);
}

proof fn lemma_tiled(
    m: Model,
    a: Answers,
    windows: Seq<WindowId>,
    cells: Seq<Rect>,
    k: int,
    display_id: DisplayId,
    area: Rect,
)
    ensures
        match m.tiled(a, windows, cells, k, display_id, area) {
            Ok(after) => only_arranged(m, after),
            Err(_) => true,
        },
    decreases windows.len() - k,
{
    if k < windows.len() && k < cells.len() {
        match a.gapped_spec(cells[k], area, m.config.gaps) {
            Ok(bounds) => {
                let next = m.arranged_at(windows[k], display_id, bounds);
                lemma_arranged_at(m, windows[k], display_id, bounds);
                lemma_tiled(next, a, windows, cells, k + 1, display_id, area);
                match next.tiled(a, windows, cells, k + 1, display_id, area) {
                    Ok(after) => {
                        lemma_only_arranged_trans(m, next, after);
                    },
                    Err(_) => {},
                }
            },
            Err(_) => {},
        }
    }
}

proof fn lemma_gridded(m: Model, a: Answers, base: Model, i: int)
    ensures
        match m.gridded(a, base, i) {
            Ok(after) => only_arranged(m, after),
            Err(_) => true,
        },
    decreases base.displays.len() - i,
{
    if i < base.displays.len() {
        let display = base.displays[i];
        let windows = base.active_on(display.id);
        if m.defers(display.id) {
            let next = m.deferred_for(display.id);
            lemma_gridded(next, a, base, i + 1);
            match next.gridded(a, base, i + 1) {
                Ok(after) => {
                    lemma_only_arranged_trans(m, next, after);
                },
                Err(_) => {},
            }
        } else {
            match a.grid_spec(display.work_area, windows.len() as usize) {
                Ok(cells) => {
                    lemma_tiled(m, a, windows, cells, 0, display.id, display.work_area);
                    match m.tiled(a, windows, cells, 0, display.id, display.work_area) {
                        Ok(next) => {
                            lemma_gridded(next, a, base, i + 1);
                            match next.gridded(a, base, i + 1) {
                                Ok(after) => {
                                    lemma_only_arranged_trans(m, next, after);
                                },
                                Err(_) => {},
                            }
                        },
                        Err(_) => {},
                    }
                },
                Err(_) => {},
            }
        }
    }
}

proof fn lemma_balanced(m: Model, a: Answers)
    ensures
        match m.balanced(a) {
            Ok(after) => only_arranged(m, after),
            Err(_) => true,
        },
{
    if m.tiling_active && !m.paused {
        let base = m.unstructured().refreshed();
        lemma_gridded(base, a, base, 0);
        match base.gridded(a, base, 0) {
            Ok(after) => {
                lemma_only_arranged_trans(m, base, after);
            },
            Err(_) => {},
        }
    }
}

proof fn lemma_lifted(m: Model, display_id: DisplayId)
    ensures
        only_arranged(m, m.lifted(display_id)),
{
    reveal(Model::waiting_tree_taken);
    let w = m.without_tree(display_id);
    match w.workspaces.displayed_at(display_id) {
        Some(i) => {
            crate::text::lemma_first_index(w.workspaces.list.len(), w.workspaces.shows(display_id));
        },
        None => {},
    }
}

proof fn lemma_shed(m: Model, a: Answers, departed: Seq<WindowId>, i: int, tree: ContainerTree)
    ensures
        match m.shed(a, departed, i, tree) {
            Ok((after, _)) => only_arranged(m, after),
            Err(_) => true,
        },
    decreases departed.len() - i,
{
    if i < departed.len() {
        let id = departed[i].0;
        let next = Model { leaf_evidence: m.leaf_evidence.remove(id), ..m };
        assert(only_arranged(m, next));
        let change = if m.leaf_evidence.contains_key(id) && !m.inventory.contains_key(id) {
            TreeChange::MakeDormant {
                window_id: departed[i],
                dormant: crate::answers::DormantPosition {
                    evidence: m.leaf_evidence[id],
                    since_unix: a.now_unix,
                },
            }
        } else {
            TreeChange::Remove { window_id: departed[i] }
        };
        match a.changed_spec(tree, change) {
            Ok(left) => {
                lemma_shed(next, a, departed, i + 1, left);
                match next.shed(a, departed, i + 1, left) {
                    Ok((after, _)) => {
                        lemma_only_arranged_trans(m, next, after);
                    },
                    Err(_) => {},
                }
            },
            Err(_) => {},
        }
    }
}

proof fn lemma_reshaped(m: Model, a: Answers, tree: ContainerTree, active: Seq<WindowId>, area: Rect)
    ensures
        match m.reshaped(a, tree, active, area) {
            Ok((after, _)) => only_arranged(m, after),
            Err(_) => true,
        },
{
    reveal(Model::reshaped);
    match a.windows_spec(tree) {
        Ok(present) => {
            lemma_shed(m, a, present.filter(Model::not_in(active)), 0, tree);
        },
        Err(_) => {},
    }
}

proof fn lemma_evidence_refreshed(m: Model, windows: Seq<WindowId>, i: int)
    ensures
        only_arranged(m, m.evidence_refreshed(windows, i)),
    decreases windows.len() - i,
{
    if i < windows.len() {
        let next = match m.evidence(windows[i].0) {
            Some(evidence) => Model {
                leaf_evidence: m.leaf_evidence.insert(windows[i].0, evidence),
                ..m
            },
            None => m,
        };
        assert(only_arranged(m, next));
        lemma_evidence_refreshed(next, windows, i + 1);
        lemma_only_arranged_trans(m, next, m.evidence_refreshed(windows, i));
    }
}

proof fn lemma_tree_saved(m: Model, a: Answers, display_id: DisplayId, tree: ContainerTree)
    ensures
        match m.tree_saved(a, display_id, tree) {
            Ok(after) => only_arranged(m, after),
            Err(_) => true,
        },
{
    reveal(Model::tree_saved);
}

proof fn lemma_arranged_as(
    m: Model,
    placements: Seq<PlannedPlacement>,
    i: int,
    display_id: DisplayId,
)
    ensures
        only_arranged(m, m.arranged_as(placements, i, display_id)),
    decreases placements.len() - i,
{
    if i < placements.len() {
        let next = m.arranged_at(placements[i].window_id, display_id, placements[i].bounds);
        lemma_arranged_at(m, placements[i].window_id, display_id, placements[i].bounds);
        lemma_arranged_as(next, placements, i + 1, display_id);
        lemma_only_arranged_trans(m, next, m.arranged_as(placements, i, display_id));
    }
}

proof fn lemma_tree_laid_out(m: Model, a: Answers, display: Display, tree: ContainerTree)
    ensures
        match m.tree_laid_out(a, display, tree) {
            Ok(after) => only_arranged(m, after),
            Err(_) => true,
        },
{
    reveal(Model::tree_laid_out);
    match m.tree_plan(a, tree, display.work_area) {
        Ok(plan) => {
            let next = Model { trees: m.trees.insert(display.id.0, tree), ..m }.overflowing(
                display.id,
                plan.overflow@,
            );
            assert(only_arranged(m, next));
            lemma_arranged_as(next, plan.placements@, 0, display.id);
            lemma_only_arranged_trans(m, next, next.arranged_as(plan.placements@, 0, display.id));
        },
        Err(_) => {},
    }
}

pub proof fn lemma_tree_reflowed(m: Model, a: Answers, display: Display, active: Seq<WindowId>)
    ensures
        match m.tree_reflowed(a, display, active) {
            Ok(after) => only_arranged(m, after),
            Err(_) => true,
        },
{
    reveal(Model::tree_reflowed);
    let lifted = m.lifted(display.id);
    lemma_lifted(m, display.id);
    match m.starting_tree(a, display.id, active) {
        Err(_) => {},
        Ok(tree) => {
            lemma_reshaped(lifted, a, tree, active, display.work_area);
            match lifted.reshaped(a, tree, active, display.work_area) {
                Err(_) => {},
                Ok((next, tree)) => {
                    lemma_only_arranged_trans(m, lifted, next);
                    match a.windows_spec(tree) {
                        Err(_) => {},
                        Ok(windows) => {
                            let refreshed = next.evidence_refreshed(windows, 0);
                            lemma_evidence_refreshed(next, windows, 0);
                            lemma_only_arranged_trans(m, next, refreshed);
                            lemma_tree_saved(refreshed, a, display.id, tree);
                            match refreshed.tree_saved(a, display.id, tree) {
                                Err(_) => {},
                                Ok(saved) => {
                                    lemma_only_arranged_trans(m, refreshed, saved);
                                    lemma_tree_laid_out(saved, a, display, tree);
                                    match saved.tree_laid_out(a, display, tree) {
                                        Ok(after) => {
                                            lemma_only_arranged_trans(m, saved, after);
                                        },
                                        Err(_) => {},
                                    }
                                },
                            }
                        },
                    }
                },
            }
        },
    }
}

pub proof fn lemma_trees_reflowed(m: Model, a: Answers, base: Model, i: int)
    ensures
        match m.trees_reflowed(a, base, i) {
            Ok(after) => only_arranged(m, after),
            Err(_) => true,
        },
    decreases base.displays.len() - i,
{
    if i < base.displays.len() {
        let display = base.displays[i];
        if m.defers(display.id) {
            let next = m.deferred_for(display.id);
            lemma_trees_reflowed(next, a, base, i + 1);
            match next.trees_reflowed(a, base, i + 1) {
                Ok(after) => {
                    lemma_only_arranged_trans(m, next, after);
                },
                Err(_) => {},
            }
        } else {
            lemma_tree_reflowed(m, a, display, base.active_on(display.id));
            match m.tree_reflowed(a, display, base.active_on(display.id)) {
                Ok(next) => {
                    lemma_trees_reflowed(next, a, base, i + 1);
                    match next.trees_reflowed(a, base, i + 1) {
                        Ok(after) => {
                            lemma_only_arranged_trans(m, next, after);
                        },
                        Err(_) => {},
                    }
                },
                Err(_) => {},
            }
        }
    }
}

pub proof fn lemma_workspaces_persisted(m: Model, a: Answers, i: int)
    ensures
        match m.workspaces_persisted(a, i) {
            Ok(after) => only_arranged(m, after),
            Err(_) => true,
        },
    decreases m.workspaces.list.len() - i,
{
    if 0 <= i < m.workspaces.list.len() {
        let workspace = m.workspaces.list[i];
        if workspace.pending_tree is Some {
            lemma_workspaces_persisted(m, a, i + 1);
        } else {
            match m.persisted(a, i) {
                Err(_) => {},
                Ok(persisted) => {
                    let next = Model {
                        workspaces: m.workspaces.with(
                            i,
                            Workspace { saved: Some(persisted), ..workspace },
                        ),
                        ..m
                    }.intent(Intent::SaveWorkspace(persisted));
                    assert(only_arranged(m, next));
                    lemma_workspaces_persisted(m, a, i + 1);
                    lemma_workspaces_persisted(next, a, i + 1);
                    match next.workspaces_persisted(a, i + 1) {
                        Ok(after) => {
                            lemma_only_arranged_trans(m, next, after);
                        },
                        Err(_) => {},
                    }
                },
            }
        }
    }
}

proof fn lemma_treed(m: Model, a: Answers)
    ensures
        match m.treed(a) {
            Ok(after) => only_arranged(m, after),
            Err(_) => true,
        },
{
    if m.tiling_active && !m.paused {
        let base = m.trees_on_connected().refreshed();
        assert(only_arranged(m, base));
        lemma_trees_reflowed(base, a, base, 0);
        match base.trees_reflowed(a, base, 0) {
            Ok(next) => {
                lemma_only_arranged_trans(m, base, next);
                let kept = next.evidence_kept();
                assert(only_arranged(next, kept));
                lemma_only_arranged_trans(m, next, kept);
                lemma_workspaces_persisted(kept, a, 0);
                match kept.workspaces_persisted(a, 0) {
                    Ok(after) => {
                        lemma_only_arranged_trans(m, kept, after);
                    },
                    Err(_) => {},
                }
            },
            Err(_) => {},
        }
    }
}

/// Arranging windows changes nothing but where windows are, the trees and the
/// visual order. In particular it displays nothing differently, parks nothing
/// and rewrites no log.
pub proof fn lemma_arranged(m: Model, a: Answers)
    ensures
        match m.arranged(a) {
            Ok(after) => only_arranged(m, after),
            Err(_) => true,
        },
{
    reveal(Model::arranged);
    lemma_balanced(m, a);
    lemma_treed(m, a);
}

} // verus!
