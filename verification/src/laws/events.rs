//! What every event keeps, one event at a time.

use vstd::prelude::*;

verus! {

use crate::answers::{Answers, PlannedPlacement, Query, RuleBook, TreeChange};
use crate::laws::commands::lemma_startup_again;
use crate::laws::repeats::lemma_unstirred;
use crate::laws::parts::{
    lemma_calm_focus_migrated, lemma_calm_observed, lemma_calm_orphans_migrated,
    lemma_steady_member_recorded,
};
use crate::commands::{CommandLabel, ZoneSnapDirection};
use crate::config::{same_config_set, ConfigSet};
use crate::event::ObservedPlacement;
use crate::geometry::{CardinalDirection, DisplayDirection, DisplayId, Rect, WindowId};
use crate::state::{EngineEffect, Listed, Model};
use crate::laws::steady::{
    calm, calm_or_asked, counted, kept, lemma_sound_focused, lemma_steady_arranged,
    lemma_steady_arranged_closed, lemma_steady_arranged_revised, lemma_steady_displays_filled,
    lemma_steady_hidden_reconciled, lemma_steady_mapping_applied, lemma_steady_persisted,
    lemma_steady_placed, lemma_steady_pool_synced, lemma_steady_scope_closed,
    lemma_steady_unassigned_assigned, lemma_steady_vanished_hidden, lemma_then, lemma_trans,
    lemma_unnoticed_same, loose, loose_or_asked, marked, pool_sound, tame_or_asked, unnoticed,
};
use crate::text::{first_index, lemma_first_index};
use crate::window::{same_displays, Display, Window, WindowPlacement};

/// A scope opened on the way is closed again: what was gathered in it ends
/// with the event.
proof fn lemma_calm_closed(m: Model, open: Model, after: Result<Model, Query>)
    requires
        kept(m, open),
        match after {
            Ok(next) => kept(open, next) && next.undo_scope is None,
            Err(_) => true,
        },
    ensures
        calm_or_asked(m, after),
{
    match after {
        Ok(next) => {
            lemma_trans(m, open, next);
        },
        Err(_) => {},
    }
}

pub proof fn lemma_calm_window_placed(
    m: Model,
    a: Answers,
    window_id: WindowId,
    display_id: DisplayId,
    bounds: Rect,
)
    ensures
        calm_or_asked(m, m.on_window_placed(a, window_id, display_id, bounds)),
        marked(m, m.on_window_placed(a, window_id, display_id, bounds)),
{
    reveal(Model::on_window_placed);
    let floated = if m.tiling_active {
        m.session_float(window_id, true)
    } else {
        m
    };
    assert(calm(m, floated));
    let placed = floated.placed(window_id, display_id, bounds, None);
    lemma_steady_placed(floated, window_id, display_id, bounds, None);
    lemma_trans(m, floated, placed);
    lemma_steady_arranged(placed, a);
    lemma_then(m, placed, placed.arranged(a));
    match placed.arranged(a) {
        Ok(next) => {
            assert(calm(next, next.revised()));
            lemma_trans(m, next, next.revised());
        },
        Err(_) => {},
    }
    if !m.tiling_active && m.breaker_open(window_id.0) {
        reveal(Model::arranged);
        reveal(Model::balanced);
        reveal(Model::treed);
    }
}

pub proof fn lemma_calm_restore_requested(m: Model, a: Answers, window_id: WindowId)
    ensures
        calm_or_asked(m, m.on_restore_requested(a, window_id)),
        marked(m, m.on_restore_requested(a, window_id)),
{
    reveal(Model::on_restore_requested);
    if m.windows.contains_key(window_id.0) {
        let placement = m.windows[window_id.0];
        match placement.previous_placement {
            None => {},
            Some((display_id, bounds)) => {
                let opened = m.placement_set(
                    window_id.0,
                    WindowPlacement {
                        display_id,
                        bounds,
                        previous_placement: None,
                        ..placement
                    },
                ).inventory_moved(window_id, display_id, bounds).scope_opened(
                    CommandLabel::Restore,
                );
                assert(kept(m, opened));
                let previous = Some((placement.display_id, placement.bounds));
                let recorded = opened.member_recorded(window_id, previous);
                lemma_steady_member_recorded(opened, window_id, previous);
                lemma_trans(m, opened, recorded);
                let told = recorded.effect(
                    EngineEffect::PlaceWindow { window_id, display_id, bounds },
                ).revised();
                assert(kept(recorded, told));
                lemma_trans(m, recorded, told);
                lemma_steady_scope_closed(told, a);
                lemma_calm_closed(m, told, told.scope_closed(a));
            },
        }
    }
}

pub proof fn lemma_calm_thrown(
    m: Model,
    a: Answers,
    window_id: WindowId,
    direction: DisplayDirection,
    to: DisplayId,
    bounds: Rect,
)
    ensures
        calm_or_asked(m, m.thrown(a, window_id, direction, to, bounds)),
        marked(m, m.thrown(a, window_id, direction, to, bounds)),
{
    reveal(Model::thrown);
    let placement = m.windows[window_id.0];
    let opened = m.scope_opened(CommandLabel::Throw(direction));
    assert(kept(m, opened));
    let moved = opened.relisted(window_id, placement.display_id, to).placement_set(
        window_id.0,
        WindowPlacement { display_id: to, bounds, ..placement },
    ).inventory_moved(window_id, to, bounds);
    assert(kept(m, moved));
    let previous = Some((placement.display_id, placement.bounds));
    let recorded = moved.member_recorded(window_id, previous);
    lemma_steady_member_recorded(moved, window_id, previous);
    lemma_trans(m, moved, recorded);
    lemma_steady_arranged_placing(recorded, a, window_id);
    lemma_steady_arranged(recorded, a);
    let reply = if m.breaker_open(window_id.0) {
        recorded.arranged(a)
    } else {
        recorded.arranged_placing(a, window_id)
    };
    match reply {
        Ok(next) => {
            lemma_trans(m, recorded, next);
            assert(kept(next, next.revised()));
            lemma_trans(m, next, next.revised());
            lemma_steady_scope_closed(next.revised(), a);
            lemma_calm_closed(m, next.revised(), next.revised().scope_closed(a));
        },
        Err(_) => {},
    }
    let placed = opened.placed(window_id, to, bounds, None);
    lemma_steady_placed(opened, window_id, to, bounds, None);
    lemma_trans(m, opened, placed);
    lemma_steady_scope_closed(placed, a);
    lemma_calm_closed(m, placed, placed.scope_closed(a));
    lemma_empty_scope_closed(m, CommandLabel::Throw(direction), a);
}

/// A command that changed nothing leaves nothing behind.
pub proof fn lemma_empty_scope_closed(m: Model, command: CommandLabel, a: Answers)
    ensures
        m.scope_opened(command).scope_closed(a) == Ok::<Model, Query>(
            Model { undo_scope: None, ..m },
        ),
        unnoticed(m, Model { undo_scope: None, ..m }),
{
    reveal(Model::scope_closed);
    lemma_unnoticed_same(m, Model { undo_scope: None, ..m });
}

/// Arranging, and placing one window besides.
pub proof fn lemma_steady_arranged_placing(m: Model, a: Answers, window_id: WindowId)
    ensures
        calm_or_asked(m, m.arranged_placing(a, window_id)),
{
    reveal(Model::arranged_placing);
    lemma_steady_arranged(m, a);
    match m.arranged(a) {
        Ok(next) => {
            let told = next.effect(
                EngineEffect::PlaceWindow {
                    window_id,
                    display_id: next.windows[window_id.0].display_id,
                    bounds: next.windows[window_id.0].bounds,
                },
            );
            assert(calm(next, told));
            lemma_trans(m, next, told);
        },
        Err(_) => {},
    }
}

pub proof fn lemma_calm_throw(
    m: Model,
    a: Answers,
    window_id: WindowId,
    direction: DisplayDirection,
)
    ensures
        calm_or_asked(m, m.on_throw(a, window_id, direction)),
        marked(m, m.on_throw(a, window_id, direction)),
{
    reveal(Model::on_throw);
    assert forall|to: DisplayId, bounds: Rect|
        #![trigger m.thrown(a, window_id, direction, to, bounds)]
        calm_or_asked(m, m.thrown(a, window_id, direction, to, bounds)) && marked(
            m,
            m.thrown(a, window_id, direction, to, bounds),
        ) by {
        lemma_calm_thrown(m, a, window_id, direction, to, bounds);
    }
}

pub proof fn lemma_calm_focused(
    m: Model,
    window_id: WindowId,
    display_id: DisplayId,
    bounds: Rect,
)
    ensures
        calm(m, m.on_focused(window_id, display_id, bounds)),
        marked(m, Ok(m.on_focused(window_id, display_id, bounds))),
{
    reveal(Model::on_focused);
    match m.workspaces.workspace_of(window_id.0) {
        Some(name) => {
            lemma_first_index(m.workspaces.list.len(), m.workspaces.named(name.key@));
        },
        None => {},
    }
    if pool_sound(m.workspaces) {
        lemma_sound_focused(m.workspaces, window_id);
    }
}

pub proof fn lemma_calm_snapped(
    m: Model,
    a: Answers,
    window_id: WindowId,
    direction: ZoneSnapDirection,
    bounds: Rect,
)
    ensures
        calm_or_asked(m, m.snapped(a, window_id, direction, bounds)),
        marked(m, m.snapped(a, window_id, direction, bounds)),
{
    reveal(Model::snapped);
    let placement = m.windows[window_id.0];
    let (_, cycle) = m.snap_zone(window_id.0, direction);
    let opened = m.placement_set(
        window_id.0,
        WindowPlacement { rejection_count: 0, ..placement },
    ).scope_opened(CommandLabel::ZoneSnap(direction));
    assert(kept(m, opened));
    let placed = opened.placed(window_id, placement.display_id, bounds, cycle);
    lemma_steady_placed(opened, window_id, placement.display_id, bounds, cycle);
    lemma_trans(m, opened, placed);
    let floated = placed.session_float(window_id, true);
    assert(kept(placed, floated));
    lemma_trans(m, placed, floated);
    lemma_steady_arranged(floated, a);
    match floated.arranged(a) {
        Ok(next) => {
            lemma_trans(m, floated, next);
            lemma_steady_scope_closed(next, a);
            lemma_calm_closed(m, next, next.scope_closed(a));
        },
        Err(_) => {},
    }
    lemma_steady_scope_closed(placed, a);
    lemma_calm_closed(m, placed, placed.scope_closed(a));
}

pub proof fn lemma_calm_zone_snap(m: Model, a: Answers, direction: ZoneSnapDirection)
    ensures
        calm_or_asked(m, m.on_zone_snap(a, direction)),
        marked(m, m.on_zone_snap(a, direction)),
{
    reveal(Model::on_zone_snap);
    assert forall|window_id: WindowId, bounds: Rect|
        #![trigger m.snapped(a, window_id, direction, bounds)]
        calm_or_asked(m, m.snapped(a, window_id, direction, bounds)) && marked(
            m,
            m.snapped(a, window_id, direction, bounds),
        ) by {
        lemma_calm_snapped(m, a, window_id, direction, bounds);
    }
}

pub proof fn lemma_calm_bounds_observed(
    m: Model,
    window_id: WindowId,
    display_id: DisplayId,
    bounds: Rect,
)
    ensures
        calm(m, m.on_bounds_observed(window_id, display_id, bounds)),
        marked(m, Ok(m.on_bounds_observed(window_id, display_id, bounds))),
{
    reveal(Model::on_bounds_observed);
    assert(m.windows.contains_key(window_id.0) ==> m.windows.insert(
        window_id.0,
        m.windows[window_id.0],
    ) =~= m.windows);
}

pub proof fn lemma_calm_drag_ended(m: Model, a: Answers, window_id: WindowId, committed: bool)
    ensures
        calm_or_asked(m, m.on_drag_ended(a, window_id, committed)),
        marked(m, m.on_drag_ended(a, window_id, committed)),
{
    reveal(Model::on_drag_ended);
    let free = Model { interactive: None, deferred: Set::empty(), ..m };
    assert(calm(m, free));
    lemma_steady_arranged(free, a);
    lemma_steady_arranged_placing(free, a, window_id);
    let reply = if committed {
        free.arranged(a)
    } else {
        free.arranged_placing(a, window_id)
    };
    match reply {
        Ok(next) => {
            lemma_trans(m, free, next);
            assert(calm(next, next.revised()));
            lemma_trans(m, next, next.revised());
        },
        Err(_) => {},
    }
}

pub proof fn lemma_calm_startup_tracked(m: Model, windows: Seq<ObservedPlacement>, i: int)
    ensures
        calm(m, m.startup_tracked(windows, i)),
    decreases windows.len() - i,
{
    if i < windows.len() {
        let next = if m.windows.contains_key(windows[i].window_id.0) {
            m
        } else {
            m.placement_set(
                windows[i].window_id.0,
                crate::window::first_placement(windows[i].display_id, windows[i].bounds),
            )
        };
        assert(calm(m, next));
        lemma_calm_startup_tracked(next, windows, i + 1);
        lemma_trans(m, next, m.startup_tracked(windows, i));
    }
}

pub proof fn lemma_calm_startup(m: Model, windows: Seq<ObservedPlacement>)
    ensures
        calm(m, m.on_startup(windows)),
        marked(m, Ok(m.on_startup(windows))),
{
    reveal(Model::on_startup);
    if m.all_tracked(windows) {
        lemma_startup_again(m, windows, 0);
    }
    let next = m.startup_tracked(windows, 0);
    lemma_calm_startup_tracked(m, windows, 0);
    assert(calm(next, next.revised()));
    lemma_trans(m, next, next.revised());
}

pub proof fn lemma_calm_rejected(m: Model, a: Answers, window_id: WindowId)
    ensures
        calm_or_asked(m, m.on_rejected(a, window_id)),
        marked(m, m.on_rejected(a, window_id)),
{
    reveal(Model::on_rejected);
    let placement = m.windows[window_id.0];
    let count = (placement.rejection_count + 1) as u8;
    let more = m.placement_set(
        window_id.0,
        WindowPlacement { rejection_count: count, ..placement },
    );
    assert(calm(m, more.revised()));
    let opened = more.eligibility_set(
        window_id.0,
        crate::window::EligibilityReason::CircuitOpen,
    );
    assert(calm(m, opened));
    lemma_steady_arranged_revised(opened, a);
    lemma_then(m, opened, opened.arranged_revised(a));
}

pub proof fn lemma_calm_accepted(m: Model, window_id: WindowId)
    ensures
        calm(m, m.on_accepted(window_id)),
        marked(m, Ok(m.on_accepted(window_id))),
{
    reveal(Model::on_accepted);
}

/// Where no placement went through nothing changed; any that did was counted.
proof fn lemma_layout_placed_counts(
    m: Model,
    placements: Seq<PlannedPlacement>,
    display_id: DisplayId,
    i: int,
    done: Seq<WindowId>,
)
    ensures
        ({
            let (after, placed) = m.layout_placed(placements, display_id, i, done);
            &&& placed.len() >= done.len()
            &&& after.revision >= m.revision
            &&& (placed.len() == done.len() ==> after == m)
            &&& (placed.len() > done.len() ==> after.revision > m.revision || m.revision
                == u64::MAX)
        }),
    decreases placements.len() - i,
{
    if i < placements.len() {
        let window_id = placements[i].window_id;
        let next = m.placed(window_id, display_id, placements[i].bounds, None);
        let more = if m.breaker_open(window_id.0) {
            done
        } else {
            done.push(window_id)
        };
        lemma_layout_placed_counts(next, placements, display_id, i + 1, more);
    }
}

pub proof fn lemma_steady_layout_placed(
    m: Model,
    placements: Seq<PlannedPlacement>,
    display_id: DisplayId,
    i: int,
    done: Seq<WindowId>,
)
    ensures
        kept(m, m.layout_placed(placements, display_id, i, done).0),
    decreases placements.len() - i,
{
    if i < placements.len() {
        let window_id = placements[i].window_id;
        let next = m.placed(window_id, display_id, placements[i].bounds, None);
        lemma_steady_placed(m, window_id, display_id, placements[i].bounds, None);
        let more = if m.breaker_open(window_id.0) {
            done
        } else {
            done.push(window_id)
        };
        lemma_steady_layout_placed(next, placements, display_id, i + 1, more);
        lemma_trans(m, next, m.layout_placed(placements, display_id, i, done).0);
    }
}

pub proof fn lemma_steady_all_floated(m: Model, windows: Seq<WindowId>, i: int)
    ensures
        kept(m, m.all_floated(windows, i)),
    decreases windows.len() - i,
{
    if i < windows.len() {
        let next = m.session_float(windows[i], true);
        assert(kept(m, next));
        lemma_steady_all_floated(next, windows, i + 1);
        lemma_trans(m, next, m.all_floated(windows, i));
    }
}

pub proof fn lemma_steady_layout_finished(
    m: Model,
    a: Answers,
    name: String,
    display_id: DisplayId,
    placed: Seq<WindowId>,
)
    ensures
        match m.layout_finished(a, name, display_id, placed) {
            Ok(after) => kept(m, after) && after.undo_scope is None,
            Err(_) => true,
        },
{
    reveal(Model::layout_finished);
    lemma_steady_scope_closed(m, a);
    let noted = Model {
        last_applied_layouts: m.last_applied_layouts.insert(display_id.0, name),
        ..m
    };
    assert(kept(m, noted));
    lemma_steady_scope_closed(noted, a);
    match noted.scope_closed(a) {
        Ok(after) => {
            lemma_trans(m, noted, after);
        },
        Err(_) => {},
    }
    let floated = noted.all_floated(placed, 0);
    lemma_steady_all_floated(noted, placed, 0);
    lemma_trans(m, noted, floated);
    lemma_steady_arranged(floated, a);
    match floated.arranged(a) {
        Ok(next) => {
            lemma_trans(m, floated, next);
            lemma_steady_scope_closed(next, a);
            match next.scope_closed(a) {
                Ok(after) => {
                    lemma_trans(m, next, after);
                },
                Err(_) => {},
            }
        },
        Err(_) => {},
    }
}

pub proof fn lemma_calm_layout(m: Model, a: Answers, name: String)
    ensures
        calm_or_asked(m, m.on_layout(a, name)),
        marked(m, m.on_layout(a, name)),
{
    reveal(Model::on_layout);
    match m.layout_plan(a, name) {
        Ok(Ok(plan)) => {
            let opened = m.scope_opened(CommandLabel::ApplyLayout(name));
            assert(kept(m, opened));
            let (next, placed) = opened.layout_placed(
                plan.placements,
                plan.display_id,
                0,
                Seq::empty(),
            );
            lemma_steady_layout_placed(opened, plan.placements, plan.display_id, 0, Seq::empty());
            lemma_trans(m, opened, next);
            lemma_steady_layout_finished(next, a, name, plan.display_id, placed);
            lemma_calm_closed(m, next, next.layout_finished(a, name, plan.display_id, placed));
            lemma_layout_placed_counts(opened, plan.placements, plan.display_id, 0, Seq::empty());
            if placed.len() == 0 {
                reveal(Model::layout_finished);
                lemma_empty_scope_closed(m, CommandLabel::ApplyLayout(name), a);
            }
        },
        _ => {},
    }
}

// The session.

pub proof fn lemma_calm_resume(m: Model, a: Answers)
    ensures
        calm_or_asked(m, m.on_resume(a)),
        marked(m, m.on_resume(a)),
{
    reveal(Model::on_resume);
    let resumed = Model { paused: false, ..m };
    assert(calm(m, resumed));
    lemma_steady_arranged_revised(resumed, a);
    lemma_then(m, resumed, resumed.arranged_revised(a));
}

pub proof fn lemma_calm_toggle_tiling(m: Model, a: Answers)
    ensures
        calm_or_asked(m, m.on_toggle_tiling(a)),
        marked(m, m.on_toggle_tiling(a)),
{
    reveal(Model::on_toggle_tiling);
    let toggled = Model {
        tiling_suspended: !m.tiling_suspended,
        tiling_active: m.tiling_suspended,
        ..m
    }.scope_opened(CommandLabel::ToggleAutomaticTiling);
    assert(kept(m, toggled));
    lemma_steady_arranged_closed(toggled, a);
    lemma_calm_closed(m, toggled, toggled.arranged_closed(a));
    assert(kept(m, toggled.revised()));
    lemma_steady_scope_closed(toggled.revised(), a);
    lemma_calm_closed(m, toggled.revised(), toggled.revised().scope_closed(a));
}

pub proof fn lemma_calm_toggle_floating(m: Model, a: Answers)
    ensures
        calm_or_asked(m, m.on_toggle_floating(a)),
        marked(m, m.on_toggle_floating(a)),
{
    reveal(Model::on_toggle_floating);
    match m.focused_window {
        None => {},
        Some(window_id) => {
            let toggled = m.scope_opened(CommandLabel::ToggleFloating).floating_toggled(window_id);
            assert(kept(m, toggled));
            lemma_steady_arranged_closed(toggled, a);
            lemma_calm_closed(m, toggled, toggled.arranged_closed(a));
        },
    }
}

pub proof fn lemma_calm_directional_focus(m: Model, a: Answers, direction: CardinalDirection)
    ensures
        calm_or_asked(m, m.on_directional_focus(a, direction)),
        marked(m, m.on_directional_focus(a, direction)),
{
    reveal(Model::on_directional_focus);
}

pub proof fn lemma_calm_swap(m: Model, a: Answers, direction: CardinalDirection)
    ensures
        calm_or_asked(m, m.on_swap(a, direction)),
        marked(m, m.on_swap(a, direction)),
{
    reveal(Model::on_swap);
    match m.swap_plan(a, direction) {
        Ok(Ok(plan)) => {
            let n = m.order.len();
            let mine = Listed { display_id: plan.display_id, window_id: plan.window_id };
            let other = Listed { display_id: plan.display_id, window_id: plan.neighbor_id };
            match (first_index(n, m.entry_at(mine)), first_index(n, m.entry_at(other))) {
                (Some(i), Some(j)) => {
                    let opened = m.order_swapped(i, j).scope_opened(CommandLabel::Swap(direction));
                    assert(kept(m, opened));
                    reveal(Model::leaves_swapped);
                    match opened.leaves_swapped(
                        a,
                        plan.display_id,
                        plan.window_id,
                        plan.neighbor_id,
                    ) {
                        Ok(next) => {
                            assert(kept(opened, next));
                            lemma_trans(m, opened, next);
                            lemma_steady_arranged_closed(next, a);
                            lemma_calm_closed(m, next, next.arranged_closed(a));
                        },
                        Err(_) => {},
                    }
                },
                _ => {},
            }
        },
        _ => {},
    }
}

pub proof fn lemma_calm_remove_position(m: Model, a: Answers, display_id: DisplayId, position: u64)
    ensures
        calm_or_asked(m, m.on_remove_position(a, display_id, position)),
        marked(m, m.on_remove_position(a, display_id, position)),
{
    reveal(Model::on_remove_position);
    let captured = m.scope_opened(CommandLabel::RemovePosition).tree_captured(display_id);
    assert(kept(m, captured));
    lemma_steady_arranged_closed(captured, a);
    lemma_calm_closed(m, captured, captured.arranged_closed(a));
    match a.changed_spec(captured.trees[display_id.0], TreeChange::RemovePosition { position }) {
        Ok(tree) => {
            let changed = Model { trees: captured.trees.insert(display_id.0, tree), ..captured };
            assert(kept(m, changed));
            lemma_steady_arranged_closed(changed, a);
            lemma_calm_closed(m, changed, changed.arranged_closed(a));
        },
        Err(_) => {},
    }
}

pub proof fn lemma_calm_resize(m: Model, a: Answers, direction: CardinalDirection)
    ensures
        calm_or_asked(m, m.on_resize(a, direction)),
        marked(m, m.on_resize(a, direction)),
{
    reveal(Model::on_resize);
    match m.resize_plan(a, direction) {
        Ok(Ok(plan)) => {
            let display_id = plan.applied.display_id;
            let captured = m.scope_opened(CommandLabel::Resize(direction)).tree_captured(
                display_id,
            );
            let changed = Model {
                trees: captured.trees.insert(display_id.0, plan.tree),
                ..captured
            };
            assert(kept(m, changed));
            lemma_steady_arranged_closed(changed, a);
            lemma_calm_closed(m, changed, changed.arranged_closed(a));
        },
        _ => {},
    }
}

pub proof fn lemma_calm_maximized_floated(m: Model, windows: Seq<Window>, i: int)
    ensures
        calm(m, m.maximized_floated(windows, i)),
    decreases windows.len() - i,
{
    if i < windows.len() {
        let floated = Model {
            session_floating: m.session_floating.insert(windows[i].id.0),
            ..m
        };
        assert(calm(m, floated));
        lemma_calm_maximized_floated(floated, windows, i + 1);
        lemma_calm_maximized_floated(m, windows, i + 1);
        lemma_trans(m, floated, floated.maximized_floated(windows, i + 1));
    }
}

/// A batch of observations taken in.
proof fn lemma_calm_taken_in(m: Model, a: Answers, windows: Seq<Window>)
    ensures
        match m.remembering(windows).observed(a, windows) {
            Ok((after, _)) => calm(m, after),
            Err(_) => true,
        },
{
    let remembering = m.remembering(windows);
    assert(calm(m, remembering));
    lemma_calm_observed(remembering, a, windows);
    match remembering.observed(a, windows) {
        Ok((after, _)) => {
            lemma_trans(m, remembering, after);
        },
        Err(_) => {},
    }
}

pub proof fn lemma_calm_on_observed(m: Model, a: Answers, windows: Seq<Window>)
    ensures
        calm_or_asked(m, m.on_observed(a, windows)),
        m.finite() ==> marked(m, m.on_observed(a, windows)),
{
    reveal(Model::on_observed);
    let floated = if m.tiling_active {
        m.maximized_floated(windows, 0)
    } else {
        m
    };
    lemma_calm_maximized_floated(m, windows, 0);
    lemma_calm_taken_in(floated, a, windows);
    match floated.remembering(windows).observed(a, windows) {
        Ok((next, changed)) => {
            lemma_trans(m, floated, next);
            lemma_steady_arranged_revised(next, a);
            lemma_then(m, next, next.arranged_revised(a));
            assert(calm(next, next.revised()));
            lemma_trans(m, next, next.revised());
            if !changed && !m.stirred(next) && m.finite() {
                lemma_unstirred(m, a, windows);
            }
        },
        Err(_) => {},
    }
}

pub proof fn lemma_calm_rules(m: Model, a: Answers, rules: RuleBook)
    ensures
        calm_or_asked(m, m.on_rules(a, rules)),
        marked(m, m.on_rules(a, rules)),
{
    reveal(Model::on_rules);
    let changed = Model { rules, ..m };
    assert(calm(m, changed));
    let windows = changed.remembered_windows();
    lemma_calm_observed(changed, a, windows);
    match changed.observed(a, windows) {
        Ok((next, _)) => {
            lemma_trans(m, changed, next);
            lemma_steady_arranged_revised(next, a);
            lemma_then(m, next, next.arranged_revised(a));
        },
        Err(_) => {},
    }
}

pub proof fn lemma_calm_rearranged(m: Model, a: Answers, windows: Seq<Window>)
    ensures
        calm_or_asked(m, m.on_rearranged(a, windows)),
        marked(m, m.on_rearranged(a, windows)),
{
    reveal(Model::on_rearranged);
    lemma_calm_taken_in(m, a, windows);
    match m.remembering(windows).observed(a, windows) {
        Ok((next, _)) => {
            let opened = next.breakers_closed().scope_opened(CommandLabel::Rearrange);
            assert(kept(next, opened));
            lemma_trans(m, next, opened);
            lemma_steady_arranged_closed(opened, a);
            lemma_calm_closed(m, opened, opened.arranged_closed(a));
        },
        Err(_) => {},
    }
}

pub proof fn lemma_tame_assignment_reconciled(m: Model, a: Answers)
    ensures
        tame_or_asked(m, m.assignment_reconciled(a)),
        counted(m, m.assignment_reconciled(a)),
{
    reveal(Model::assignment_reconciled);
    let filled = m.displays_filled();
    lemma_steady_displays_filled(m);
    let mapped = filled.mapping_applied();
    lemma_steady_mapping_applied(filled);
    lemma_trans(m, filled, mapped);
    let assigned = mapped.unassigned_assigned();
    lemma_steady_unassigned_assigned(mapped);
    lemma_trans(m, mapped, assigned);
    let reconciled = assigned.hidden_reconciled(a.now_unix);
    lemma_steady_hidden_reconciled(assigned, a.now_unix);
    lemma_trans(m, assigned, reconciled);
    lemma_steady_arranged(reconciled, a);
    match reconciled.arranged(a) {
        Ok(next) => {
            lemma_trans(m, reconciled, next);
            lemma_steady_persisted(next, a);
            match next.workspaces_persisted(a, 0) {
                Ok(done) => {
                    lemma_trans(m, next, done);
                    assert(calm(done, done.revised()));
                    lemma_trans(m, done, done.revised());
                },
                Err(_) => {},
            }
        },
        Err(_) => {},
    }
}

pub proof fn lemma_loose_config(m: Model, a: Answers, set: ConfigSet)
    ensures
        loose_or_asked(m, m.on_config(a, set)),
        marked(m, m.on_config(a, set)),
        match m.on_config(a, set) {
            Ok(after) => same_config_set(set, m.config_set) || after.config_set == set,
            Err(_) => true,
        },
{
    reveal(Model::on_config);
    let config = set.select(m.topology@);
    let suspended = config.automatic_tiling_enabled && m.tiling_suspended;
    let changed = Model {
        config,
        rules: config.rules,
        tiling_suspended: suspended,
        tiling_active: config.automatic_tiling_enabled && !suspended,
        config_set: set,
        ..m
    };
    assert(loose(m, changed));
    let synced = changed.pool_synced();
    lemma_steady_pool_synced(changed);
    lemma_trans(m, changed, synced);
    lemma_tame_assignment_reconciled(synced, a);
    lemma_then(m, synced, synced.assignment_reconciled(a));
}

pub proof fn lemma_loose_topology_config(m: Model)
    ensures
        loose(m, m.topology_config()),
        m.topology_config().displays == m.displays,
        m.topology_config().topology == m.topology,
        m.topology_config().config_set == m.config_set,
{
    let config = m.config_set.select(m.topology@);
    let changed = Model {
        config,
        tiling_suspended: false,
        tiling_active: config.automatic_tiling_enabled,
        ..m
    };
    assert(loose(m, changed));
    lemma_steady_pool_synced(changed);
    lemma_trans(m, changed, m.topology_config());
}

pub proof fn lemma_loose_topology(
    m: Model,
    a: Answers,
    displays: Seq<Display>,
    topology: String,
)
    ensures
        loose_or_asked(m, m.on_topology(a, displays, topology)),
        marked(m, m.on_topology(a, displays, topology)),
        match m.on_topology(a, displays, topology) {
            Ok(after) => {
                ||| displays.len() == 0 || same_displays(displays, m.displays)
                ||| after.displays == displays && after.topology == topology
            },
            Err(_) => true,
        },
{
    reveal(Model::on_topology);
    let free = Model { interactive: None, deferred: Set::empty(), ..m };
    assert(calm(m, free));
    lemma_calm_orphans_migrated(free, a, displays);
    match free.orphans_migrated(a, displays) {
        Err(_) => {},
        Ok(moved) => {
            lemma_trans(m, free, moved);
            let focused = moved.focus_migrated(displays);
            lemma_calm_focus_migrated(moved, displays);
            lemma_trans(m, moved, focused);
            let hidden = focused.vanished_hidden(displays);
            lemma_steady_vanished_hidden(focused, displays);
            lemma_trans(m, focused, hidden);
            let committed = hidden.displays_committed(displays, topology);
            assert(loose(hidden, committed));
            lemma_trans(m, hidden, committed);
            lemma_loose_topology_config(committed);
            lemma_trans(m, committed, committed.topology_config());
            let configured = if topology@ != m.topology@ {
                committed.topology_config()
            } else {
                committed
            };
            lemma_tame_assignment_reconciled(configured, a);
            lemma_then(m, configured, configured.assignment_reconciled(a));
        },
    }
}

pub proof fn lemma_loose_woken(m: Model, a: Answers, displays: Seq<Display>, topology: String)
    ensures
        loose_or_asked(m, m.woken(a, displays, topology)),
{
    reveal(Model::woken);
    lemma_calm_orphans_migrated(m, a, displays);
    match m.orphans_migrated(a, displays) {
        Err(_) => {},
        Ok(moved) => {
            let hidden = moved.vanished_hidden(displays);
            lemma_steady_vanished_hidden(moved, displays);
            lemma_trans(m, moved, hidden);
            let committed = Model {
                displays,
                topology,
                last_applied_layouts: hidden.last_applied_layouts.restrict(
                    crate::topology::display_ids(displays),
                ),
                ..hidden
            };
            assert(loose(hidden, committed));
            lemma_trans(m, hidden, committed);
            let configured = committed.topology_config();
            lemma_loose_topology_config(committed);
            lemma_trans(m, committed, configured);
            let filled = configured.displays_filled();
            lemma_steady_displays_filled(configured);
            lemma_trans(m, configured, filled);
            lemma_steady_mapping_applied(filled);
            lemma_trans(m, filled, filled.mapping_applied());
        },
    }
}

pub proof fn lemma_loose_wake(
    m: Model,
    a: Answers,
    displays: Seq<Display>,
    topology: String,
    windows: Option<Seq<Window>>,
)
    ensures
        loose_or_asked(m, m.on_wake(a, displays, topology, windows)),
        marked(m, m.on_wake(a, displays, topology, windows)),
{
    reveal(Model::on_wake);
    lemma_loose_woken(m, a, displays, topology);
    match m.woken(a, displays, topology) {
        Err(_) => {},
        Ok(awake) => match windows {
            None => {
                lemma_steady_arranged_revised(awake, a);
                lemma_then(m, awake, awake.arranged_revised(a));
            },
            Some(windows) => {
                lemma_calm_taken_in(awake, a, windows);
                match awake.remembering(windows).observed(a, windows) {
                    Ok((next, _)) => {
                        lemma_trans(m, awake, next);
                        lemma_steady_arranged_revised(next, a);
                        lemma_then(m, next, next.arranged_revised(a));
                    },
                    Err(_) => {},
                }
            },
        },
    }
}

} // verus!
