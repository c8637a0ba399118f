//! What single events do to the state, said of its fields.

use vstd::prelude::*;

verus! {

use crate::answers::{Answers, Query};
use crate::config::{same_config_set, ResolvedConfigSet};
use crate::event::{Event, ObservedPlacement};
use crate::geometry::{DisplayId, Rect, WindowId};
use crate::laws::belonging::{lemma_spelled, spelled_at};
use crate::laws::commands::undisturbed;
use crate::laws::frame::{lemma_arranged, lemma_workspaces_persisted};
use crate::laws::hotplug::{
    called, gone, is_focus_home, law_focus_goes_to_the_nearest_survivor,
    law_orphans_go_to_the_nearest_survivor, lemma_called, carried,
};
use crate::laws::managing::why;
use crate::laws::workspaces::lemma_hidden_reconciled_only;
use crate::name::WorkspaceName;
use crate::ranking::Ranked;
use crate::reducer::step;
use crate::state::{EngineEffect, Model};
use crate::topology::display_at;
use crate::window::{
    same_displays, Display, EligibilityReason, ManageAction, Window, WindowPlacement,
};

// What deciding who is displayed where leaves alone.

/// Only the pool and what is kept per display of its arrangement differ.
pub open spec fn only_assigned(before: Model, after: Model) -> bool {
    after == (Model {
        workspaces: after.workspaces,
        trees: after.trees,
        saved_trees: after.saved_trees,
        constraint_overflow: after.constraint_overflow,
        order: after.order,
        switching_unavailable: after.switching_unavailable,
        ..before
    })
}

proof fn lemma_assigned_filled(m: Model, line: Seq<Ranked>, i: int)
    ensures
        only_assigned(m, m.displays_filled_from(line, i)),
    decreases line.len() - i,
{
    if i < line.len() {
        let next = match display_at(m.displays, DisplayId(line[i].id)) {
            Some(at) => m.display_filled(m.displays[at]),
            None => m,
        };
        assert(only_assigned(m, next));
        lemma_assigned_filled(next, line, i + 1);
    }
}

proof fn lemma_assigned_cleared(m: Model, displays: Seq<isize>, i: int)
    ensures
        only_assigned(m, m.displays_cleared(displays, i)),
    decreases displays.len() - i,
{
    if i < displays.len() {
        let display_id = DisplayId(displays[i]);
        let next = if m.workspaces.displayed_at(display_id) is Some {
            let stashed = m.tree_stashed(display_id);
            Model { workspaces: stashed.workspaces.hiding(display_id), ..stashed }
        } else {
            m
        };
        lemma_assigned_cleared(next, displays, i + 1);
    }
}

proof fn lemma_assigned_mapping_shown(
    m: Model,
    target: Map<isize, int>,
    displays: Seq<isize>,
    i: int,
)
    ensures
        only_assigned(m, m.mapping_shown(target, displays, i)),
    decreases displays.len() - i,
{
    if i < displays.len() {
        lemma_assigned_mapping_shown(
            m.workspace_shown(target[displays[i]], DisplayId(displays[i])),
            target,
            displays,
            i + 1,
        );
    }
}

proof fn lemma_assigned_stashed(m: Model, displays: Seq<Display>, i: int)
    ensures
        only_assigned(m, m.trees_stashed(displays, i)),
    decreases displays.len() - i,
{
    if i < displays.len() {
        lemma_assigned_stashed(m.tree_stashed(displays[i].id), displays, i + 1);
    }
}

proof fn lemma_assigned_declared(m: Model, names: Seq<WorkspaceName>, i: int)
    ensures
        only_assigned(m, m.declared_from(names, i)),
    decreases names.len() - i,
{
    if i < names.len() {
        let workspaces = match m.workspaces.find(names[i]) {
            Some(at) => m.workspaces.with(
                at,
                crate::workspace::Workspace {
                    origin: crate::workspace::WorkspaceOrigin::Configuration,
                    ..m.workspaces.list[at]
                },
            ),
            None => m.workspaces.created(
                names[i],
                crate::workspace::WorkspaceOrigin::Configuration,
            ),
        };
        lemma_assigned_declared(Model { workspaces, ..m }, names, i + 1);
    }
}

proof fn lemma_assigned_parts(m: Model, survivors: Seq<Display>)
    ensures
        only_assigned(m, m.displays_filled()),
        only_assigned(m, m.mapping_applied()),
        only_assigned(m, m.pool_synced()),
        only_assigned(m, m.vanished_hidden(survivors)),
        only_assigned(m, m.unassigned_assigned()),
{
    reveal(Model::displays_filled);
    reveal(Model::mapping_applied);
    reveal(Model::pool_synced);
    reveal(Model::vanished_hidden);
    reveal(Model::unassigned_assigned);
    lemma_assigned_filled(m, crate::ranking::ordered(m.display_ranks().to_set()), 0);
    lemma_assigned_declared(m, m.config.workspaces, 0);
    lemma_assigned_stashed(m, m.displays.filter(Model::vanished(survivors)), 0);
    let clear = Model { switching_unavailable: None, ..m };
    match m.config.switching {
        Some(switching) => match m.mapping_resolved(switching.displayed, 0, Map::empty()) {
            Ok(target) => {
                let displays = crate::table::sorted(target.dom());
                lemma_assigned_cleared(clear, displays, 0);
                lemma_assigned_mapping_shown(
                    clear.displays_cleared(displays, 0),
                    target,
                    displays,
                    0,
                );
            },
            Err(_) => {},
        },
        None => {},
    }
}

/// Reconciling the assignment leaves configuration, focus and, where nothing
/// is tiled, every placement alone.
proof fn lemma_reconciled_leaves(m: Model, a: Answers)
    ensures
        match m.assignment_reconciled(a) {
            Ok(after) => {
                &&& after.config == m.config
                &&& after.config_set == m.config_set
                &&& after.rules == m.rules
                &&& after.displays == m.displays
                &&& after.topology == m.topology
                &&& after.tiling_active == m.tiling_active
                &&& after.tiling_suspended == m.tiling_suspended
                &&& after.focused_display == m.focused_display
                &&& after.focused_window == m.focused_window
                &&& after.interactive == m.interactive
                &&& after.last_applied_layouts == m.last_applied_layouts
                &&& (!m.tiling_active ==> after.windows == m.windows && after.inventory
                    == m.inventory)
            },
            Err(_) => true,
        },
{
    reveal(Model::assignment_reconciled);
    lemma_assigned_parts(m, m.displays);
    let filled = m.displays_filled();
    lemma_assigned_parts(filled, m.displays);
    let mapped = filled.mapping_applied();
    lemma_assigned_parts(mapped, m.displays);
    let assigned = mapped.unassigned_assigned();
    lemma_hidden_reconciled_only(assigned, a.now_unix);
    let reconciled = assigned.hidden_reconciled(a.now_unix);
    lemma_arranged(reconciled, a);
    if !m.tiling_active {
        reveal(Model::arranged);
    }
    match reconciled.arranged(a) {
        Ok(next) => {
            lemma_workspaces_persisted(next, a, 0);
            crate::laws::reflow::lemma_all_written(next, a, 0);
        },
        Err(_) => {},
    }
}

/// After a new topology the displays are the ones that were reported, the
/// configuration is that of the topology where it changed, nothing of a drag is
/// left, a layout is remembered only for a display that is still there, and
/// focus is on the survivor nearest to the display it was on. Where nothing is
/// tiled, every window of a lost display is on the nearest survivor and every
/// other where it was.
pub proof fn law_a_new_topology_is_taken_up(
    before: Model,
    a: Answers,
    displays: Seq<Display>,
    topology: String,
    focused: DisplayId,
    at: int,
    id: isize,
    from: int,
)
    requires
        displays.len() > 0,
        !same_displays(displays, before.displays),
        before.windows.dom().finite(),
    ensures
        match before.on_topology(a, displays, topology) {
            Ok(after) => {
                &&& after.displays == displays
                &&& after.topology == topology
                &&& after.interactive is None
                &&& after.config_set == before.config_set
                &&& (topology@ == before.topology@ ==> after.config == before.config
                    && after.tiling_active == before.tiling_active)
                &&& (topology@ != before.topology@ ==> after.config
                    == before.config_set.select(topology@) && !after.tiling_suspended
                    && after.tiling_active == after.config.automatic_tiling_enabled)
                &&& (after.last_applied_layouts.contains_key(id)
                    <==> before.last_applied_layouts.contains_key(id) && !gone(
                    displays,
                    DisplayId(id),
                ))
                &&& (before.focused_display == Some(focused) && called(
                    before.displays,
                    focused,
                    at,
                ) ==> if gone(displays, focused) {
                    exists|home: int|
                        #![trigger displays[home]]
                        is_focus_home(displays, before.displays[at], home)
                            && after.focused_display == Some(displays[home].id)
                } else {
                    after.focused_display == Some(focused)
                })
                &&& (!after.tiling_active && before.windows.contains_key(id) && called(
                    before.displays,
                    before.windows[id].display_id,
                    from,
                ) ==> if gone(displays, before.windows[id].display_id) {
                    exists|home: int|
                        #![trigger displays[home]]
                        crate::laws::hotplug::is_home(displays, before.displays[from], home)
                            && after.windows[id].display_id == displays[home].id
                } else {
                    after.windows[id] == before.windows[id]
                })
            },
            Err(_) => true,
        },
{
    reveal(Model::on_topology);
    let free = Model { interactive: None, deferred: Set::empty(), ..before };
    match free.orphans_migrated(a, displays) {
        Err(_) => {},
        Ok(moved) => {
            lemma_migration_leaves(free, a, displays);
            let there = moved.focus_migrated(displays);
            assert(there == (Model { focused_display: there.focused_display, ..moved })) by {
                reveal(Model::focus_migrated);
            }
            lemma_assigned_parts(there, displays);
            let hidden = there.vanished_hidden(displays);
            let committed = hidden.displays_committed(displays, topology);
            let config = committed.config_set.select(committed.topology@);
            let configured = Model {
                config,
                tiling_suspended: false,
                tiling_active: config.automatic_tiling_enabled,
                ..committed
            };
            lemma_assigned_parts(configured, displays);
            let ready = if topology@ != before.topology@ {
                committed.topology_config()
            } else {
                committed
            };
            lemma_reconciled_leaves(ready, a);
            lemma_called(displays, DisplayId(id), 0);
            if before.focused_display == Some(focused) && called(before.displays, focused, at) {
                law_focus_goes_to_the_nearest_survivor(moved, displays, focused, at);
            }
            if before.windows.contains_key(id) && called(
                before.displays,
                before.windows[id].display_id,
                from,
            ) {
                law_orphans_go_to_the_nearest_survivor(free, a, displays, id, from);
                if gone(displays, before.windows[id].display_id) {
                    let home = choose|home: int| #[trigger]
                        carried(free, moved, a, displays, id, from, home);
                    assert(displays[home].id == moved.windows[id].display_id);
                }
            }
        },
    }
}

proof fn lemma_migration_leaves(m: Model, a: Answers, survivors: Seq<Display>)
    ensures
        match m.orphans_migrated(a, survivors) {
            Ok(after) => after == (Model {
                windows: after.windows,
                inventory: after.inventory,
                effects: after.effects,
                ..m
            }),
            Err(_) => true,
        },
{
    reveal(Model::orphans_migrated);
    lemma_windows_migrated_only(m, a, survivors, crate::table::sorted(m.windows.dom()), 0);
}

proof fn lemma_windows_migrated_only(
    m: Model,
    a: Answers,
    survivors: Seq<Display>,
    ids: Seq<isize>,
    i: int,
)
    ensures
        match m.windows_migrated(a, survivors, ids, i) {
            Ok(after) => after == (Model {
                windows: after.windows,
                inventory: after.inventory,
                effects: after.effects,
                ..m
            }),
            Err(_) => true,
        },
    decreases ids.len() - i,
{
    if i < ids.len() {
        match m.window_migrated(a, survivors, ids[i]) {
            Ok(next) => {
                lemma_windows_migrated_only(next, a, survivors, ids, i + 1);
            },
            Err(_) => {},
        }
    }
}

/// A new configuration takes effect: the profile of the topology in force or
/// the base, its rules, and its tiling unless the session suspended it, which
/// ends where the profile does not tile.
pub proof fn law_a_new_configuration_takes_effect(before: Model, a: Answers, set: ResolvedConfigSet)
    requires
        !same_config_set(set@, before.config_set),
    ensures
        match step(before, Event::ConfigChanged(set), a) {
            Ok(after) => {
                &&& after.config_set == set@
                &&& after.config == set@.select(before.topology@)
                &&& after.rules == after.config.rules
                &&& after.tiling_suspended == (before.tiling_suspended
                    && after.config.automatic_tiling_enabled)
                &&& after.tiling_active == (after.config.automatic_tiling_enabled
                    && !after.tiling_suspended)
                &&& after.focused_display == before.focused_display
                &&& after.displays == before.displays
            },
            Err(_) => true,
        },
{
    reveal(Model::on_config);
    let m = undisturbed(before);
    let config = set@.select(m.topology@);
    let suspended = config.automatic_tiling_enabled && m.tiling_suspended;
    let changed = Model {
        config,
        rules: config.rules,
        tiling_suspended: suspended,
        tiling_active: config.automatic_tiling_enabled && !suspended,
        config_set: set@,
        ..m
    };
    lemma_assigned_parts(changed, m.displays);
    lemma_reconciled_leaves(changed.pool_synced(), a);
}

// Focus.

/// A window that gets the focus is the focused one; it is tracked where it was
/// seen if it was not tracked, and left as it was placed if it was; its display
/// gets the focus if it is connected; and its workspace remembers it.
pub proof fn law_focus_follows_the_window(
    before: Model,
    a: Answers,
    window_id: WindowId,
    display_id: DisplayId,
    bounds: Rect,
    i: int,
)
    ensures
        match step(before, Event::WindowFocused { window_id, display_id, bounds }, a) {
            Ok(after) => {
                let id = window_id.0;
                &&& after.focused_window == Some(window_id)
                &&& (before.windows.contains_key(id) ==> after.windows == before.windows)
                &&& (!before.windows.contains_key(id) ==> {
                    &&& after.windows.contains_key(id)
                    &&& after.windows.remove(id) == before.windows.remove(id)
                    &&& after.windows[id].display_id == display_id
                    &&& after.windows[id].bounds == bounds
                    &&& after.windows[id].observed_bounds == bounds
                    &&& after.windows[id].previous_placement is None
                    &&& after.windows[id].cycle_step is None
                    &&& after.windows[id].rejection_count == 0
                })
                &&& after.focused_display == if gone(before.displays, display_id) {
                    before.focused_display
                } else {
                    Some(display_id)
                }
                &&& after.effects == before.effects
                &&& (before.workspaces.members.contains_key(id) && spelled_at(
                    before.workspaces,
                    before.workspaces.members[id].key@,
                    i,
                ) ==> after.workspaces.list == before.workspaces.list.update(
                    i,
                    crate::workspace::Workspace {
                        last_focused: Some(window_id),
                        ..before.workspaces.list[i]
                    },
                ))
                &&& (!before.workspaces.members.contains_key(id) ==> after.workspaces
                    == before.workspaces)
            },
            Err(_) => false,
        },
{
    reveal(Model::on_focused);
    lemma_called(before.displays, display_id, 0);
    if before.workspaces.members.contains_key(window_id.0) {
        lemma_spelled(before.workspaces, before.workspaces.members[window_id.0], i);
    }
    assert(before.windows.insert(
        window_id.0,
        crate::window::first_placement(display_id, bounds),
    ).remove(window_id.0) =~= before.windows.remove(window_id.0));
}

/// A reported position is noted and moves nothing: where it is not where the
/// window belongs, the cycle of its snaps starts over.
pub proof fn law_reported_bounds_are_noted(
    before: Model,
    a: Answers,
    window_id: WindowId,
    display_id: DisplayId,
    bounds: Rect,
)
    requires
        before.windows.contains_key(window_id.0),
    ensures
        match step(before, Event::WindowBoundsObserved { window_id, display_id, bounds }, a) {
            Ok(after) => {
                let id = window_id.0;
                let placed = before.windows[id];
                &&& after.windows.contains_key(id)
                &&& after.windows.remove(id) == before.windows.remove(id)
                &&& after.windows[id] == (WindowPlacement {
                    observed_bounds: bounds,
                    cycle_step: if placed.display_id == display_id && placed.bounds == bounds {
                        placed.cycle_step
                    } else {
                        None
                    },
                    ..placed
                })
                &&& after.effects == before.effects
                &&& after.inventory == before.inventory
            },
            Err(_) => false,
        },
{
    reveal(Model::on_bounds_observed);
    match step(before, Event::WindowBoundsObserved { window_id, display_id, bounds }, a) {
        Ok(after) => {
            assert(after.windows.remove(window_id.0) =~= before.windows.remove(window_id.0));
        },
        Err(_) => {},
    }
}

// Dragging.

/// A drag holds back the reflow of the display the window is managed on, or
/// tracked on if it is not managed; and a drag that ends without a placement by
/// hand sends the window back to where it belongs.
pub proof fn law_a_drag_ends_where_the_window_belongs(
    before: Model,
    a: Answers,
    window_id: WindowId,
    committed: bool,
)
    ensures
        match step(before, Event::InteractivePlacementStarted { window_id }, a) {
            Ok(after) => {
                let id = window_id.0;
                &&& (before.inventory.contains_key(id) ==> (after.interactive matches Some(session)
                    && session.window_id == window_id && session.display_id
                    == before.inventory[id].window.display_id))
                &&& (!before.inventory.contains_key(id) && before.windows.contains_key(id) ==> (
                after.interactive matches Some(session) && session.window_id == window_id
                    && session.display_id == before.windows[id].display_id))
                &&& (!before.inventory.contains_key(id) && !before.windows.contains_key(id)
                    ==> after.interactive == before.interactive)
                &&& after.effects == before.effects
            },
            Err(_) => false,
        },
        (before.interactive matches Some(session) && session.window_id == window_id) ==> match step(
            before,
            Event::InteractivePlacementEnded { window_id, committed_manual_placement: committed },
            a,
        ) {
            Ok(after) => {
                &&& after.interactive is None
                &&& (!committed && !before.tiling_active && before.windows.contains_key(
                    window_id.0,
                ) ==> after.effects == before.effects.push(
                    EngineEffect::PlaceWindow {
                        window_id,
                        display_id: before.windows[window_id.0].display_id,
                        bounds: before.windows[window_id.0].bounds,
                    },
                ))
                &&& (committed && !before.tiling_active ==> after.effects == before.effects)
                &&& (!committed && after.windows.contains_key(window_id.0)
                    ==> after.placed_since(window_id, before.effects.len()))
            },
            Err(_) => true,
        },
{
    reveal(Model::on_drag_ended);
    reveal(Model::arranged_placing);
    let m = undisturbed(before);
    let free = Model { interactive: None, deferred: Set::empty(), ..m };
    lemma_arranged(free, a);
    if !m.tiling_active {
        reveal(Model::arranged);
    }
    match free.arranged(a) {
        Ok(next) => {
            if !next.placed_since(window_id, m.effects.len()) && next.windows.contains_key(
                window_id.0,
            ) {
                let told = next.effect(
                    EngineEffect::PlaceWindow {
                        window_id,
                        display_id: next.windows[window_id.0].display_id,
                        bounds: next.windows[window_id.0].bounds,
                    },
                );
                assert(crate::placing::places(
                    told.revised().effects[next.effects.len() as int],
                    window_id,
                ));
                assert(told.revised().placed_since(window_id, m.effects.len()));
            }
            if next.placed_since(window_id, m.effects.len()) {
                let k = choose|k: int|
                    m.effects.len() <= k < next.effects.len() && crate::placing::places(
                        #[trigger] next.effects[k],
                        window_id,
                    );
                assert(crate::placing::places(next.revised().effects[k], window_id));
            }
        },
        Err(_) => {},
    }
}

// Starting up and the breaker.

proof fn lemma_startup(m: Model, windows: Seq<ObservedPlacement>, i: int, id: isize)
    requires
        0 <= i <= windows.len(),
    ensures
        ({
            let after = m.startup_tracked(windows, i);
            &&& after == (Model { windows: after.windows, ..m })
            &&& (m.windows.contains_key(id) ==> after.windows.contains_key(id) && after.windows[id]
                == m.windows[id])
            &&& (!m.windows.contains_key(id) && after.windows.contains_key(id) ==> exists|k: int|
                i <= k < windows.len() && (#[trigger] windows[k]).window_id.0 == id
                    && after.windows[id].display_id == windows[k].display_id
                    && after.windows[id].bounds == windows[k].bounds
                    && after.windows[id].previous_placement is None
                    && after.windows[id].rejection_count == 0)
            &&& forall|k: int|
                i <= k < windows.len() ==> after.windows.contains_key(
                    (#[trigger] windows[k]).window_id.0,
                )
        }),
    decreases windows.len() - i,
{
    if i < windows.len() {
        let seen = windows[i].window_id.0;
        let next = if m.windows.contains_key(seen) {
            m
        } else {
            m.placement_set(
                seen,
                crate::window::first_placement(windows[i].display_id, windows[i].bounds),
            )
        };
        lemma_startup(next, windows, i + 1, id);
        lemma_startup(next, windows, i + 1, seen);
        if !m.windows.contains_key(id) && id == seen {
            assert(windows[i].window_id.0 == id);
        }
    }
}

/// At startup every open window is tracked where it was found, one that was
/// tracked already is left as it is, and nothing is moved.
pub proof fn law_startup_tracks_what_is_open(
    before: Model,
    a: Answers,
    windows: Vec<ObservedPlacement>,
    id: isize,
)
    ensures
        match step(before, Event::StartupReconciliation { windows }, a) {
            Ok(after) => {
                &&& after.effects == before.effects
                &&& after.inventory == before.inventory
                &&& (before.windows.contains_key(id) ==> after.windows.contains_key(id)
                    && after.windows[id] == before.windows[id])
                &&& (!before.windows.contains_key(id) && after.windows.contains_key(id)
                    ==> exists|k: int|
                    0 <= k < windows@.len() && (#[trigger] windows@[k]).window_id.0 == id
                        && after.windows[id].display_id == windows@[k].display_id
                        && after.windows[id].bounds == windows@[k].bounds
                        && after.windows[id].previous_placement is None
                        && after.windows[id].rejection_count == 0)
                &&& forall|k: int|
                    0 <= k < windows@.len() ==> after.windows.contains_key(
                        (#[trigger] windows@[k]).window_id.0,
                    )
            },
            Err(_) => false,
        },
{
    reveal(Model::on_startup);
    lemma_startup(undisturbed(before), windows@, 0, id);
}

/// A third rejection in a row takes a window out of the tiling set, and an
/// acceptance gives it the eligibility that is true of it again.
pub proof fn law_answers_of_the_adapter_count(before: Model, a: Answers, window_id: WindowId)
    requires
        before.windows.contains_key(window_id.0),
        before.inventory.contains_key(window_id.0),
    ensures
        before.windows[window_id.0].rejection_count == 2 ==> match step(
            before,
            Event::PlacementRejected { window_id },
            a,
        ) {
            Ok(after) => after.inventory[window_id.0].eligibility == EligibilityReason::CircuitOpen
                && after.windows[window_id.0].rejection_count == 3,
            Err(_) => true,
        },
        before.windows[window_id.0].rejection_count < 2 ==> match step(
            before,
            Event::PlacementRejected { window_id },
            a,
        ) {
            Ok(after) => after.inventory == before.inventory && after.effects == before.effects
                && after.windows[window_id.0].rejection_count
                == before.windows[window_id.0].rejection_count + 1,
            Err(_) => false,
        },
        before.windows[window_id.0].rejection_count > 0 ==> match step(
            before,
            Event::PlacementAccepted { window_id },
            a,
        ) {
            Ok(after) => after.windows[window_id.0].rejection_count == 0 && why(
                before.inventory[window_id.0].window,
                before.inventory[window_id.0].action,
                false,
                after.inventory[window_id.0].eligibility,
            ),
            Err(_) => false,
        },
{
    reveal(Model::on_accepted);
    reveal(Model::on_rejected);
    crate::laws::commands::law_rejections_open_the_breaker(before, window_id, a);
}

/// A rearrange closes every open breaker and takes those windows up again: no
/// window counts three rejections, and none is kept out for that.
pub proof fn law_a_rearrange_closes_every_breaker(m: Model, id: isize)
    ensures
        ({
            let after = m.breakers_closed();
            &&& after.windows.contains_key(id) == m.windows.contains_key(id)
            &&& (m.windows.contains_key(id) ==> after.windows[id].rejection_count < 3
                && after.windows[id].bounds == m.windows[id].bounds && after.windows[id].display_id
                == m.windows[id].display_id && (m.windows[id].rejection_count < 3
                ==> after.windows[id] == m.windows[id]))
            &&& after.inventory.contains_key(id) == m.inventory.contains_key(id)
            &&& (m.inventory.contains_key(id) ==> after.inventory[id].eligibility
                != EligibilityReason::CircuitOpen && after.inventory[id].window
                == m.inventory[id].window && after.inventory[id].action == m.inventory[id].action
                && (m.inventory[id].eligibility != EligibilityReason::CircuitOpen
                ==> after.inventory[id] == m.inventory[id]))
        }),
{
}

// Toggling.

/// Toggling tiling works only where the profile tiles: it suspends or resumes
/// it for the session.
pub proof fn law_tiling_is_toggled_for_the_session(before: Model, a: Answers)
    ensures
        match step(before, Event::ToggleAutomaticTilingRequested, a) {
            Ok(after) => if before.config.automatic_tiling_enabled {
                after.tiling_suspended == !before.tiling_suspended && after.tiling_active
                    == before.tiling_suspended && after.config == before.config
            } else {
                after == undisturbed(before)
            },
            Err(_) => true,
        },
{
    reveal(Model::on_toggle_tiling);
    reveal(Model::scope_closed);
    let m = undisturbed(before);
    let toggled = Model {
        tiling_suspended: !m.tiling_suspended,
        tiling_active: m.tiling_suspended,
        ..m
    }.scope_opened(crate::commands::CommandLabel::ToggleAutomaticTiling);
    lemma_arranged(toggled, a);
}

/// Toggling a focused window turns its override around: one that a rule tiles
/// floats for the session or stops doing so, one that a rule floats joins the
/// tiling for the session or leaves it again; and its eligibility says so.
pub proof fn law_floating_is_toggled_for_the_session(
    before: Model,
    a: Answers,
    window_id: WindowId,
)
    requires
        before.focused_window == Some(window_id),
        before.inventory.contains_key(window_id.0),
    ensures
        match step(before, Event::ToggleFloatingRequested, a) {
            Ok(after) => {
                let id = window_id.0;
                let managed = before.inventory[id];
                &&& if managed.action == ManageAction::Float {
                    &&& after.session_tiled.contains(id) == !before.session_tiled.contains(id)
                    &&& (after.session_tiled.contains(id) ==> !after.session_floating.contains(id)
                        && after.inventory[id].eligibility == EligibilityReason::Eligible)
                    &&& (!after.session_tiled.contains(id) ==> after.inventory[id].eligibility
                        == EligibilityReason::FloatingRule)
                } else {
                    &&& after.session_tiled == before.session_tiled
                    &&& after.session_floating.contains(id) == !before.session_floating.contains(id)
                    &&& (after.session_floating.contains(id) ==> after.inventory[id].eligibility
                        == EligibilityReason::SessionFloating)
                    &&& (!after.session_floating.contains(id) ==> why(
                        managed.window,
                        managed.action,
                        before.windows.contains_key(id) && before.windows[id].rejection_count >= 3,
                        after.inventory[id].eligibility,
                    ))
                }
            },
            Err(_) => true,
        },
{
    reveal(Model::on_toggle_floating);
    reveal(Model::scope_closed);
    let m = undisturbed(before);
    let toggled = m.scope_opened(
        crate::commands::CommandLabel::ToggleFloating,
    ).floating_toggled(window_id);
    lemma_arranged(toggled, a);
    assert(toggled.inventory.contains_key(window_id.0));
}

/// Waking under another topology takes it up as a change of displays does: the
/// displays and the profile are those of the new topology, the windows of
/// displays that are gone go to the nearest one left, and the rest stay. Waking
/// under the same topology, or to no displays, changes nothing of that.
pub proof fn law_a_wake_takes_up_the_topology(
    before: Model,
    a: Answers,
    displays: Seq<Display>,
    topology: String,
    id: isize,
    from: int,
)
    requires
        before.windows.dom().finite(),
    ensures
        displays.len() == 0 || topology@ == before.topology@ ==> before.woken(
            a,
            displays,
            topology,
        ) == Ok::<Model, Query>(before),
        displays.len() > 0 && topology@ != before.topology@ ==> match before.woken(
            a,
            displays,
            topology,
        ) {
            Ok(after) => {
                &&& after.displays == displays
                &&& after.topology == topology
                &&& after.config_set == before.config_set
                &&& after.config == before.config_set.select(topology@)
                &&& !after.tiling_suspended
                &&& after.tiling_active == after.config.automatic_tiling_enabled
                &&& (after.last_applied_layouts.contains_key(id)
                    <==> before.last_applied_layouts.contains_key(id) && !gone(
                    displays,
                    DisplayId(id),
                ))
                &&& (before.windows.contains_key(id) && called(
                    before.displays,
                    before.windows[id].display_id,
                    from,
                ) ==> if gone(displays, before.windows[id].display_id) {
                    exists|home: int|
                        #![trigger displays[home]]
                        crate::laws::hotplug::is_home(displays, before.displays[from], home)
                            && after.windows[id].display_id == displays[home].id
                } else {
                    after.windows[id] == before.windows[id]
                })
            },
            Err(_) => true,
        },
{
    reveal(Model::woken);
    if displays.len() > 0 && topology@ != before.topology@ {
        match before.orphans_migrated(a, displays) {
            Err(_) => {},
            Ok(moved) => {
                lemma_migration_leaves(before, a, displays);
                lemma_assigned_parts(moved, displays);
                let hidden = moved.vanished_hidden(displays);
                let committed = Model {
                    displays,
                    topology,
                    last_applied_layouts: hidden.last_applied_layouts.restrict(
                        crate::topology::display_ids(displays),
                    ),
                    ..hidden
                };
                let config = committed.config_set.select(committed.topology@);
                let configured = Model {
                    config,
                    tiling_suspended: false,
                    tiling_active: config.automatic_tiling_enabled,
                    ..committed
                };
                lemma_assigned_parts(configured, displays);
                let ready = committed.topology_config();
                lemma_assigned_parts(ready, displays);
                lemma_assigned_parts(ready.displays_filled(), displays);
                lemma_called(displays, DisplayId(id), 0);
                if before.windows.contains_key(id) && called(
                    before.displays,
                    before.windows[id].display_id,
                    from,
                ) {
                    law_orphans_go_to_the_nearest_survivor(before, a, displays, id, from);
                    if gone(displays, before.windows[id].display_id) {
                        let home = choose|home: int| #[trigger]
                            carried(before, moved, a, displays, id, from, home);
                        assert(displays[home].id == moved.windows[id].display_id);
                    }
                }
            },
        }
    }
}

proof fn lemma_by_handle(windows: Seq<Window>, n: int, k: int)
    requires
        0 <= k < n <= windows.len(),
        forall|j: int| k < j < n ==> (#[trigger] windows[j]).id != windows[k].id,
    ensures
        Model::by_handle(windows, n).contains_key(windows[k].id.0),
        Model::by_handle(windows, n)[windows[k].id.0] == windows[k],
    decreases n,
{
    if k < n - 1 {
        lemma_by_handle(windows, n - 1, k);
        assert(windows[n - 1].id != windows[k].id);
    }
}

proof fn lemma_by_handle_only(windows: Seq<Window>, n: int, id: isize)
    requires
        0 <= n <= windows.len(),
        forall|j: int| 0 <= j < n ==> (#[trigger] windows[j]).id != WindowId(id),
    ensures
        !Model::by_handle(windows, n).contains_key(id),
    decreases n,
{
    if n > 0 {
        lemma_by_handle_only(windows, n - 1, id);
        assert(windows[n - 1].id != WindowId(id));
    }
}

/// What was observed last is remembered of every window, the last word where
/// one is reported twice, and of no others: it is what new rules are asked
/// about.
pub proof fn law_what_was_observed_is_remembered(m: Model, windows: Seq<Window>, k: int, id: isize)
    ensures
        ({
            let after = m.remembering(windows).observed_windows;
            &&& (0 <= k < windows.len() && (forall|j: int|
                k < j < windows.len() ==> (#[trigger] windows[j]).id != windows[k].id)
                ==> after.contains_key(windows[k].id.0) && after[windows[k].id.0] == windows[k])
            &&& ((forall|j: int|
                0 <= j < windows.len() ==> (#[trigger] windows[j]).id != WindowId(id))
                ==> !after.contains_key(id))
        }),
{
    let n = windows.len() as int;
    if 0 <= k < n && (forall|j: int|
        k < j < windows.len() ==> (#[trigger] windows[j]).id != windows[k].id) {
        lemma_by_handle(windows, n, k);
    }
    if forall|j: int| 0 <= j < windows.len() ==> (#[trigger] windows[j]).id != WindowId(id) {
        lemma_by_handle_only(windows, n, id);
    }
}

/// A rearrange leaves no breaker open: of the windows it takes up, none counts
/// three rejections afterwards.
pub proof fn law_after_a_rearrange_no_breaker_is_open(
    m: Model,
    a: Answers,
    windows: Seq<Window>,
    id: isize,
)
    ensures
        match (m.on_rearranged(a, windows), m.remembering(windows).observed(a, windows)) {
            (Ok(after), Ok((seen, _))) => seen.windows.contains_key(id)
                ==> after.windows.contains_key(id) && after.windows[id].rejection_count < 3,
            (Ok(_), Err(_)) => false,
            _ => true,
        },
{
    reveal(Model::on_rearranged);
    reveal(Model::scope_closed);
    match m.remembering(windows).observed(a, windows) {
        Err(_) => {},
        Ok((seen, _)) => {
            law_a_rearrange_closes_every_breaker(seen, id);
            let opened = seen.breakers_closed().scope_opened(
                crate::commands::CommandLabel::Rearrange,
            );
            lemma_arranged(opened, a);
            if seen.windows.contains_key(id) {
                assert(opened.windows.contains_key(id));
            }
        },
    }
}

} // verus!
