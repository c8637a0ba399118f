//! Where a snap, a throw, a restore and a manual placement put a window, said
//! of the displays and of what the planners answered.

use vstd::prelude::*;

verus! {

use crate::answers::{Answer, Answers, Query, Zone};
use crate::commands::ZoneSnapDirection;
use crate::config::TilingMode;
use crate::event::Event;
use crate::geometry::{
    CycleStep, DisplayDirection, DisplayId, HalfZone, HorizontalDirection, Rect, WindowId,
};
use crate::laws::commands::undisturbed;
use crate::laws::frame::lemma_arranged;
use crate::laws::hotplug::{called, lemma_called};
use crate::reducer::step;
use crate::state::{EngineEffect, Listed, Model};
use crate::window::WindowPlacement;

proof fn lemma_tiled_leaves(
    m: Model,
    a: Answers,
    windows: Seq<WindowId>,
    cells: Seq<Rect>,
    k: int,
    display_id: DisplayId,
    area: Rect,
    id: isize,
)
    requires
        0 <= k,
        !windows.contains(WindowId(id)),
    ensures
        match m.tiled(a, windows, cells, k, display_id, area) {
            Ok(after) => {
                &&& after.windows.contains_key(id) == m.windows.contains_key(id)
                &&& after.windows[id] == m.windows[id]
            },
            Err(_) => true,
        },
    decreases windows.len() - k,
{
    if k < windows.len() && k < cells.len() {
        match a.gapped_spec(cells[k], area, m.config.gaps) {
            Ok(bounds) => {
                assert(windows.contains(windows[k]));
                lemma_tiled_leaves(
                    m.arranged_at(windows[k], display_id, bounds),
                    a,
                    windows,
                    cells,
                    k + 1,
                    display_id,
                    area,
                    id,
                );
            },
            Err(_) => {},
        }
    }
}

proof fn lemma_gridded_leaves(m: Model, a: Answers, base: Model, i: int, id: isize)
    requires
        0 <= i,
        forall|d: DisplayId| !(#[trigger] base.active_on(d)).contains(WindowId(id)),
    ensures
        match m.gridded(a, base, i) {
            Ok(after) => {
                &&& after.windows.contains_key(id) == m.windows.contains_key(id)
                &&& after.windows[id] == m.windows[id]
            },
            Err(_) => true,
        },
    decreases base.displays.len() - i,
{
    if i < base.displays.len() {
        let display = base.displays[i];
        if m.defers(display.id) {
            lemma_gridded_leaves(m.deferred_for(display.id), a, base, i + 1, id);
        } else {
            let windows = base.active_on(display.id);
            match a.grid_spec(display.work_area, windows.len() as usize) {
                Ok(cells) => {
                    lemma_tiled_leaves(
                        m,
                        a,
                        windows,
                        cells,
                        0,
                        display.id,
                        display.work_area,
                        id,
                    );
                    match m.tiled(a, windows, cells, 0, display.id, display.work_area) {
                        Ok(next) => {
                            lemma_gridded_leaves(next, a, base, i + 1, id);
                        },
                        Err(_) => {},
                    }
                },
                Err(_) => {},
            }
        }
    }
}

/// A window the grid does not arrange stays where it is.
pub proof fn law_the_grid_leaves_other_windows_alone(m: Model, a: Answers, id: isize)
    requires
        !m.inventory.contains_key(id) || m.inventory[id].eligibility
            != crate::window::EligibilityReason::Eligible,
        m.config.tiling_mode == TilingMode::Balanced,
    ensures
        match m.arranged(a) {
            Ok(after) => after.windows.contains_key(id) == m.windows.contains_key(id)
                && after.windows[id] == m.windows[id],
            Err(_) => true,
        },
{
    reveal(Model::arranged);
    let base = m.unstructured().refreshed();
    assert forall|d: DisplayId| !(#[trigger] base.active_on(d)).contains(WindowId(id)) by {
        if base.active_on(d).contains(WindowId(id)) {
            let pred = base.is_active(d);
            let entries = base.order.filter(pred);
            let k = choose|k: int|
                0 <= k < base.active_on(d).len() && base.active_on(d)[k] == WindowId(id);
            assert(entries[k].window_id == WindowId(id));
            base.order.lemma_filter_pred(pred, k);
        }
    }
    lemma_gridded_leaves(base, a, base, 0, id);
}

/// The zone a snap asks for. Left and right cycle: a repeated snap the same
/// way goes from half to a third to two thirds and back, any other starts at
/// half. Top and bottom are halves.
pub open spec fn wanted_zone(
    direction: ZoneSnapDirection,
    last: Option<(HorizontalDirection, CycleStep)>,
) -> Zone {
    match direction {
        ZoneSnapDirection::Top => Zone::Half(HalfZone::TopHalf),
        ZoneSnapDirection::Bottom => Zone::Half(HalfZone::BottomHalf),
        ZoneSnapDirection::Left => Zone::Cycle(
            HorizontalDirection::Left,
            if last == Some((HorizontalDirection::Left, CycleStep::Half)) {
                CycleStep::Third
            } else if last == Some((HorizontalDirection::Left, CycleStep::Third)) {
                CycleStep::TwoThirds
            } else {
                CycleStep::Half
            },
        ),
        ZoneSnapDirection::Right => Zone::Cycle(
            HorizontalDirection::Right,
            if last == Some((HorizontalDirection::Right, CycleStep::Half)) {
                CycleStep::Third
            } else if last == Some((HorizontalDirection::Right, CycleStep::Third)) {
                CycleStep::TwoThirds
            } else {
                CycleStep::Half
            },
        ),
    }
}

/// A snap puts the focused window into its zone of the work area of its
/// display, less the gaps: the planner's zone of exactly that work area, and
/// its gapped form within the same area. The adapter is told so first of all,
/// the window remembers where it was, its breaker is closed, and left and
/// right note where the cycle stands. Off trees that is where it ends up.
pub proof fn law_a_snap_takes_its_zone_of_the_work_area(
    before: Model,
    a: Answers,
    direction: ZoneSnapDirection,
    window_id: WindowId,
    at: int,
)
    requires
        !before.paused,
        before.focused_window == Some(window_id),
        before.windows.contains_key(window_id.0),
        called(before.displays, before.windows[window_id.0].display_id, at),
    ensures
        match step(before, Event::ZoneSnapRequested { direction }, a) {
            Ok(after) => {
                let id = window_id.0;
                let area = before.displays[at].work_area;
                let zone = wanted_zone(direction, before.windows[id].cycle_step);
                match a.look_up(Query::Zone { area, zone }) {
                    Some(Answer::Bounds(raw)) => match a.look_up(
                        Query::Gapped { raw, area, gaps: before.config.gaps },
                    ) {
                        Some(Answer::Bounds(bounds)) => {
                            &&& after.effects.len() > before.effects.len()
                            &&& after.effects[before.effects.len() as int] == (
                            EngineEffect::PlaceWindow {
                                window_id,
                                display_id: before.displays[at].id,
                                bounds,
                            })
                            &&& (!before.tiling_active || before.config.tiling_mode
                                == TilingMode::Balanced ==> {
                                let placed = after.windows[id];
                                &&& after.windows.contains_key(id)
                                &&& placed.bounds == bounds
                                &&& placed.display_id == before.displays[at].id
                                &&& placed.observed_bounds == bounds
                                &&& placed.previous_placement == Some(
                                    (
                                        before.windows[id].display_id,
                                        before.windows[id].bounds,
                                    ),
                                )
                                &&& placed.rejection_count == 0
                                &&& placed.cycle_step == match zone {
                                    Zone::Cycle(way, taken) => Some((way, taken)),
                                    Zone::Half(_) => before.windows[id].cycle_step,
                                }
                            })
                            &&& (before.tiling_active ==> after.session_floating.contains(id))
                        },
                        _ => false,
                    },
                    _ => false,
                }
            },
            Err(_) => true,
        },
{
    reveal(Model::on_zone_snap);
    reveal(Model::snapped);
    reveal(Model::scope_closed);
    let m = undisturbed(before);
    let id = window_id.0;
    lemma_called(m.displays, m.windows[id].display_id, at);
    let area = m.displays[at].work_area;
    let (zone, cycle) = m.snap_zone(id, direction);
    assert(zone == wanted_zone(direction, m.windows[id].cycle_step));
    match (a.zone_spec(area, zone)) {
        Err(_) => {},
        Ok(raw) => match a.gapped_spec(raw, area, m.config.gaps) {
            Err(_) => {},
            Ok(bounds) => {
                let placement = m.windows[id];
                let opened = m.placement_set(
                    id,
                    WindowPlacement { rejection_count: 0, ..placement },
                ).scope_opened(crate::commands::CommandLabel::ZoneSnap(direction));
                let placed = opened.placed(window_id, placement.display_id, bounds, cycle);
                assert(placed.effects[m.effects.len() as int] == (EngineEffect::PlaceWindow {
                    window_id,
                    display_id: placement.display_id,
                    bounds,
                }));
                let floated = placed.session_float(window_id, true);
                lemma_arranged(floated, a);
                if m.config.tiling_mode == TilingMode::Balanced {
                    law_the_grid_leaves_other_windows_alone(floated, a, id);
                }
                match floated.arranged(a) {
                    Ok(next) => {
                        assert(next.effects[m.effects.len() as int]
                            == floated.effects[m.effects.len() as int]);
                    },
                    Err(_) => {},
                }
            },
        },
    }
}

/// A throw asks where the window's share of its display's work area lies in
/// the work area of the display the planner names next in that direction, and
/// that is where the window goes: off tiling it ends up there and the adapter
/// is told exactly that; under tiling its record moves to that display.
pub proof fn law_a_throw_keeps_the_share_of_the_work_area(
    before: Model,
    a: Answers,
    window_id: WindowId,
    direction: DisplayDirection,
    at: int,
)
    requires
        !before.paused,
        before.windows.contains_key(window_id.0),
        called(before.displays, before.windows[window_id.0].display_id, at),
    ensures
        match step(before, Event::WindowThrowToDisplayRequested { window_id, direction }, a) {
            Ok(after) => {
                let id = window_id.0;
                match a.look_up(
                    Query::Adjacent {
                        displays: before.displays,
                        from: before.windows[id].display_id,
                        direction,
                    },
                ) {
                    Some(Answer::Display(Some(to))) => forall|there: int| #[trigger]
                        called(before.displays, to, there) ==> match a.look_up(
                            Query::Thrown {
                                bounds: before.windows[id].bounds,
                                from: before.displays[at].work_area,
                                to: before.displays[there].work_area,
                            },
                        ) {
                            Some(Answer::Bounds(bounds)) => !before.tiling_active
                                && before.windows[id].rejection_count < 3 ==> {
                                &&& after.windows[id].display_id == to
                                &&& after.windows[id].bounds == bounds
                                &&& after.windows[id].previous_placement == Some(
                                    (
                                        before.windows[id].display_id,
                                        before.windows[id].bounds,
                                    ),
                                )
                                &&& after.effects == before.effects.push(
                                    EngineEffect::PlaceWindow { window_id, display_id: to, bounds },
                                )
                                &&& (before.inventory.contains_key(id)
                                    ==> after.inventory[id].window.display_id == to
                                    && after.inventory[id].window.bounds == bounds)
                            },
                            _ => false,
                        },
                    Some(Answer::Display(None)) => after == undisturbed(before),
                    _ => false,
                }
            },
            Err(_) => true,
        },
{
    reveal(Model::on_throw);
    reveal(Model::thrown);
    reveal(Model::scope_closed);
    let m = undisturbed(before);
    let id = window_id.0;
    lemma_called(m.displays, m.windows[id].display_id, at);
    match a.adjacent_spec(m.displays, m.windows[id].display_id, direction) {
        Ok(Some(to)) => {
            assert forall|there: int| #[trigger]
                called(before.displays, to, there) implies crate::topology::display_at(
                m.displays,
                to,
            ) == Some(there) by {
                lemma_called(m.displays, to, there);
            }
        },
        _ => {},
    }
}

/// Under tiling a thrown window is listed under its new display only, and its
/// inventory record goes there with it before anything is arranged.
pub proof fn law_a_throw_relists_the_window(
    m: Model,
    window_id: WindowId,
    from: DisplayId,
    to: DisplayId,
)
    requires
        from != to,
    ensures
        ({
            let after = m.relisted(window_id, from, to).order;
            &&& after.contains(Listed { display_id: to, window_id })
            &&& !after.contains(Listed { display_id: from, window_id })
            &&& forall|entry: Listed|
                entry.window_id != window_id ==> (#[trigger] after.contains(entry)
                    == m.order.contains(entry))
        }),
{
    broadcast use vstd::seq_lib::group_filter_ensures;

    let leaving = Listed { display_id: from, window_id };
    let entry = Listed { display_id: to, window_id };
    let pred = Model::not_entry(leaving);
    let left = m.order.filter(pred);
    let after = m.relisted(window_id, from, to).order;
    assert(after.contains(entry)) by {
        if !left.contains(entry) {
            assert(after[left.len() as int] == entry);
        }
    }
    assert forall|other: Listed| other != entry implies after.contains(other) == left.contains(
        other,
    ) by {
        if left.contains(other) {
            let k = choose|k: int| 0 <= k < left.len() && left[k] == other;
            assert(after[k] == other);
        }
        if after.contains(other) {
            let k = choose|k: int| 0 <= k < after.len() && after[k] == other;
            if k < left.len() {
                assert(left[k] == other);
            }
        }
    }
    assert forall|other: Listed| left.contains(other) == (m.order.contains(other) && other
        != leaving) by {
        if left.contains(other) {
            let k = choose|k: int| 0 <= k < left.len() && left[k] == other;
            m.order.lemma_filter_pred(pred, k);
            m.order.lemma_filter_contains_rev(pred, other);
        }
        if m.order.contains(other) && other != leaving {
            let k = choose|k: int| 0 <= k < m.order.len() && m.order[k] == other;
            assert(pred(m.order[k]));
            assert(left.contains(m.order[k]));
        }
    }
}

/// A placement by hand puts the window exactly where it was put, remembers
/// where it was, and tells the adapter. Under tiling the window floats from
/// here on, so off trees that is where it ends up.
pub proof fn law_a_manual_placement_is_taken_as_it_is(
    before: Model,
    a: Answers,
    window_id: WindowId,
    display_id: DisplayId,
    bounds: Rect,
)
    requires
        !before.paused,
        before.windows.contains_key(window_id.0) ==> before.windows[window_id.0].rejection_count
            < 3,
    ensures
        match step(before, Event::WindowPlaced { window_id, display_id, bounds }, a) {
            Ok(after) => {
                let id = window_id.0;
                &&& after.effects.len() > before.effects.len()
                &&& after.effects[before.effects.len() as int] == (EngineEffect::PlaceWindow {
                    window_id,
                    display_id,
                    bounds,
                })
                &&& (before.tiling_active ==> after.session_floating.contains(id))
                &&& (!before.tiling_active || before.config.tiling_mode == TilingMode::Balanced
                    ==> {
                    &&& after.windows.contains_key(id)
                    &&& after.windows[id].display_id == display_id
                    &&& after.windows[id].bounds == bounds
                    &&& after.windows[id].previous_placement == if before.windows.contains_key(
                        id,
                    ) {
                        Some((before.windows[id].display_id, before.windows[id].bounds))
                    } else {
                        None
                    }
                    &&& after.windows[id].cycle_step == if before.windows.contains_key(id) {
                        before.windows[id].cycle_step
                    } else {
                        None
                    }
                })
            },
            Err(_) => true,
        },
{
    reveal(Model::on_window_placed);
    let m = undisturbed(before);
    let id = window_id.0;
    let floated = if m.tiling_active {
        m.session_float(window_id, true)
    } else {
        m
    };
    let placed = floated.placed(window_id, display_id, bounds, None);
    assert(placed.effects[m.effects.len() as int] == (EngineEffect::PlaceWindow {
        window_id,
        display_id,
        bounds,
    }));
    lemma_arranged(placed, a);
    if !m.tiling_active {
        reveal(Model::arranged);
    } else if m.config.tiling_mode == TilingMode::Balanced {
        law_the_grid_leaves_other_windows_alone(placed, a, id);
    }
    match placed.arranged(a) {
        Ok(next) => {
            assert(next.effects[m.effects.len() as int] == placed.effects[m.effects.len() as int]);
        },
        Err(_) => {},
    }
}

} // verus!
