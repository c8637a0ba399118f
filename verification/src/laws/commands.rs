//! What the engine promises of placing commands and of reports.

use vstd::prelude::*;

verus! {

use crate::answers::{Answers, ContainerTree, Query, TreePlan};
use crate::commands::CommandLabel;
use crate::direction::{legal, nearer, offset, Neighbor, TREE_RESIZE_STEP_PERCENT};
use crate::event::Event;
use crate::laws::frame::lemma_arranged;
use crate::geometry::{
    divider, CardinalDirection, CycleStep, DisplayDirection, DisplayId, HorizontalDirection, Rect,
    WindowId,
};
use crate::laws::events::{lemma_loose_config, lemma_loose_topology};
use crate::layout::outdated;
use crate::reducer::step;
use crate::state::{EngineEffect, Listed, Model};
use crate::table::{lemma_sorted, sorted};
use crate::window::{captured, is_nan, Window, WindowPlacement, CIRCUIT_BREAKER_THRESHOLD};

/// The state as an event finds it.
pub open spec fn undisturbed(before: Model) -> Model {
    Model { undo_scope: None, ..before }
}

/// Events that ask for windows to be placed.
pub open spec fn asks_to_place(event: Event) -> bool {
    ||| event is WindowPlaced
    ||| event is WindowThrowToDisplayRequested
    ||| event is ZoneSnapRequested
    ||| event is SavedLayoutApplyRequested
    ||| event is DirectionalSwapRequested
    ||| event is TreeResizeRequested
    ||| event is TreePositionRemoveRequested
    ||| event is UndoRequested
}

/// While management is paused a request to place windows does nothing at all,
/// and asks nothing.
pub proof fn law_paused_places_nothing(before: Model, event: Event, a: Answers)
    requires
        before.paused,
        asks_to_place(event),
    ensures
        step(before, event, a) == Ok::<Model, Query>(undisturbed(before)),
{
    reveal(Model::on_window_placed);
    reveal(Model::on_throw);
    reveal(Model::on_zone_snap);
    reveal(Model::on_layout);
    reveal(Model::layout_plan);
    reveal(Model::on_swap);
    reveal(Model::swap_plan);
    reveal(Model::on_resize);
    reveal(Model::resize_plan);
    reveal(Model::on_remove_position);
    reveal(Model::removal_plan);
    reveal(Model::on_undo);
}

/// Nothing is arranged while management is paused or automatic tiling is off.
pub proof fn law_nothing_is_arranged_unless_tiling(m: Model, a: Answers)
    requires
        m.paused || !m.tiling_active,
    ensures
        m.arranged(a) == Ok::<Model, Query>(m),
{
    reveal(Model::arranged);
    reveal(Model::balanced);
    reveal(Model::treed);
}

proof fn lemma_tracked_stays(
    m: Model,
    windows: Seq<crate::event::ObservedPlacement>,
    i: int,
    id: isize,
)
    requires
        m.windows.contains_key(id),
    ensures
        m.startup_tracked(windows, i).windows.contains_key(id),
    decreases windows.len() - i,
{
    if i < windows.len() {
        let next = if m.windows.contains_key(windows[i].window_id.0) {
            m
        } else {
            m.placement_set(
                windows[i].window_id.0,
                crate::window::first_placement(windows[i].display_id, windows[i].bounds),
            )
        };
        lemma_tracked_stays(next, windows, i + 1, id);
    }
}

proof fn lemma_startup_tracks(
    m: Model,
    windows: Seq<crate::event::ObservedPlacement>,
    i: int,
    k: int,
)
    requires
        0 <= i <= k < windows.len(),
    ensures
        m.startup_tracked(windows, i).windows.contains_key(windows[k].window_id.0),
    decreases windows.len() - i,
{
    let next = if m.windows.contains_key(windows[i].window_id.0) {
        m
    } else {
        m.placement_set(
            windows[i].window_id.0,
            crate::window::first_placement(windows[i].display_id, windows[i].bounds),
        )
    };
    if i == k {
        lemma_tracked_stays(next, windows, i + 1, windows[k].window_id.0);
    } else {
        lemma_startup_tracks(next, windows, i + 1, k);
    }
}

pub proof fn lemma_startup_again(m: Model, windows: Seq<crate::event::ObservedPlacement>, i: int)
    requires
        m.all_tracked(windows),
        0 <= i,
    ensures
        m.startup_tracked(windows, i) == m,
    decreases windows.len() - i,
{
    if i < windows.len() {
        assert(m.windows.contains_key(windows[i].window_id.0));
        lemma_startup_again(m, windows, i + 1);
    }
}

/// Reports and requests that say how things are, not what to do next.
pub open spec fn says_how_things_are(event: Event) -> bool {
    ||| event is PauseRequested
    ||| event is ResumeRequested
    ||| event is PersistenceHealthChanged
    ||| event is UndoHistoryLoaded
    ||| event is ParkingCapabilityReported
    ||| event is DesktopFocused
    ||| event is FocusDisplayRequested
    ||| event is HotkeyRegistrationReported
    ||| event is PlacementAccepted
    ||| event is WindowBoundsObserved
    ||| event is StartupReconciliation
    ||| event is ConfigChanged
    ||| event is DisplayTopologyChanged
}

proof fn lemma_topology_again(
    m: Model,
    displays: Seq<crate::window::Display>,
    topology: String,
    a: Answers,
)
    requires
        forall|i: int| 0 <= i < displays.len() ==> !is_nan(
            (#[trigger] displays[i]).scale_factor_bits,
        ),
    ensures
        match m.on_topology(a, displays, topology) {
            Ok(after) => undisturbed(after).on_topology(a, displays, topology) == Ok::<
                Model,
                Query,
            >(undisturbed(after)),
            Err(_) => true,
        },
{
    lemma_loose_topology(m, a, displays, topology);
    reveal(Model::on_topology);
    assert forall|i: int| 0 <= i < displays.len() implies #[trigger] crate::window::same_display(
        displays[i],
        displays[i],
    ) by {}
}

/// Whether every number an event reports is one: what is no number never
/// equals what was reported before.
pub open spec fn numbers_only(event: Event) -> bool {
    match event {
        Event::DisplayTopologyChanged { displays, .. } => forall|i: int|
            0 <= i < displays@.len() ==> !is_nan((#[trigger] displays@[i]).scale_factor_bits),
        _ => true,
    }
}

/// Saying the same thing twice in a row changes nothing the second time: the
/// state, its revision and both logs stay as the first time left them.
#[verifier::spinoff_prover]
#[verifier::rlimit(80)]
pub proof fn law_saying_it_again_changes_nothing(before: Model, event: Event, a: Answers)
    requires
        says_how_things_are(event),
        numbers_only(event),
    ensures
        match step(before, event, a) {
            Ok(after) => step(after, event, a) == Ok::<Model, Query>(undisturbed(after)),
            Err(_) => true,
        },
{
    let m = undisturbed(before);
    match event {
        Event::ResumeRequested => {
            reveal(Model::on_resume);
            lemma_arranged(Model { paused: false, ..m }, a);
        },
        Event::PlacementAccepted { window_id } => {
            reveal(Model::on_accepted);
        },
        Event::WindowBoundsObserved { window_id, display_id, bounds } => {
            reveal(Model::on_bounds_observed);
            match step(before, event, a) {
                Ok(after) => {
                    let again = undisturbed(after).on_bounds_observed(
                        window_id,
                        display_id,
                        bounds,
                    );
                    assert(again.windows =~= after.windows);
                },
                Err(_) => {},
            }
        },
        Event::StartupReconciliation { windows } => {
            reveal(Model::on_startup);
            match step(before, event, a) {
                Ok(after) => {
                    assert forall|k: int| 0 <= k < windows@.len() implies after.windows.contains_key(
                        (#[trigger] windows@[k]).window_id.0,
                    ) by {
                        lemma_startup_tracks(m, windows@, 0, k);
                    }
                    assert(undisturbed(after).all_tracked(windows@));
                    lemma_startup_again(undisturbed(after), windows@, 0);
                },
                Err(_) => {},
            }
        },
        Event::ConfigChanged(set) => {
            lemma_loose_config(m, a, set@);
            match step(before, event, a) {
                Ok(after) => {
                    reveal(Model::on_config);
                },
                Err(_) => {},
            }
        },
        Event::DisplayTopologyChanged { displays, topology } => {
            lemma_topology_again(m, displays@, topology, a);
        },
        _ => {},
    }
}

/// A throw that changes where a window belongs tells the adapter so, under
/// tiling as elsewhere, unless the window's breaker is open.
pub proof fn law_a_throw_is_told(
    m: Model,
    a: Answers,
    window_id: WindowId,
    direction: DisplayDirection,
)
    requires
        !m.breaker_open(window_id.0),
    ensures
        match m.on_throw(a, window_id, direction) {
            Ok(after) => {
                let id = window_id.0;
                m.windows.contains_key(id) && after.windows.contains_key(id) && (
                after.windows[id].display_id != m.windows[id].display_id || after.windows[id].bounds
                    != m.windows[id].bounds) ==> after.placed_since(window_id, m.effects.len())
            },
            Err(_) => true,
        },
{
    reveal(Model::on_throw);
    assert forall|to: DisplayId, bounds: Rect|
        #![trigger m.thrown(a, window_id, direction, to, bounds)]
        m.windows.contains_key(window_id.0) implies match m.thrown(
        a,
        window_id,
        direction,
        to,
        bounds,
    ) {
        Ok(after) => after.windows == m.windows || after.placed_since(window_id, m.effects.len())
            || !after.windows.contains_key(window_id.0),
        Err(_) => true,
    } by {
        lemma_thrown_told(m, a, window_id, direction, to, bounds);
    }
}

proof fn lemma_thrown_told(
    m: Model,
    a: Answers,
    window_id: WindowId,
    direction: DisplayDirection,
    to: DisplayId,
    bounds: Rect,
)
    requires
        m.windows.contains_key(window_id.0),
        !m.breaker_open(window_id.0),
    ensures
        match m.thrown(a, window_id, direction, to, bounds) {
            Ok(after) => after.windows == m.windows || after.placed_since(
                window_id,
                m.effects.len(),
            ) || !after.windows.contains_key(window_id.0),
            Err(_) => true,
        },
{
    reveal(Model::thrown);
    reveal(Model::arranged_placing);
    reveal(Model::scope_closed);
    let placement = m.windows[window_id.0];
    let opened = m.scope_opened(CommandLabel::Throw(direction));
    let placed = opened.placed(window_id, to, bounds, None);
    if !m.breaker_open(window_id.0) {
        assert(crate::placing::places(placed.effects[m.effects.len() as int], window_id));
        assert(placed.placed_since(window_id, m.effects.len()));
    }
    let moved = opened.relisted(window_id, placement.display_id, to).placement_set(
        window_id.0,
        WindowPlacement { display_id: to, bounds, ..placement },
    ).inventory_moved(window_id, to, bounds).member_recorded(
        window_id,
        Some((placement.display_id, placement.bounds)),
    );
    assert(moved.effects == m.effects);
    match moved.arranged_placing(a, window_id) {
        Ok(next) => {
            lemma_arranged(moved, a);
            match moved.arranged(a) {
                Ok(arranged) => {
                    if !arranged.placed_since(window_id, moved.effects.len())
                        && arranged.windows.contains_key(window_id.0) {
                        assert(crate::placing::places(
                            next.effects[arranged.effects.len() as int],
                            window_id,
                        ));
                    }
                },
                Err(_) => {},
            }
            assert(next.windows.contains_key(window_id.0) ==> next.placed_since(
                window_id,
                m.effects.len(),
            ));
            match next.revised().scope_closed(a) {
                Ok(after) => {
                    assert(after.effects == next.effects);
                    assert(next.placed_since(window_id, m.effects.len()) ==> after.placed_since(
                        window_id,
                        m.effects.len(),
                    ));
                },
                Err(_) => {},
            }
        },
        Err(_) => {},
    }
    match placed.scope_closed(a) {
        Ok(after) => {
            assert(after.effects == placed.effects);
            assert(placed.placed_since(window_id, m.effects.len()) ==> after.placed_since(
                window_id,
                m.effects.len(),
            ));
        },
        Err(_) => {},
    }
}

// The circuit breaker.

/// A window whose breaker is open is left alone: no placement touches it, and
/// none is asked for.
pub proof fn law_open_breaker_is_left_alone(
    m: Model,
    window_id: WindowId,
    display_id: DisplayId,
    bounds: Rect,
    cycle: Option<(HorizontalDirection, CycleStep)>,
)
    requires
        m.breaker_open(window_id.0),
    ensures
        m.placed(window_id, display_id, bounds, cycle) == m,
{
}

/// Each rejection of a tracked window counts one, up to the limit of the
/// counter, and the one that reaches the threshold takes the window out of
/// the tiling set and opens its breaker.
pub proof fn law_rejections_open_the_breaker(before: Model, window_id: WindowId, a: Answers)
    requires
        before.windows.contains_key(window_id.0),
    ensures
        match step(before, Event::PlacementRejected { window_id }, a) {
            Ok(after) => {
                let count = before.windows[window_id.0].rejection_count;
                &&& after.windows.contains_key(window_id.0)
                &&& after.windows[window_id.0].rejection_count == if count == u8::MAX {
                    count as int
                } else {
                    count + 1
                }
                &&& (count + 1 >= CIRCUIT_BREAKER_THRESHOLD ==> after.breaker_open(window_id.0))
                &&& (count + 1 == CIRCUIT_BREAKER_THRESHOLD && before.inventory.contains_key(
                    window_id.0,
                ) ==> after.inventory.contains_key(window_id.0)
                    && after.inventory[window_id.0].eligibility is CircuitOpen)
            },
            Err(_) => true,
        },
{
    reveal(Model::on_rejected);
    let m = undisturbed(before);
    let placement = m.windows[window_id.0];
    let count = if placement.rejection_count == u8::MAX {
        u8::MAX
    } else {
        (placement.rejection_count + 1) as u8
    };
    let opened = m.placement_set(
        window_id.0,
        WindowPlacement { rejection_count: count, ..placement },
    ).eligibility_set(window_id.0, crate::window::EligibilityReason::CircuitOpen);
    lemma_arranged(opened, a);
    match opened.arranged(a) {
        Ok(next) => {
            assert(opened.windows.contains_key(window_id.0));
            if m.inventory.contains_key(window_id.0) {
                assert(opened.inventory.contains_key(window_id.0));
                assert(next.inventory.dom().contains(window_id.0));
            }
        },
        Err(_) => {},
    }
}

/// An accepted placement closes the breaker again.
pub proof fn law_acceptance_closes_the_breaker(before: Model, window_id: WindowId, a: Answers)
    requires
        before.windows.contains_key(window_id.0),
    ensures
        match step(before, Event::PlacementAccepted { window_id }, a) {
            Ok(after) => after.windows.contains_key(window_id.0)
                && after.windows[window_id.0].rejection_count == 0 && !after.breaker_open(
                window_id.0,
            ),
            Err(_) => false,
        },
{
    reveal(Model::on_accepted);
}

/// Every explicit placement and every reflow leaves the rejections of a
/// window as they were: only an answer from the adapter, a zone snap or a
/// rearrange changes them.
pub proof fn law_arranging_keeps_rejections(m: Model, a: Answers, id: isize)
    requires
        m.windows.contains_key(id),
    ensures
        match m.arranged(a) {
            Ok(after) => after.windows.contains_key(id) && after.windows[id].rejection_count
                == m.windows[id].rejection_count && (m.breaker_open(id) ==> after.windows[id]
                == m.windows[id]),
            Err(_) => true,
        },
{
    lemma_arranged(m, a);
}

// Restoring.

proof fn lemma_scope_closed_only(m: Model, a: Answers)
    ensures
        match m.scope_closed(a) {
            Ok(after) => after == (Model {
                undo_scope: None,
                intents: after.intents,
                ..m
            }),
            Err(_) => true,
        },
{
    reveal(Model::scope_closed);
}

proof fn lemma_restored(
    before: Model,
    a: Answers,
    window_id: WindowId,
    display_id: DisplayId,
    bounds: Rect,
)
    requires
        before.windows.contains_key(window_id.0),
        before.windows[window_id.0].previous_placement == Some((display_id, bounds)),
    ensures
        match step(before, Event::WindowRestoreRequested { window_id }, a) {
            Ok(after) => {
                &&& after.windows == before.windows.insert(
                    window_id.0,
                    WindowPlacement {
                        display_id,
                        bounds,
                        previous_placement: None,
                        ..before.windows[window_id.0]
                    },
                )
                &&& after.effects == before.effects.push(
                    EngineEffect::PlaceWindow { window_id, display_id, bounds },
                )
            },
            Err(_) => true,
        },
{
    reveal(Model::on_restore_requested);
    let m = undisturbed(before);
    let placement = m.windows[window_id.0];
    let told = m.placement_set(
        window_id.0,
        WindowPlacement { display_id, bounds, previous_placement: None, ..placement },
    ).inventory_moved(window_id, display_id, bounds).scope_opened(
        CommandLabel::Restore,
    ).member_recorded(window_id, Some((placement.display_id, placement.bounds))).effect(
        EngineEffect::PlaceWindow { window_id, display_id, bounds },
    ).revised();
    lemma_scope_closed_only(told, a);
}

proof fn lemma_nothing_to_restore(before: Model, a: Answers, window_id: WindowId)
    requires
        before.windows.contains_key(window_id.0),
        before.windows[window_id.0].previous_placement is None,
    ensures
        step(before, Event::WindowRestoreRequested { window_id }, a) == Ok::<Model, Query>(
            undisturbed(before),
        ),
{
    reveal(Model::on_restore_requested);
}

/// A restore undoes the last placement of a window, exactly once: it is back
/// on the display and at the bounds it had, there is nothing left to restore,
/// and restoring again changes nothing.
pub proof fn law_restore_undoes_one_placement(
    m: Model,
    a: Answers,
    window_id: WindowId,
    display_id: DisplayId,
    bounds: Rect,
)
    requires
        m.windows.contains_key(window_id.0),
        !m.breaker_open(window_id.0),
    ensures
        match step(
            m.placed(window_id, display_id, bounds, None),
            Event::WindowRestoreRequested { window_id },
            a,
        ) {
            Ok(after) => {
                &&& after.windows.contains_key(window_id.0)
                &&& after.windows[window_id.0].display_id == m.windows[window_id.0].display_id
                &&& after.windows[window_id.0].bounds == m.windows[window_id.0].bounds
                &&& after.windows[window_id.0].previous_placement is None
                &&& after.effects.len() == m.effects.len() + 2
                &&& after.effects.last() == EngineEffect::PlaceWindow {
                    window_id,
                    display_id: m.windows[window_id.0].display_id,
                    bounds: m.windows[window_id.0].bounds,
                }
                &&& step(after, Event::WindowRestoreRequested { window_id }, a) == Ok::<
                    Model,
                    Query,
                >(undisturbed(after))
            },
            Err(_) => true,
        },
{
    let placed = m.placed(window_id, display_id, bounds, None);
    let old = m.windows[window_id.0];
    lemma_restored(placed, a, window_id, old.display_id, old.bounds);
    match step(placed, Event::WindowRestoreRequested { window_id }, a) {
        Ok(after) => {
            lemma_nothing_to_restore(after, a, window_id);
        },
        Err(_) => {},
    }
}

// Directions.

/// Whether the window of an entry can be reached in a direction, and how far
/// off it is.
pub open spec fn reach(
    m: Model,
    a: Answers,
    direction: CardinalDirection,
    focused: WindowId,
    from: Rect,
    entry: Listed,
) -> Option<(int, int)> {
    if entry.window_id == focused || m.endpoint(a, entry.display_id, entry.window_id) != Ok::<
        bool,
        Query,
    >(true) || !m.windows.contains_key(entry.window_id.0) {
        None
    } else {
        offset(direction, from, m.windows[entry.window_id.0].bounds)
    }
}

/// No farther: nearer along the direction, or as near along and no farther
/// across.
pub open spec fn no_farther(a: (int, int), b: (int, int)) -> bool {
    a.0 < b.0 || (a.0 == b.0 && a.1 <= b.1)
}

pub proof fn lemma_nearest_in(
    m: Model,
    a: Answers,
    direction: CardinalDirection,
    focused: WindowId,
    from: Rect,
    entries: Seq<Listed>,
    i: int,
    best: Option<Neighbor>,
)
    requires
        0 <= i,
    ensures
        match m.nearest_in(a, direction, focused, from, entries, i, best) {
            Ok(None) => {
                &&& best is None
                &&& forall|k: int|
                    i <= k < entries.len() ==> reach(
                        m,
                        a,
                        direction,
                        focused,
                        from,
                        #[trigger] entries[k],
                    ) is None
            },
            Ok(Some(found)) => {
                &&& (best == Some(found) || exists|k: int|
                    i <= k < entries.len() && (#[trigger] entries[k]).window_id == found.window_id
                        && reach(m, a, direction, focused, from, entries[k]) == Some(
                        (found.along, found.across),
                    ))
                &&& (best matches Some(held) ==> no_farther(
                    (found.along, found.across),
                    (held.along, held.across),
                ))
                &&& forall|k: int|
                    i <= k < entries.len() ==> match reach(
                        m,
                        a,
                        direction,
                        focused,
                        from,
                        #[trigger] entries[k],
                    ) {
                        Some(other) => no_farther((found.along, found.across), other),
                        None => true,
                    }
            },
            Err(_) => true,
        },
    decreases entries.len() - i,
{
    if i < entries.len() {
        let entry = entries[i];
        let next = match reach(m, a, direction, focused, from, entry) {
            Some((along, across)) => nearer(
                best,
                Neighbor { window_id: entry.window_id, along, across },
            ),
            None => best,
        };
        lemma_nearest_in(m, a, direction, focused, from, entries, i + 1, next);
    }
}

/// The neighbor in a direction is the nearest window that lies strictly that
/// way among those the focused window's display lists: no other is nearer
/// along the direction, nor as near along it and nearer across it. Without a
/// neighbor, no window lies that way.
pub proof fn law_neighbor_is_nearest(
    m: Model,
    a: Answers,
    direction: CardinalDirection,
    entry: Listed,
)
    requires
        m.focused_window matches Some(focused) && m.inventory.contains_key(focused.0)
            && m.windows.contains_key(focused.0) && m.endpoint(
            a,
            m.inventory[focused.0].window.display_id,
            focused,
        ) == Ok::<bool, Query>(true) && m.order.filter(
            Model::on_display(m.inventory[focused.0].window.display_id),
        ).contains(entry),
    ensures
        ({
            let focused = m.focused_window->0;
            let from = m.windows[focused.0].bounds;
            match m.neighbor(a, direction) {
                Ok(Some(window_id)) => {
                    &&& window_id != focused
                    &&& m.windows.contains_key(window_id.0)
                    &&& offset(direction, from, m.windows[window_id.0].bounds) is Some
                    &&& (reach(m, a, direction, focused, from, entry) matches Some(other)
                        ==> no_farther(
                        offset(direction, from, m.windows[window_id.0].bounds)->0,
                        other,
                    ))
                },
                Ok(None) => reach(m, a, direction, focused, from, entry) is None,
                Err(_) => true,
            }
        }),
{
    reveal(Model::neighbor);
    let focused = m.focused_window->0;
    let entries = m.order.filter(Model::on_display(m.inventory[focused.0].window.display_id));
    let from = m.windows[focused.0].bounds;
    lemma_nearest_in(m, a, direction, focused, from, entries, 0, None);
    let k = choose|k: int| 0 <= k < entries.len() && entries[k] == entry;
    assert(entries[k] == entry);
}

/// A swap exchanges the focused window with exactly the window a directional
/// focus would go to.
pub proof fn law_swap_goes_where_focus_goes(m: Model, a: Answers, direction: CardinalDirection)
    ensures
        match m.swap_plan(a, direction) {
            Ok(Ok(plan)) => Some(plan.window_id) == m.focused_window && m.neighbor(a, direction)
                == Ok::<Option<WindowId>, Query>(Some(plan.neighbor_id)),
            _ => true,
        },
{
    reveal(Model::swap_plan);
}

/// Whether a step of `points` would be legal.
pub open spec fn legal_step(
    m: Model,
    a: Answers,
    direction: CardinalDirection,
    window_id: WindowId,
    area: Rect,
    tree: ContainerTree,
    current: TreePlan,
    points: nat,
) -> bool {
    let (axis, toward) = divider(direction);
    match a.resize_spec(tree, window_id, axis, toward, points as u32) {
        Ok(Some(resized)) => match m.tree_plan(a, resized.tree, area) {
            Ok(plan) => legal(current, plan),
            Err(_) => false,
        },
        _ => false,
    }
}

/// A resize takes the largest legal step: the one it takes is legal, no larger
/// one within the limit is, and where it refuses for lack of room none is.
pub proof fn law_resize_takes_the_largest_legal_step(
    m: Model,
    a: Answers,
    direction: CardinalDirection,
    display_id: DisplayId,
    window_id: WindowId,
    area: Rect,
    tree: ContainerTree,
    current: TreePlan,
    points: nat,
    other: nat,
)
    requires
        points <= TREE_RESIZE_STEP_PERCENT,
        0 < other <= points,
    ensures
        match m.resized_by(a, direction, display_id, window_id, area, tree, current, points) {
            Ok(Ok(plan)) => {
                &&& 0 < plan.applied.percentage_points <= points
                &&& legal_step(
                    m,
                    a,
                    direction,
                    window_id,
                    area,
                    tree,
                    current,
                    plan.applied.percentage_points as nat,
                )
                &&& (other > plan.applied.percentage_points ==> !legal_step(
                    m,
                    a,
                    direction,
                    window_id,
                    area,
                    tree,
                    current,
                    other,
                ))
            },
            Ok(Err(_)) => !legal_step(
                m,
                a,
                direction,
                window_id,
                area,
                tree,
                current,
                other,
            ),
            Err(_) => true,
        },
    decreases points,
{
    if points > 1 {
        law_resize_takes_the_largest_legal_step(
            m,
            a,
            direction,
            display_id,
            window_id,
            area,
            tree,
            current,
            (points - 1) as nat,
            if other < points {
                other
            } else {
                1
            },
        );
    } else {
        reveal_with_fuel(Model::resized_by, 2);
    }
}

/// The width a snap cycles through comes back after three snaps the same way.
pub proof fn law_zone_cycle_has_three_steps(step: CycleStep)
    ensures
        step.successor().successor().successor() == step,
        step.successor() != step,
        step.successor().successor() != step,
{
}

/// A snap the other way, or the first one, starts over at half.
pub proof fn law_zone_cycle_starts_at_half(m: Model, id: isize, direction: HorizontalDirection)
    ensures
        m.windows[id].cycle_step is None || (m.windows[id].cycle_step->0).0 != direction
            ==> m.next_step(id, direction) == CycleStep::Half,
{
}

// Evidence and differences.

/// What is recorded to recognise a window by never depends on its title.
pub proof fn law_evidence_ignores_the_title(
    window: Window,
    title: String,
    launch_order: u32,
    fingerprint: String,
)
    ensures
        captured(Window { title, ..window }, launch_order, fingerprint) == captured(
            window,
            launch_order,
            fingerprint,
        ),
{
}

/// Nothing differs from itself.
pub proof fn law_no_difference_from_itself(current: Map<isize, WindowPlacement>)
    ensures
        sorted(current.dom()).filter(outdated(current, current)) == Seq::<isize>::empty(),
{
    broadcast use vstd::seq_lib::group_filter_ensures;

    let all = sorted(current.dom());
    let pred = outdated(current, current);
    let kept = all.filter(pred);
    if kept.len() > 0 {
        assert(pred(kept[0]));
    }
    assert(kept =~= Seq::<isize>::empty());
}

/// A difference names exactly the windows that moved and whose breaker is
/// closed.
pub proof fn law_difference_is_what_moved(
    previous: Map<isize, WindowPlacement>,
    current: Map<isize, WindowPlacement>,
    id: isize,
)
    requires
        current.dom().finite(),
    ensures
        sorted(current.dom()).filter(outdated(previous, current)).contains(id) <==> {
            &&& current.contains_key(id)
            &&& !current[id].breaker_open()
            &&& !(previous.contains_key(id) && previous[id].display_id == current[id].display_id
                && previous[id].bounds == current[id].bounds)
        },
{
    broadcast use vstd::seq_lib::group_filter_ensures;

    let all = sorted(current.dom());
    let pred = outdated(previous, current);
    lemma_sorted(current.dom());
    assert(all.to_set().contains(id) == current.contains_key(id));
    if current.contains_key(id) && pred(id) {
        let k = choose|k: int| 0 <= k < all.len() && all[k] == id;
        assert(all.filter(pred).contains(all[k]));
    }
    if all.filter(pred).contains(id) {
        let k = choose|k: int| 0 <= k < all.filter(pred).len() && all.filter(pred)[k] == id;
        assert(pred(all.filter(pred)[k]));
        assert(all.contains(id));
    }
}

/// Where the adapter found a window never changes where the engine wants it:
/// the display, the bounds and the placement a restore goes back to stay.
pub proof fn law_observed_bounds_keep_the_intended_placement(
    before: Model,
    window_id: WindowId,
    display_id: DisplayId,
    bounds: Rect,
    a: Answers,
    id: isize,
)
    ensures
        match step(before, Event::WindowBoundsObserved { window_id, display_id, bounds }, a) {
            Ok(after) => {
                &&& after.windows.contains_key(id) == before.windows.contains_key(id)
                &&& (before.windows.contains_key(id) ==> {
                    &&& after.windows[id].display_id == before.windows[id].display_id
                    &&& after.windows[id].bounds == before.windows[id].bounds
                    &&& after.windows[id].previous_placement
                        == before.windows[id].previous_placement
                })
                &&& after.effects == before.effects
            },
            Err(_) => false,
        },
{
    reveal(Model::on_bounds_observed);
}

/// A layout lands on the one display it was asked for, and on no other.
pub proof fn law_layout_lands_on_its_display(m: Model, a: Answers, name: String)
    ensures
        m.layout_plan(a, name) matches Ok(Ok(plan)) ==> m.layout_display() == Some(
            plan.display_id,
        ),
{
    reveal(Model::layout_plan);
}

} // verus!
