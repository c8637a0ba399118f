//! Which way the directional commands go, said of the rectangles themselves.

use vstd::prelude::*;

verus! {

use crate::answers::{Answer, Answers, Query};
use crate::commands::CommandLabel;
use crate::config::TilingMode;
use crate::direction::offset;
use crate::event::Event;
use crate::geometry::{CardinalDirection, DisplayId, Rect, SplitAxis, Toward, WindowId};
use crate::laws::commands::{lemma_nearest_in, reach, undisturbed};
use crate::reducer::step;
use crate::state::{Listed, Model};
use crate::text::lemma_first_index;
use crate::window::EligibilityReason;

/// How far the center of `to` lies beyond that of `from` in a direction, in
/// half pixels: negative where it lies the other way.
pub open spec fn ahead(direction: CardinalDirection, from: Rect, to: Rect) -> int {
    match direction {
        CardinalDirection::Left => (2 * from.x + from.width) - (2 * to.x + to.width),
        CardinalDirection::Right => (2 * to.x + to.width) - (2 * from.x + from.width),
        CardinalDirection::Up => (2 * from.y + from.height) - (2 * to.y + to.height),
        CardinalDirection::Down => (2 * to.y + to.height) - (2 * from.y + from.height),
    }
}

/// How far the center of `to` lies off to either side of that line.
pub open spec fn aside(direction: CardinalDirection, from: Rect, to: Rect) -> int {
    let off = match direction {
        CardinalDirection::Left | CardinalDirection::Right => (2 * to.y + to.height) - (2 * from.y
            + from.height),
        CardinalDirection::Up | CardinalDirection::Down => (2 * to.x + to.width) - (2 * from.x
            + from.width),
    };
    if off < 0 {
        -off
    } else {
        off
    }
}

/// A window a directional command may go from or to: eligible and on the
/// display and, where trees arrange the windows, a window of the display's
/// tree that fits.
pub open spec fn reachable(m: Model, a: Answers, display_id: DisplayId, window_id: WindowId) -> bool {
    &&& m.inventory.contains_key(window_id.0)
    &&& m.inventory[window_id.0].eligibility == EligibilityReason::Eligible
    &&& m.inventory[window_id.0].window.display_id == display_id
    &&& m.windows.contains_key(window_id.0)
    &&& (m.config.tiling_mode == TilingMode::Tree && m.tiling_active ==> {
        &&& m.trees.contains_key(display_id.0)
        &&& !m.constraint_overflow.contains(Listed { display_id, window_id })
        &&& match a.look_up(Query::Shape { tree: m.trees[display_id.0] }) {
            Some(Answer::Shape(shape)) => shape.windows@.contains(window_id),
            _ => false,
        }
    })
}

/// A window lies in a direction from another exactly where the other lies in
/// the opposite direction from it, and as far.
pub proof fn law_opposite_directions_mirror(a: Rect, b: Rect)
    ensures
        offset(CardinalDirection::Down, a, b) == offset(CardinalDirection::Up, b, a),
        offset(CardinalDirection::Right, a, b) == offset(CardinalDirection::Left, b, a),
        offset(CardinalDirection::Down, a, b) is Some <==> 2 * a.y + a.height < 2 * b.y + b.height,
        offset(CardinalDirection::Right, a, b) is Some <==> 2 * a.x + a.width < 2 * b.x + b.width,
        offset(CardinalDirection::Up, a, b) is Some <==> 2 * b.y + b.height < 2 * a.y + a.height,
        offset(CardinalDirection::Left, a, b) is Some <==> 2 * b.x + b.width < 2 * a.x + a.width,
{
}

proof fn lemma_offset(direction: CardinalDirection, from: Rect, to: Rect)
    ensures
        match offset(direction, from, to) {
            Some((along, across)) => along == ahead(direction, from, to) && across == aside(
                direction,
                from,
                to,
            ) && along > 0,
            None => ahead(direction, from, to) <= 0,
        },
{
}

proof fn lemma_reach(
    m: Model,
    a: Answers,
    direction: CardinalDirection,
    focused: WindowId,
    from: Rect,
    entry: Listed,
)
    ensures
        reach(m, a, direction, focused, from, entry) matches Some((along, across)) ==> {
            &&& reachable(m, a, entry.display_id, entry.window_id)
            &&& entry.window_id != focused
            &&& ahead(direction, from, m.windows[entry.window_id.0].bounds) > 0
            &&& along == ahead(direction, from, m.windows[entry.window_id.0].bounds)
            &&& across == aside(direction, from, m.windows[entry.window_id.0].bounds)
        },
        reachable(m, a, entry.display_id, entry.window_id) && entry.window_id != focused && ahead(
            direction,
            from,
            m.windows[entry.window_id.0].bounds,
        ) > 0 ==> reach(m, a, direction, focused, from, entry) is Some,
{
    if m.windows.contains_key(entry.window_id.0) {
        lemma_offset(direction, from, m.windows[entry.window_id.0].bounds);
    }
}

/// The window a direction leads to lies strictly that way from the focused
/// one, on the same display: its center is above for up, below for down, and
/// to the left or right for those. No other reachable window that way is
/// nearer, along the direction first and across it second. Where the direction
/// leads nowhere, no reachable window lies that way.
pub proof fn law_a_direction_leads_that_way(
    m: Model,
    a: Answers,
    direction: CardinalDirection,
    focused: WindowId,
    other: WindowId,
)
    requires
        m.focused_window == Some(focused),
    ensures
        match m.neighbor(a, direction) {
            Ok(Some(found)) => {
                let display_id = m.inventory[focused.0].window.display_id;
                let from = m.windows[focused.0].bounds;
                let to = m.windows[found.0].bounds;
                &&& reachable(m, a, display_id, focused)
                &&& reachable(m, a, display_id, found)
                &&& m.order.contains(Listed { display_id, window_id: found })
                &&& match direction {
                    CardinalDirection::Up => 2 * to.y + to.height < 2 * from.y + from.height,
                    CardinalDirection::Down => 2 * to.y + to.height > 2 * from.y + from.height,
                    CardinalDirection::Left => 2 * to.x + to.width < 2 * from.x + from.width,
                    CardinalDirection::Right => 2 * to.x + to.width > 2 * from.x + from.width,
                }
                &&& (other != focused && reachable(m, a, display_id, other) && m.order.contains(
                    Listed { display_id, window_id: other },
                ) && ahead(direction, from, m.windows[other.0].bounds) > 0 ==> {
                    let there = m.windows[other.0].bounds;
                    ||| ahead(direction, from, to) < ahead(direction, from, there)
                    ||| ahead(direction, from, to) == ahead(direction, from, there) && aside(
                        direction,
                        from,
                        to,
                    ) <= aside(direction, from, there)
                })
            },
            Ok(None) => {
                let display_id = m.inventory[focused.0].window.display_id;
                reachable(m, a, display_id, focused) && other != focused && reachable(
                    m,
                    a,
                    display_id,
                    other,
                ) && m.order.contains(Listed { display_id, window_id: other }) ==> ahead(
                    direction,
                    m.windows[focused.0].bounds,
                    m.windows[other.0].bounds,
                ) <= 0
            },
            Err(_) => true,
        },
{
    broadcast use vstd::seq_lib::group_filter_ensures;

    reveal(Model::neighbor);
    let display_id = m.inventory[focused.0].window.display_id;
    let from = m.windows[focused.0].bounds;
    let pred = Model::on_display(display_id);
    let entries = m.order.filter(pred);
    let entry = Listed { display_id, window_id: other };
    match m.neighbor(a, direction) {
        Err(_) => {},
        Ok(result) => {
            lemma_nearest_in(m, a, direction, focused, from, entries, 0, None);
            lemma_reach(m, a, direction, focused, from, entry);
            if m.order.contains(entry) {
                let j = choose|j: int| 0 <= j < m.order.len() && m.order[j] == entry;
                assert(pred(m.order[j]));
                assert(entries.contains(m.order[j]));
                let k = choose|k: int| 0 <= k < entries.len() && entries[k] == entry;
                assert(entries[k] == entry);
            }
            match result {
                Some(found) => {
                    let best = m.nearest_in(
                        a,
                        direction,
                        focused,
                        from,
                        entries,
                        0,
                        None,
                    )->Ok_0->0;
                    let k = choose|k: int|
                        0 <= k < entries.len() && (#[trigger] entries[k]).window_id
                            == best.window_id && reach(m, a, direction, focused, from, entries[k])
                            == Some((best.along, best.across));
                    m.order.lemma_filter_pred(pred, k);
                    m.order.lemma_filter_contains_rev(pred, entries[k]);
                    assert(entries[k] == Listed { display_id, window_id: found });
                    lemma_reach(m, a, direction, focused, from, entries[k]);
                },
                None => {},
            }
        },
    }
}

/// Where a direction led from one window to another, the opposite direction
/// leads back somewhere: from the other window at least the first lies that
/// way.
pub proof fn law_there_is_a_way_back(
    m: Model,
    a: Answers,
    direction: CardinalDirection,
    back: CardinalDirection,
    focused: WindowId,
    found: WindowId,
)
    requires
        m.focused_window == Some(focused),
        m.neighbor(a, direction) == Ok::<Option<WindowId>, Query>(Some(found)),
        m.order.contains(
            Listed {
                display_id: m.inventory[focused.0].window.display_id,
                window_id: focused,
            },
        ),
        match direction {
            CardinalDirection::Up => back == CardinalDirection::Down,
            CardinalDirection::Down => back == CardinalDirection::Up,
            CardinalDirection::Left => back == CardinalDirection::Right,
            CardinalDirection::Right => back == CardinalDirection::Left,
        },
    ensures
        match (Model { focused_window: Some(found), ..m }).neighbor(a, back) {
            Ok(returned) => returned is Some,
            Err(_) => true,
        },
{
    law_a_direction_leads_that_way(m, a, direction, focused, focused);
    let there = Model { focused_window: Some(found), ..m };
    law_a_direction_leads_that_way(there, a, back, found, focused);
}

/// A directional focus tells the adapter to focus the window the direction
/// leads to, and moves nothing; where it leads nowhere nothing happens.
pub proof fn law_directional_focus_goes_that_way(
    before: Model,
    a: Answers,
    direction: CardinalDirection,
)
    ensures
        match step(before, Event::DirectionalFocusRequested { direction }, a) {
            Ok(after) => {
                ||| after == undisturbed(before)
                ||| {
                    let focused = before.focused_window->0;
                    let told = after.effects.last();
                    let from = before.windows[focused.0].bounds;
                    let to = before.windows[told->FocusWindow_window_id.0].bounds;
                    &&& before.focused_window is Some
                    &&& told is FocusWindow
                    &&& after.effects == before.effects.push(told)
                    &&& after.windows == before.windows
                    &&& after.order == before.order
                    &&& before.inventory[told->FocusWindow_window_id.0].window.display_id
                        == before.inventory[focused.0].window.display_id
                    &&& match direction {
                        CardinalDirection::Up => 2 * to.y + to.height < 2 * from.y + from.height,
                        CardinalDirection::Down => 2 * to.y + to.height > 2 * from.y + from.height,
                        CardinalDirection::Left => 2 * to.x + to.width < 2 * from.x + from.width,
                        CardinalDirection::Right => 2 * to.x + to.width > 2 * from.x + from.width,
                    }
                }
            },
            Err(_) => true,
        },
{
    reveal(Model::on_directional_focus);
    let m = undisturbed(before);
    match m.focused_window {
        Some(focused) => {
            law_a_direction_leads_that_way(m, a, direction, focused, focused);
        },
        None => {
            reveal(Model::neighbor);
        },
    }
}

/// A swap exchanges the places of the focused window and of the window the
/// direction leads to in the visual order, and no other window's: each is
/// where the other was.
pub proof fn law_a_swap_exchanges_two_places(
    m: Model,
    a: Answers,
    direction: CardinalDirection,
    i: int,
    j: int,
)
    requires
        0 <= i < m.order.len(),
        0 <= j < m.order.len(),
        i != j,
    ensures
        ({
            let after = m.order_swapped(i, j).order;
            &&& after.len() == m.order.len()
            &&& after[i] == m.order[j]
            &&& after[j] == m.order[i]
            &&& forall|k: int|
                0 <= k < m.order.len() && k != i && k != j ==> #[trigger] after[k] == m.order[k]
        }),
        m.swap_plan(a, direction) matches Ok(Ok(plan)) ==> {
            let from = m.windows[plan.window_id.0].bounds;
            let to = m.windows[plan.neighbor_id.0].bounds;
            &&& m.focused_window == Some(plan.window_id)
            &&& plan.display_id == m.inventory[plan.window_id.0].window.display_id
            &&& plan.display_id == m.inventory[plan.neighbor_id.0].window.display_id
            &&& plan.command == CommandLabel::Swap(direction)
            &&& match direction {
                CardinalDirection::Up => 2 * to.y + to.height < 2 * from.y + from.height,
                CardinalDirection::Down => 2 * to.y + to.height > 2 * from.y + from.height,
                CardinalDirection::Left => 2 * to.x + to.width < 2 * from.x + from.width,
                CardinalDirection::Right => 2 * to.x + to.width > 2 * from.x + from.width,
            }
        },
{
    reveal(Model::swap_plan);
    match m.focused_window {
        Some(focused) => {
            law_a_direction_leads_that_way(m, a, direction, focused, focused);
        },
        None => {},
    }
}

/// What a resize asks of the tree: to move the nearest divider of the focused
/// window along the axis of the direction, towards its start for left and up
/// and its end for right and down, within the work area of the window's
/// display, by at most five points.
pub proof fn law_a_resize_moves_the_divider_that_way(
    m: Model,
    a: Answers,
    direction: CardinalDirection,
    focused: WindowId,
    at: int,
)
    requires
        m.focused_window == Some(focused),
        0 <= at < m.displays.len(),
        m.displays[at].id == m.inventory[focused.0].window.display_id,
        forall|k: int| 0 <= k < at ==> (#[trigger] m.displays[k]).id != m.displays[at].id,
    ensures
        m.resize_plan(a, direction) matches Ok(Ok(plan)) ==> {
            let tree = m.trees[m.displays[at].id.0];
            let axis = match direction {
                CardinalDirection::Left | CardinalDirection::Right => SplitAxis::Horizontal,
                CardinalDirection::Up | CardinalDirection::Down => SplitAxis::Vertical,
            };
            let toward = match direction {
                CardinalDirection::Left | CardinalDirection::Up => Toward::Start,
                CardinalDirection::Right | CardinalDirection::Down => Toward::End,
            };
            let points = plan.applied.percentage_points;
            &&& plan.applied.window_id == focused
            &&& plan.applied.display_id == m.displays[at].id
            &&& 1 <= points <= 5
            &&& a.look_up(Query::Divider { tree, window_id: focused, axis, toward }) == Some(
                Answer::Present(true),
            )
            &&& match a.look_up(
                Query::Resize { tree, window_id: focused, axis, toward, points },
            ) {
                Some(Answer::Resized(Some(resized))) => {
                    &&& resized.tree == plan.tree
                    &&& resized.change == plan.applied.change
                    &&& match a.look_up(Query::Shape { tree: resized.tree }) {
                        Some(Answer::Shape(shape)) => a.look_up(
                            Query::Plan {
                                tree: resized.tree,
                                area: m.displays[at].work_area,
                                gaps: m.config.gaps,
                                minimums: m.minimums(shape.windows@),
                            },
                        ) matches Some(Answer::Plan(_)),
                        _ => false,
                    }
                },
                _ => false,
            }
        },
{
    reveal(Model::resize_plan);
    let display_id = m.displays[at].id;
    lemma_first_index(m.displays.len(), crate::topology::display_is(m.displays, display_id));
    assert(crate::topology::display_is(m.displays, display_id)(at));
    assert(crate::topology::display_at(m.displays, display_id) == Some(at)) by {
        let found = crate::topology::display_at(m.displays, display_id)->0;
        assert(crate::topology::display_is(m.displays, display_id)(found));
        if found < at {
            assert(m.displays[found].id != m.displays[at].id);
        }
    }
    match m.resize_plan(a, direction) {
        Ok(Ok(plan)) => {
            let area = m.displays[at].work_area;
            let tree = m.trees[display_id.0];
            let current = m.tree_plan(a, tree, area)->Ok_0;
            lemma_resized_by(m, a, direction, display_id, focused, area, tree, current, 5);
        },
        _ => {},
    }
}

pub proof fn lemma_resized_by(
    m: Model,
    a: Answers,
    direction: CardinalDirection,
    display_id: DisplayId,
    window_id: WindowId,
    area: Rect,
    tree: crate::answers::ContainerTree,
    current: crate::answers::TreePlan,
    points: nat,
)
    requires
        points <= 5,
    ensures
        m.resized_by(
            a,
            direction,
            display_id,
            window_id,
            area,
            tree,
            current,
            points,
        ) matches Ok(Ok(plan)) ==> {
            let taken = plan.applied.percentage_points;
            let (axis, toward) = crate::geometry::divider(direction);
            &&& 1 <= taken <= points
            &&& plan.applied.window_id == window_id
            &&& plan.applied.display_id == display_id
            &&& match a.look_up(Query::Resize { tree, window_id, axis, toward, points: taken }) {
                Some(Answer::Resized(Some(resized))) => resized.tree == plan.tree && resized.change
                    == plan.applied.change && m.tree_plan(a, resized.tree, area) is Ok,
                _ => false,
            }
        },
    decreases points,
{
    if points > 0 {
        lemma_resized_by(
            m,
            a,
            direction,
            display_id,
            window_id,
            area,
            tree,
            current,
            (points - 1) as nat,
        );
    }
}

} // verus!
