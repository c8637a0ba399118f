//! Which window gets which cell, said of where the windows are.

use vstd::prelude::*;

verus! {

use crate::answers::{Answer, Answers, Query};
use crate::geometry::{DisplayId, Rect, WindowId};
use crate::laws::arrangement::{
    law_layout_pairs_windows_with_cells, law_window_order_is_what_can_be_placed,
};
use crate::laws::hotplug::{called, lemma_called};
use crate::ranking::{lemma_ordered, ordered, Ranked};
use crate::state::{EngineEffect, Listed, Model};
use crate::table::{lemma_sorted, sorted};
use crate::window::{ManageAction, WindowLifecycle};

/// Whether the first rectangle is read before the second: its top edge is
/// higher, or as high and it is further left.
pub open spec fn reads_before(p: Rect, q: Rect) -> bool {
    p.y < q.y || p.y == q.y && p.x < q.x
}

/// Whether a window has something on screen of a display.
pub open spec fn on_screen(m: Model, display_id: DisplayId, id: isize) -> bool {
    &&& m.inventory.contains_key(id)
    &&& m.inventory[id].window.display_id == display_id
    &&& (m.inventory[id].window.lifecycle == WindowLifecycle::Active
        || m.inventory[id].window.lifecycle == WindowLifecycle::Maximized)
}

/// Where in a sequence a window stands.
pub open spec fn stands(windows: Seq<WindowId>, i: int, id: isize) -> bool {
    0 <= i < windows.len() && windows[i] == WindowId(id)
}

proof fn lemma_recorded(m: Model, display_id: DisplayId, i: int)
    requires
        0 <= i < m.recorded_order(display_id).len(),
    ensures
        m.order.contains(Listed { display_id, window_id: m.recorded_order(display_id)[i] }),
{
    let pred = m.placeable_entry(display_id);
    let entries = m.order.filter(pred);
    m.order.lemma_filter_pred(pred, i);
    m.order.lemma_filter_contains_rev(pred, entries[i]);
    assert(m.recorded_order(display_id)[i] == entries[i].window_id);
    assert(entries[i] == Listed { display_id, window_id: entries[i].window_id });
}

/// Among the windows of a display that no recorded order mentions, the one
/// whose top edge is higher, or as high and further left, comes first, and the
/// smaller handle where both agree. Windows a recorded order mentions come
/// before all of those.
pub proof fn law_unrecorded_windows_are_read_in_order(
    m: Model,
    display_id: DisplayId,
    p: isize,
    q: isize,
    i: int,
    j: int,
)
    requires
        m.inventory.dom().finite(),
        stands(m.window_order(display_id), i, p),
        stands(m.window_order(display_id), j, q),
        !m.order.contains(Listed { display_id, window_id: WindowId(q) }),
    ensures
        !m.order.contains(Listed { display_id, window_id: WindowId(p) }) && reads_before(
            m.inventory[p].window.bounds,
            m.inventory[q].window.bounds,
        ) ==> i < j,
        !m.order.contains(Listed { display_id, window_id: WindowId(p) })
            && m.inventory[p].window.bounds.y == m.inventory[q].window.bounds.y
            && m.inventory[p].window.bounds.x == m.inventory[q].window.bounds.x && p < q ==> i < j,
        m.order.contains(Listed { display_id, window_id: WindowId(p) }) ==> i < j,
{
    broadcast use vstd::seq_lib::group_filter_ensures;

    let all = sorted(m.inventory.dom());
    lemma_sorted(m.inventory.dom());
    let recorded = m.recorded_order(display_id);
    let pred = m.unrecorded(display_id);
    let left = all.filter(pred);
    let ranks = left.map_values(m.reading_rank());
    let rest = ordered(ranks.to_set());
    lemma_ordered(ranks.to_set());
    let tail = rest.map_values(|item: Ranked| WindowId(item.id));
    let order = m.window_order(display_id);
    assert(order == recorded + tail);
    if j < recorded.len() {
        lemma_recorded(m, display_id, j);
    }
    let y = j - recorded.len();
    assert(tail[y] == WindowId(rest[y].id));
    assert(rest[y].id == q);
    lemma_ranked(m, display_id, y);
    if i >= recorded.len() {
        let x = i - recorded.len();
        assert(tail[x] == WindowId(rest[x].id));
        assert(rest[x].id == p);
        lemma_ranked(m, display_id, x);
        if x > y {
            assert(crate::ranking::ranks_before(rest[y], rest[x]));
        }
        if m.order.contains(Listed { display_id, window_id: WindowId(p) }) {
            let k = choose|k: int|
                0 <= k < m.order.len() && m.order[k] == (Listed {
                    display_id,
                    window_id: WindowId(p),
                });
            let entry_pred = m.placeable_entry(display_id);
            assert(entry_pred(m.order[k]));
            let entries = m.order.filter(entry_pred);
            assert(entries.contains(m.order[k]));
            let n = choose|n: int| 0 <= n < entries.len() && entries[n] == m.order[k];
            assert(recorded[n] == WindowId(p));
            assert(recorded.contains(WindowId(p)));
        }
    }
}

/// Every item of the part in reading order stands for an unrecorded window,
/// ranked by its top and left edges.
proof fn lemma_ranked(m: Model, display_id: DisplayId, x: int)
    requires
        m.inventory.dom().finite(),
        ({
            let ranks = sorted(m.inventory.dom()).filter(m.unrecorded(display_id)).map_values(
                m.reading_rank(),
            );
            0 <= x < ordered(ranks.to_set()).len()
        }),
    ensures
        ({
            let ranks = sorted(m.inventory.dom()).filter(m.unrecorded(display_id)).map_values(
                m.reading_rank(),
            );
            let item = ordered(ranks.to_set())[x];
            &&& m.unrecorded(display_id)(item.id)
            &&& item.first == m.inventory[item.id].window.bounds.y
            &&& item.second == m.inventory[item.id].window.bounds.x
            &&& item.third == 0
        }),
{
    let all = sorted(m.inventory.dom());
    let pred = m.unrecorded(display_id);
    let left = all.filter(pred);
    let ranks = left.map_values(m.reading_rank());
    let rest = ordered(ranks.to_set());
    lemma_ordered(ranks.to_set());
    assert(rest.to_set().contains(rest[x]));
    assert(ranks.to_set().contains(rest[x]));
    let k = choose|k: int| 0 <= k < ranks.len() && ranks[k] == rest[x];
    assert(ranks[k] == m.reading_rank()(left[k]));
    all.lemma_filter_pred(pred, k);
}

/// Windows with a recorded place fill cells in the order it was recorded in:
/// one that stands before another in the visual order, and only once, comes
/// before it.
pub proof fn law_recorded_windows_keep_their_order(
    m: Model,
    display_id: DisplayId,
    x: int,
    y: int,
)
    requires
        0 <= x < y < m.order.len(),
        m.order[x].display_id == display_id,
        m.order[y].display_id == display_id,
        on_screen(m, display_id, m.order[x].window_id.0),
        on_screen(m, display_id, m.order[y].window_id.0),
    ensures
        exists|i: int, j: int|
            i < j && #[trigger] stands(
                m.window_order(display_id),
                i,
                m.order[x].window_id.0,
            ) && #[trigger] stands(m.window_order(display_id), j, m.order[y].window_id.0),
{
    let pred = m.placeable_entry(display_id);
    let recorded = m.recorded_order(display_id);
    let head = m.order.take(y);
    let tail = m.order.skip(y);
    assert(m.order =~= head + tail);
    Seq::filter_distributes_over_add(head, tail, pred);
    let (i, j) = (lemma_filter_finds(head, pred, x), lemma_filter_finds(tail, pred, 0));
    let entries = m.order.filter(pred);
    let second = head.filter(pred).len() + j;
    assert(entries[i] == head.filter(pred)[i]);
    assert(entries[second] == tail.filter(pred)[j]);
    assert(recorded[i] == m.order[x].window_id);
    assert(recorded[second] == m.order[y].window_id);
    assert(stands(m.window_order(display_id), i, m.order[x].window_id.0));
    assert(stands(m.window_order(display_id), second as int, m.order[y].window_id.0));
}

proof fn lemma_filter_finds(all: Seq<Listed>, pred: spec_fn(Listed) -> bool, x: int) -> (at: int)
    requires
        0 <= x < all.len(),
        pred(all[x]),
    ensures
        0 <= at < all.filter(pred).len(),
        all.filter(pred)[at] == all[x],
{
    broadcast use vstd::seq_lib::group_filter_ensures;

    assert(all.filter(pred).contains(all[x]));
    choose|at: int| 0 <= at < all.filter(pred).len() && all.filter(pred)[at] == all[x]
}

/// The cells of a saved layout are the planner's for the work area of the
/// display it lands on, each less the gaps within that area, and they are
/// filled in the order the windows are read: a window that no recorded order
/// mentions and that stands higher, or as high and further left, gets an
/// earlier cell.
pub proof fn law_a_layout_fills_cells_in_reading_order(
    m: Model,
    a: Answers,
    name: String,
    at: int,
    i: int,
    j: int,
)
    requires
        m.inventory.dom().finite(),
    ensures
        match m.layout_plan(a, name) {
            Ok(Ok(plan)) => {
                &&& !m.paused
                &&& plan.display_id == (match m.focused_window {
                    Some(window_id) => if m.inventory.contains_key(window_id.0) {
                        m.inventory[window_id.0].window.display_id
                    } else {
                        m.focused_display->0
                    },
                    None => m.focused_display->0,
                })
                &&& (0 <= i < plan.placements.len() ==> on_screen(
                    m,
                    plan.display_id,
                    plan.placements[i].window_id.0,
                ))
                &&& (called(m.displays, plan.display_id, at) && 0 <= i < plan.placements.len()
                    ==> match m.config.layout(name@) {
                    Some(cells) => match a.look_up(
                        Query::Cells { area: m.displays[at].work_area, cells },
                    ) {
                        Some(Answer::Cells(rects)) => i < rects@.len() && a.look_up(
                            Query::Gapped {
                                raw: rects@[i],
                                area: m.displays[at].work_area,
                                gaps: m.config.gaps,
                            },
                        ) == Some(Answer::Bounds(plan.placements[i].bounds)),
                        _ => false,
                    },
                    None => false,
                })
                &&& (0 <= i < plan.placements.len() && 0 <= j < plan.placements.len() ==> {
                    let p = plan.placements[i].window_id;
                    let q = plan.placements[j].window_id;
                    let listed = |w: WindowId|
                        m.order.contains(Listed { display_id: plan.display_id, window_id: w });
                    &&& (!listed(p) && !listed(q) && reads_before(
                        m.inventory[p.0].window.bounds,
                        m.inventory[q.0].window.bounds,
                    ) ==> i < j)
                    &&& (listed(p) && !listed(q) ==> i < j)
                })
            },
            _ => true,
        },
{
    reveal(Model::layout_plan);
    match m.layout_plan(a, name) {
        Ok(Ok(plan)) => {
            let display_id = plan.display_id;
            let found = crate::topology::display_at(m.displays, display_id)->0;
            let area = m.displays[found].work_area;
            let cells = m.config.layout(name@)->0;
            lemma_called(m.displays, display_id, at);
            law_layout_pairs_windows_with_cells(m, a, cells, display_id, area);
            let windows = m.window_order(display_id);
            if 0 <= i < plan.placements.len() {
                let p = plan.placements[i].window_id;
                assert(windows[i] == p);
                law_window_order_is_what_can_be_placed(m, display_id, p.0);
                assert(windows.contains(windows[i]));
                if 0 <= j < plan.placements.len() {
                    let q = plan.placements[j].window_id;
                    assert(windows[j] == q);
                    if !m.order.contains(Listed { display_id, window_id: q }) {
                        law_unrecorded_windows_are_read_in_order(m, display_id, p.0, q.0, i, j);
                    }
                }
            }
        },
        _ => {},
    }
}

/// Every window with something on screen of the display that a layout has a
/// cell for is placed in it: the number of placements is that of the windows
/// or that of the cells, whichever is less, and the windows left over are
/// counted.
pub proof fn law_a_layout_leaves_no_cell_for_nothing(
    m: Model,
    a: Answers,
    name: String,
    at: int,
    id: isize,
)
    requires
        m.inventory.dom().finite(),
        m.inventory.dom().len() <= usize::MAX,
    ensures
        match (m.layout_plan(a, name), m.config.layout(name@)) {
            (Ok(Ok(plan)), Some(cells)) => called(m.displays, plan.display_id, at) ==> match a.look_up(
                Query::Cells { area: m.displays[at].work_area, cells },
            ) {
                Some(Answer::Cells(rects)) => {
                    &&& plan.placements.len() <= rects@.len()
                    &&& (on_screen(m, plan.display_id, id) && plan.placements.len() < rects@.len()
                        ==> exists|k: int|
                        0 <= k < plan.placements.len() && (
                        #[trigger] plan.placements[k]).window_id == WindowId(id))
                },
                _ => false,
            },
            _ => true,
        },
{
    reveal(Model::layout_plan);
    match (m.layout_plan(a, name), m.config.layout(name@)) {
        (Ok(Ok(plan)), Some(cells)) => {
            let display_id = plan.display_id;
            let found = crate::topology::display_at(m.displays, display_id)->0;
            let area = m.displays[found].work_area;
            lemma_called(m.displays, display_id, at);
            law_layout_pairs_windows_with_cells(m, a, cells, display_id, area);
            law_window_order_is_what_can_be_placed(m, display_id, id);
            let windows = m.window_order(display_id);
            if windows.contains(WindowId(id)) {
                let k = choose|k: int| 0 <= k < windows.len() && windows[k] == WindowId(id);
                if k < plan.placements.len() {
                    assert(plan.placements[k].window_id == WindowId(id));
                }
            }
        },
        _ => {},
    }
}

// The grid.

proof fn lemma_tiling_ranked(m: Model, x: int)
    requires
        m.inventory.dom().finite(),
        0 <= x < m.lined_up().len(),
    ensures
        ({
            let item = m.lined_up()[x];
            &&& m.inventory.contains_key(item.id)
            &&& m.arrangement_display(item.id) is Some
            &&& item.first == (m.arrangement_display(item.id)->0).0
            &&& item.second == m.inventory[item.id].window.bounds.y
            &&& item.third == m.inventory[item.id].window.bounds.x
        }),
{
    let all = sorted(m.inventory.dom());
    let pred = m.arrangeable();
    let left = all.filter(pred);
    let ranks = left.map_values(m.tiling_rank());
    let line = m.lined_up();
    lemma_ordered(ranks.to_set());
    lemma_sorted(m.inventory.dom());
    assert(line.to_set().contains(line[x]));
    assert(ranks.to_set().contains(line[x]));
    let k = choose|k: int| 0 <= k < ranks.len() && ranks[k] == line[x];
    assert(ranks[k] == m.tiling_rank()(left[k]));
    all.lemma_filter_pred(pred, k);
}

/// Entries that were listed stay where they are, and an entry that comes is
/// one of the line, later ones of the line behind earlier ones.
proof fn lemma_listed_in_line(m: Model, order: Seq<Listed>, line: Seq<Ranked>, i: int, x: int, y: int)
    requires
        0 <= i <= line.len(),
    ensures
        ({
            let after = m.listed(order, line, i);
            &&& after.len() >= order.len()
            &&& after.take(order.len() as int) == order
            &&& (order.len() <= x < y < after.len() ==> exists|k: int, n: int|
                #![trigger line[k], line[n]]
                i <= k < n < line.len() && after[x].window_id == WindowId(line[k].id)
                    && after[y].window_id == WindowId(line[n].id))
            &&& (order.len() <= x < after.len() ==> !order.contains(after[x]) && exists|k: int|
                #![trigger line[k]]
                i <= k < line.len() && after[x].window_id == WindowId(line[k].id))
        }),
    decreases line.len() - i,
{
    let after = m.listed(order, line, i);
    if i < line.len() {
        let entry = Listed {
            display_id: m.arrangement_display(line[i].id)->0,
            window_id: WindowId(line[i].id),
        };
        let next = if order.contains(entry) {
            order
        } else {
            order.push(entry)
        };
        lemma_listed_in_line(m, next, line, i + 1, x, y);
        assert(after == m.listed(next, line, i + 1));
        if !order.contains(entry) {
            assert(after.take(order.len() as int) =~= next.take(order.len() as int)) by {
                assert forall|k: int| 0 <= k < order.len() implies after[k] == next[k] by {
                    assert(after.take(next.len() as int)[k] == after[k]);
                }
            }
            assert(next.take(order.len() as int) =~= order);
            assert(after.take(next.len() as int)[order.len() as int] == entry);
            assert(after[order.len() as int] == entry);
            assert(order.len() <= x ==> x == order.len() || next.len() <= x);
            assert forall|e: Listed| order.contains(e) implies next.contains(e) by {
                let k = choose|k: int| 0 <= k < order.len() && order[k] == e;
                assert(next[k] == e);
            }
            if x == order.len() && x < y < after.len() {
                lemma_listed_in_line(m, next, line, i + 1, y, y);
                let n = choose|n: int|
                    #![trigger line[n]]
                    i + 1 <= n < line.len() && after[y].window_id == WindowId(line[n].id);
                assert(line[i] == line[i] && line[n] == line[n]);
                assert(i <= i < n < line.len());
            }
            if x == order.len() {
                assert(line[i].id == line[i].id);
                assert(after[x].window_id == WindowId(line[i].id));
            }
        }
    } else {
        assert(after.take(order.len() as int) =~= order);
    }
}

/// Windows new to a display's tiling line up behind those that were listed, in
/// reading order: one whose top edge is higher, or as high and further left,
/// comes before another new one of the same display. Those that were listed
/// and still belong keep their order.
pub proof fn law_new_windows_line_up_in_reading_order(m: Model, x: int, y: int)
    requires
        m.inventory.dom().finite(),
        m.order.filter(m.stays_listed()).len() <= x < m.refreshed().order.len(),
        m.order.filter(m.stays_listed()).len() <= y < m.refreshed().order.len(),
        m.refreshed().order[x].display_id == m.refreshed().order[y].display_id,
    ensures
        reads_before(
            m.inventory[m.refreshed().order[x].window_id.0].window.bounds,
            m.inventory[m.refreshed().order[y].window_id.0].window.bounds,
        ) ==> x < y,
        !m.order.filter(m.stays_listed()).contains(m.refreshed().order[x]),
        m.refreshed().order.take(m.order.filter(m.stays_listed()).len() as int) == m.order.filter(
            m.stays_listed(),
        ),
{
    let kept = m.order.filter(m.stays_listed());
    let line = m.lined_up();
    let order = m.refreshed().order;
    lemma_listed_in_line(m, kept, line, 0, x, y);
    lemma_listed_in_line(m, kept, line, 0, y, x);
    crate::ranking::lemma_ordered(
        sorted(m.inventory.dom()).filter(m.arrangeable()).map_values(m.tiling_rank()).to_set(),
    );
    if y < x {
        let (k, n) = choose|k: int, n: int|
            #![trigger line[k], line[n]]
            0 <= k < n < line.len() && order[y].window_id == WindowId(line[k].id)
                && order[x].window_id == WindowId(line[n].id);
        lemma_tiling_ranked(m, k);
        lemma_tiling_ranked(m, n);
        assert(crate::ranking::ranks_before(line[k], line[n]));
        crate::laws::reflow::lemma_refreshed_stands(m);
        assert(m.stays_listed()(order[x]));
        assert(m.stays_listed()(order[y]));
    }
}

/// Whether the adapter was told since `start` to put a window somewhere.
pub open spec fn told_since(
    m: Model,
    start: nat,
    window_id: WindowId,
    display_id: DisplayId,
    bounds: Rect,
) -> bool {
    exists|k: int|
        start <= k < m.effects.len() && #[trigger] m.effects[k] == (EngineEffect::PlaceWindow {
            window_id,
            display_id,
            bounds,
        })
}

/// Every window is where it was, or where the adapter was told to put it.
pub open spec fn all_told(before: Model, after: Model) -> bool {
    &&& crate::laws::frame::extends(before.effects, after.effects)
    &&& forall|id: isize|
        #![trigger after.windows[id]]
        after.windows.contains_key(id) ==> {
            ||| before.windows.contains_key(id) && before.windows[id].display_id
                == after.windows[id].display_id && before.windows[id].bounds
                == after.windows[id].bounds
            ||| told_since(
                after,
                before.effects.len(),
                WindowId(id),
                after.windows[id].display_id,
                after.windows[id].bounds,
            )
        }
}

pub proof fn lemma_told_extends(
    m: Model,
    n: Model,
    start: nat,
    window_id: WindowId,
    display_id: DisplayId,
    bounds: Rect,
)
    requires
        told_since(m, start, window_id, display_id, bounds),
        crate::laws::frame::extends(m.effects, n.effects),
    ensures
        told_since(n, start, window_id, display_id, bounds),
{
    let k = choose|k: int|
        start <= k < m.effects.len() && #[trigger] m.effects[k] == (EngineEffect::PlaceWindow {
            window_id,
            display_id,
            bounds,
        });
    assert(n.effects[k] == m.effects[k]);
}

pub proof fn lemma_told_arranged_at(
    start: Model,
    m: Model,
    window_id: WindowId,
    display_id: DisplayId,
    bounds: Rect,
)
    requires
        all_told(start, m),
    ensures
        ({
            let after = m.arranged_at(window_id, display_id, bounds);
            &&& all_told(start, after)
            &&& crate::laws::frame::extends(m.effects, after.effects)
            &&& (m.breaker_open(window_id.0) || m.current_placement(window_id.0) == Some(
                (display_id, bounds),
            ) || told_since(after, m.effects.len(), window_id, display_id, bounds))
            &&& forall|id: isize|
                (#[trigger] after.breaker_open(id)) == m.breaker_open(id)
        }),
{
    let after = m.arranged_at(window_id, display_id, bounds);
    if after != m {
        assert(after.effects[m.effects.len() as int] == (EngineEffect::PlaceWindow {
            window_id,
            display_id,
            bounds,
        }));
        assert(told_since(after, m.effects.len(), window_id, display_id, bounds));
        assert(told_since(after, start.effects.len(), window_id, display_id, bounds));
        assert forall|id: isize|
            #![trigger after.windows[id]]
            after.windows.contains_key(id) && id != window_id.0 implies {
            ||| start.windows.contains_key(id) && start.windows[id].display_id
                == after.windows[id].display_id && start.windows[id].bounds
                == after.windows[id].bounds
            ||| told_since(
                after,
                start.effects.len(),
                WindowId(id),
                after.windows[id].display_id,
                after.windows[id].bounds,
            )
        } by {
            assert(after.windows[id] == m.windows[id]);
            if told_since(
                m,
                start.effects.len(),
                WindowId(id),
                m.windows[id].display_id,
                m.windows[id].bounds,
            ) {
                lemma_told_extends(
                    m,
                    after,
                    start.effects.len(),
                    WindowId(id),
                    m.windows[id].display_id,
                    m.windows[id].bounds,
                );
            }
        }
    }
}

/// A window that was at a place, or was told to go there.
pub open spec fn is_at(
    before: Model,
    after: Model,
    window_id: WindowId,
    display_id: DisplayId,
    bounds: Rect,
) -> bool {
    ||| before.windows.contains_key(window_id.0) && before.windows[window_id.0].rejection_count >= 3
    ||| before.windows.contains_key(window_id.0) && before.windows[window_id.0].display_id
        == display_id && before.windows[window_id.0].bounds == bounds
    ||| told_since(after, before.effects.len(), window_id, display_id, bounds)
}

proof fn lemma_tiled_told(
    start: Model,
    m: Model,
    a: Answers,
    windows: Seq<WindowId>,
    cells: Seq<Rect>,
    k: int,
    display_id: DisplayId,
    area: Rect,
    n: int,
)
    requires
        0 <= k,
        all_told(start, m),
        forall|id: isize| (#[trigger] m.breaker_open(id)) == start.breaker_open(id),
    ensures
        match m.tiled(a, windows, cells, k, display_id, area) {
            Ok(after) => {
                &&& all_told(start, after)
                &&& crate::laws::frame::extends(m.effects, after.effects)
                &&& after.config == m.config
                &&& after.interactive == m.interactive
                &&& forall|id: isize| (#[trigger] after.breaker_open(id)) == start.breaker_open(id)
                &&& (k <= n < windows.len() && n < cells.len() ==> match a.gapped_spec(
                    cells[n],
                    area,
                    m.config.gaps,
                ) {
                    Ok(bounds) => is_at(start, after, windows[n], display_id, bounds),
                    Err(_) => false,
                })
            },
            Err(_) => true,
        },
    decreases windows.len() - k,
{
    if k < windows.len() && k < cells.len() {
        match a.gapped_spec(cells[k], area, m.config.gaps) {
            Ok(bounds) => {
                let next = m.arranged_at(windows[k], display_id, bounds);
                lemma_told_arranged_at(start, m, windows[k], display_id, bounds);
                lemma_tiled_told(start, next, a, windows, cells, k + 1, display_id, area, n);
                match next.tiled(a, windows, cells, k + 1, display_id, area) {
                    Ok(after) => {
                        assert forall|j: int| 0 <= j < m.effects.len() implies #[trigger]
                            after.effects[j] == m.effects[j] by {
                            assert(next.effects[j] == m.effects[j]);
                        }
                        let id = windows[k].0;
                        assert(m.breaker_open(id) == start.breaker_open(id));
                        if n == k && !m.breaker_open(id) {
                            if m.current_placement(id) == Some((display_id, bounds)) {
                                assert(m.windows[id].bounds == bounds);
                                if told_since(
                                    m,
                                    start.effects.len(),
                                    windows[k],
                                    display_id,
                                    bounds,
                                ) {
                                    lemma_told_extends(
                                        m,
                                        after,
                                        start.effects.len(),
                                        windows[k],
                                        display_id,
                                        bounds,
                                    );
                                }
                            } else {
                                assert(told_since(
                                    next,
                                    start.effects.len(),
                                    windows[k],
                                    display_id,
                                    bounds,
                                ));
                                lemma_told_extends(
                                    next,
                                    after,
                                    start.effects.len(),
                                    windows[k],
                                    display_id,
                                    bounds,
                                );
                            }
                        }
                    },
                    Err(_) => {},
                }
            },
            Err(_) => {},
        }
    }
}

proof fn lemma_gridded_told(start: Model, m: Model, a: Answers, base: Model, i: int, d: int, n: int)
    requires
        0 <= i,
        all_told(start, m),
        forall|id: isize| (#[trigger] m.breaker_open(id)) == start.breaker_open(id),
        m.config == base.config,
        m.interactive == base.interactive,
    ensures
        match m.gridded(a, base, i) {
            Ok(after) => {
                &&& all_told(start, after)
                &&& crate::laws::frame::extends(m.effects, after.effects)
                &&& (i <= d < base.displays.len() && !base.defers(base.displays[d].id) ==> {
                    let windows = base.active_on(base.displays[d].id);
                    let area = base.displays[d].work_area;
                    match a.grid_spec(area, windows.len() as usize) {
                        Ok(cells) => 0 <= n < windows.len() && n < cells.len()
                            ==> match a.gapped_spec(cells[n], area, base.config.gaps) {
                            Ok(bounds) => is_at(
                                start,
                                after,
                                windows[n],
                                base.displays[d].id,
                                bounds,
                            ),
                            Err(_) => false,
                        },
                        Err(_) => false,
                    }
                })
            },
            Err(_) => true,
        },
    decreases base.displays.len() - i,
{
    if i < base.displays.len() {
        let display = base.displays[i];
        if m.defers(display.id) {
            let next = m.deferred_for(display.id);
            assert forall|id: isize| (#[trigger] next.breaker_open(id)) == start.breaker_open(
                id,
            ) by {
                assert(next.breaker_open(id) == m.breaker_open(id));
            }
            lemma_gridded_told(start, next, a, base, i + 1, d, n);
        } else {
            let windows = base.active_on(display.id);
            match a.grid_spec(display.work_area, windows.len() as usize) {
                Ok(cells) => {
                    lemma_tiled_told(
                        start,
                        m,
                        a,
                        windows,
                        cells,
                        0,
                        display.id,
                        display.work_area,
                        n,
                    );
                    match m.tiled(a, windows, cells, 0, display.id, display.work_area) {
                        Ok(next) => {
                            lemma_gridded_told(start, next, a, base, i + 1, d, n);
                            match next.gridded(a, base, i + 1) {
                                Ok(after) => {
                                    assert forall|j: int| 0 <= j < m.effects.len() implies #[trigger]
                                        after.effects[j] == m.effects[j] by {
                                        assert(next.effects[j] == m.effects[j]);
                                    }
                                    if d == i && 0 <= n < windows.len() && n < cells.len() {
                                        let bounds = a.gapped_spec(
                                            cells[n],
                                            display.work_area,
                                            m.config.gaps,
                                        )->Ok_0;
                                        if told_since(
                                            next,
                                            start.effects.len(),
                                            windows[n],
                                            display.id,
                                            bounds,
                                        ) {
                                            lemma_told_extends(
                                                next,
                                                after,
                                                start.effects.len(),
                                                windows[n],
                                                display.id,
                                                bounds,
                                            );
                                        }
                                    }
                                },
                                Err(_) => {},
                            }
                        },
                        Err(_) => {},
                    }
                },
                Err(_) => {},
            }
        }
    }
}

/// The balanced grid asks for as many cells of a display's work area as there
/// are windows to arrange on it, and window for window, in the visual order,
/// each gets its cell less the gaps: it is there already or the adapter is
/// told, unless its breaker is open. Every window that ends up elsewhere than
/// it was, the adapter was told so.
pub proof fn law_the_grid_fills_cells_in_order(m: Model, a: Answers, d: int, n: int)
    requires
        m.tiling_active && !m.paused,
        0 <= d < m.displays.len(),
        m.interactive is None || (m.interactive->0).display_id != m.displays[d].id,
    ensures
        match m.balanced(a) {
            Ok(after) => {
                let area = m.displays[d].work_area;
                let windows = m.refreshed().active_on(m.displays[d].id);
                &&& all_told(m, after)
                &&& match a.look_up(Query::Grid { area, count: windows.len() as usize }) {
                    Some(Answer::Cells(cells)) => 0 <= n < windows.len() && n < cells@.len()
                        ==> match a.look_up(
                        Query::Gapped { raw: cells@[n], area, gaps: m.config.gaps },
                    ) {
                        Some(Answer::Bounds(bounds)) => is_at(
                            m,
                            after,
                            windows[n],
                            m.displays[d].id,
                            bounds,
                        ),
                        _ => false,
                    },
                    _ => false,
                }
            },
            Err(_) => true,
        },
{
    let base = m.unstructured().refreshed();
    lemma_same_refresh(m);
    assert(all_told(m, base));
    lemma_gridded_told(m, base, a, base, 0, d, n);
    assert(base.active_on(m.displays[d].id) == m.refreshed().active_on(m.displays[d].id)) by {
        let p = base.is_active(m.displays[d].id);
        let q = m.refreshed().is_active(m.displays[d].id);
        assert(base.stays_listed() =~= m.refreshed().stays_listed());
        assert(p =~= q);
    }
}

/// Trees and overflow have no part in the visual order.
proof fn lemma_same_refresh(m: Model)
    ensures
        m.unstructured().refreshed().order == m.refreshed().order,
{
    let u = m.unstructured();
    assert(u.stays_listed() =~= m.stays_listed());
    assert(u.arrangeable() =~= m.arrangeable());
    assert(u.tiling_rank() =~= m.tiling_rank());
    assert(u.lined_up() == m.lined_up());
    lemma_same_listed(u, m, m.order.filter(m.stays_listed()), m.lined_up(), 0);
}

proof fn lemma_same_listed(u: Model, m: Model, order: Seq<Listed>, line: Seq<Ranked>, i: int)
    requires
        u == m.unstructured(),
    ensures
        u.listed(order, line, i) == m.listed(order, line, i),
    decreases line.len() - i,
{
    if i < line.len() {
        let entry = Listed {
            display_id: m.arrangement_display(line[i].id)->0,
            window_id: WindowId(line[i].id),
        };
        lemma_same_listed(u, m, order, line, i + 1);
        lemma_same_listed(u, m, order.push(entry), line, i + 1);
    }
}

/// Only windows that take part in tiling, that are eligible, and that are
/// arranged on a display are arranged there, and each of them that the order
/// lists is: a managed window that tiles by rule or by choice for the session.
/// A member of a workspace is arranged where the workspace is displayed, and
/// nowhere while it is hidden.
pub proof fn law_who_is_arranged(m: Model, display_id: DisplayId, id: isize)
    ensures
        m.active_on(display_id).contains(WindowId(id)) <==> {
            &&& m.order.contains(Listed { display_id, window_id: WindowId(id) })
            &&& m.inventory.contains_key(id)
            &&& m.inventory[id].eligibility == crate::window::EligibilityReason::Eligible
            &&& (m.inventory[id].action == ManageAction::Tile || m.session_tiled.contains(id))
            &&& m.arrangement_display(id) == Some(display_id)
        },
        !m.workspaces.members.contains_key(id) && m.inventory.contains_key(id)
            ==> m.arrangement_display(id) == Some(m.inventory[id].window.display_id),
        m.workspaces.members.contains_key(id) ==> (forall|k: int|
            0 <= k < m.workspaces.list.len() && (#[trigger] m.workspaces.list[k]).name.key@
                == m.workspaces.members[id].key@ && (forall|j: int|
                0 <= j < k ==> (#[trigger] m.workspaces.list[j]).name.key@
                    != m.workspaces.members[id].key@) ==> m.arrangement_display(id)
                == m.workspaces.list[k].displayed_on),
{
    broadcast use vstd::seq_lib::group_filter_ensures;

    let pred = m.is_active(display_id);
    let entries = m.order.filter(pred);
    let entry = Listed { display_id, window_id: WindowId(id) };
    if m.active_on(display_id).contains(WindowId(id)) {
        let k = choose|k: int|
            0 <= k < m.active_on(display_id).len() && m.active_on(display_id)[k] == WindowId(id);
        assert(entries[k].window_id == WindowId(id));
        m.order.lemma_filter_pred(pred, k);
        m.order.lemma_filter_contains_rev(pred, entries[k]);
        assert(entries[k] == entry);
    }
    if m.order.contains(entry) && pred(entry) {
        let k = choose|k: int| 0 <= k < m.order.len() && m.order[k] == entry;
        assert(entries.contains(m.order[k]));
        let n = choose|n: int| 0 <= n < entries.len() && entries[n] == entry;
        assert(m.active_on(display_id)[n] == WindowId(id));
    }
    if m.workspaces.members.contains_key(id) {
        let name = m.workspaces.members[id];
        let p = m.workspaces.named(name.key@);
        crate::text::lemma_first_index(m.workspaces.list.len(), p);
        assert forall|k: int|
            0 <= k < m.workspaces.list.len() && (#[trigger] m.workspaces.list[k]).name.key@
                == name.key@ && (forall|j: int|
                0 <= j < k ==> (#[trigger] m.workspaces.list[j]).name.key@ != name.key@) implies
            m.arrangement_display(id) == m.workspaces.list[k].displayed_on by {
            assert(p(k));
            let found = m.workspaces.find(name)->0;
            assert(p(found));
            if found < k {
                assert(m.workspaces.list[found].name.key@ != name.key@);
            }
        }
    }
}

} // verus!
