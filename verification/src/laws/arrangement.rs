//! What the engine promises of layouts, and of the order of windows.

use vstd::prelude::*;

verus! {

use crate::answers::{Answers, ContainerTree, LayoutCells, PlannedPlacement, Query};
use crate::event::Event;
use crate::geometry::{DisplayId, Rect, WindowId};
use crate::laws::commands::undisturbed;
use crate::ranking::Ranked;
use crate::reducer::step;
use crate::state::Model;
use crate::table::{ascending, lemma_sorted, sorted};

// Saved layouts and other arrangements.

/// A command that is refused its arrangement changes nothing at all.
pub proof fn law_refused_arrangements_change_nothing(before: Model, event: Event, a: Answers)
    ensures
        match event {
            Event::SavedLayoutApplyRequested { name } => undisturbed(before).layout_plan(
                a,
                name,
            ) matches Ok(Err(_)) ==> step(before, event, a) == Ok::<Model, Query>(
                undisturbed(before),
            ),
            Event::DirectionalSwapRequested { direction } => undisturbed(before).swap_plan(
                a,
                direction,
            ) matches Ok(Err(_)) ==> step(before, event, a) == Ok::<Model, Query>(
                undisturbed(before),
            ),
            Event::TreeResizeRequested { direction } => undisturbed(before).resize_plan(
                a,
                direction,
            ) matches Ok(Err(_)) ==> step(before, event, a) == Ok::<Model, Query>(
                undisturbed(before),
            ),
            Event::TreePositionRemoveRequested { display_id, position } => undisturbed(
                before,
            ).removal_plan(a, display_id, position) matches Ok(Err(_)) ==> step(before, event, a)
                == Ok::<Model, Query>(undisturbed(before)),
            _ => true,
        },
{
    reveal(Model::on_layout);
    reveal(Model::on_swap);
    reveal(Model::on_resize);
    reveal(Model::on_remove_position);
}

/// A layout pairs windows and cells one by one, in order: as many placements
/// as there are of the fewer, and every window without a cell counted.
pub proof fn law_layout_pairs_windows_with_cells(
    m: Model,
    a: Answers,
    cells: LayoutCells,
    display_id: DisplayId,
    area: Rect,
)
    ensures
        match (m.layout_on(a, cells, display_id, area), a.layout_spec(area, cells)) {
            (Ok(plan), Ok(rects)) => {
                let windows = m.window_order(display_id);
                &&& plan.display_id == display_id
                &&& plan.placements.len() == if windows.len() <= rects.len() {
                    windows.len()
                } else {
                    rects.len()
                }
                &&& (windows.len() <= usize::MAX ==> plan.placements.len() + plan.unplaced
                    == windows.len())
                &&& forall|k: int|
                    0 <= k < plan.placements.len() ==> (
                    #[trigger] plan.placements[k]).window_id == windows[k] && Ok::<Rect, Query>(
                        plan.placements[k].bounds,
                    ) == a.gapped_spec(rects[k], area, m.config.gaps)
            },
            _ => true,
        },
{
    let windows = m.window_order(display_id);
    match a.layout_spec(area, cells) {
        Ok(rects) => {
            lemma_celled(m, a, windows, rects, area, 0, Seq::empty());
        },
        Err(_) => {},
    }
}

proof fn lemma_celled(
    m: Model,
    a: Answers,
    windows: Seq<WindowId>,
    cells: Seq<Rect>,
    area: Rect,
    k: int,
    done: Seq<PlannedPlacement>,
)
    requires
        0 <= k,
        k <= windows.len(),
        k <= cells.len(),
        done.len() == k,
        forall|j: int|
            0 <= j < k ==> (#[trigger] done[j]).window_id == windows[j] && Ok::<Rect, Query>(
                done[j].bounds,
            ) == a.gapped_spec(cells[j], area, m.config.gaps),
    ensures
        match m.celled(a, windows, cells, area, k, done) {
            Ok(placements) => {
                &&& placements.len() == if windows.len() <= cells.len() {
                    windows.len()
                } else {
                    cells.len()
                }
                &&& forall|j: int|
                    0 <= j < placements.len() ==> (#[trigger] placements[j]).window_id
                        == windows[j] && Ok::<Rect, Query>(placements[j].bounds)
                        == a.gapped_spec(cells[j], area, m.config.gaps)
            },
            Err(_) => true,
        },
    decreases windows.len() - k,
{
    if k < windows.len() && k < cells.len() {
        match a.gapped_spec(cells[k], area, m.config.gaps) {
            Ok(bounds) => {
                let more = done.push(PlannedPlacement { window_id: windows[k], bounds });
                lemma_celled(m, a, windows, cells, area, k + 1, more);
            },
            Err(_) => {},
        }
    }
}

/// The balanced grid keeps no structure: once it has arranged the windows no
/// display has a tree, and nothing counts as not fitting.
pub proof fn law_the_grid_keeps_no_trees(m: Model, a: Answers)
    requires
        m.tiling_active && !m.paused,
    ensures
        match m.balanced(a) {
            Ok(after) => after.trees == Map::<isize, ContainerTree>::empty()
                && after.constraint_overflow.len() == 0,
            Err(_) => true,
        },
{
    let base = m.unstructured().refreshed();
    lemma_gridded_keeps_trees(base, a, base, 0);
}

proof fn lemma_gridded_keeps_trees(m: Model, a: Answers, base: Model, i: int)
    ensures
        match m.gridded(a, base, i) {
            Ok(after) => after.trees == m.trees && after.constraint_overflow
                == m.constraint_overflow,
            Err(_) => true,
        },
    decreases base.displays.len() - i,
{
    if i < base.displays.len() {
        let display = base.displays[i];
        if m.defers(display.id) {
            lemma_gridded_keeps_trees(m.deferred_for(display.id), a, base, i + 1);
        } else {
            let windows = base.active_on(display.id);
            match a.grid_spec(display.work_area, windows.len() as usize) {
                Ok(cells) => {
                    lemma_tiled_keeps_trees(
                        m,
                        a,
                        windows,
                        cells,
                        0,
                        display.id,
                        display.work_area,
                    );
                    match m.tiled(a, windows, cells, 0, display.id, display.work_area) {
                        Ok(next) => {
                            lemma_gridded_keeps_trees(next, a, base, i + 1);
                        },
                        Err(_) => {},
                    }
                },
                Err(_) => {},
            }
        }
    }
}

proof fn lemma_tiled_keeps_trees(
    m: Model,
    a: Answers,
    windows: Seq<WindowId>,
    cells: Seq<Rect>,
    k: int,
    display_id: DisplayId,
    area: Rect,
)
    ensures
        match m.tiled(a, windows, cells, k, display_id, area) {
            Ok(after) => after.trees == m.trees && after.constraint_overflow
                == m.constraint_overflow,
            Err(_) => true,
        },
    decreases windows.len() - k,
{
    if k < windows.len() && k < cells.len() {
        match a.gapped_spec(cells[k], area, m.config.gaps) {
            Ok(bounds) => {
                lemma_tiled_keeps_trees(
                    m.arranged_at(windows[k], display_id, bounds),
                    a,
                    windows,
                    cells,
                    k + 1,
                    display_id,
                    area,
                );
            },
            Err(_) => {},
        }
    }
}

/// Every window with something on screen of a display is in its visual order,
/// and no other window is.
pub proof fn law_window_order_is_what_can_be_placed(m: Model, display_id: DisplayId, id: isize)
    requires
        m.inventory.dom().finite(),
    ensures
        m.window_order(display_id).contains(WindowId(id)) <==> m.placeable(display_id, id),
{
    broadcast use vstd::seq_lib::group_filter_ensures;

    let all = sorted(m.inventory.dom());
    lemma_sorted(m.inventory.dom());
    let entry_pred = m.placeable_entry(display_id);
    let entries = m.order.filter(entry_pred);
    let recorded = m.recorded_order(display_id);
    let pred = m.unrecorded(display_id);
    let left = all.filter(pred);
    let ranks = left.map_values(m.reading_rank());
    let rest = crate::ranking::ordered(ranks.to_set());
    crate::ranking::lemma_ordered(ranks.to_set());
    let tail = rest.map_values(|item: Ranked| WindowId(item.id));
    let order = m.window_order(display_id);
    if m.placeable(display_id, id) {
        if recorded.contains(WindowId(id)) {
            let k = choose|k: int| 0 <= k < recorded.len() && recorded[k] == WindowId(id);
            assert(order[k] == WindowId(id));
        } else {
            assert(all.to_set().contains(id));
            let k = choose|k: int| 0 <= k < all.len() && all[k] == id;
            assert(pred(all[k]));
            assert(left.contains(all[k]));
            let j = choose|j: int| 0 <= j < left.len() && left[j] == id;
            assert(ranks[j] == m.reading_rank()(id));
            assert(ranks.to_set().contains(ranks[j]));
            assert(rest.to_set().contains(ranks[j]));
            let n = choose|n: int| 0 <= n < rest.len() && rest[n] == ranks[j];
            assert(tail[n] == WindowId(id));
            assert(order[recorded.len() + n] == WindowId(id));
        }
    }
    if order.contains(WindowId(id)) {
        let k = choose|k: int| 0 <= k < order.len() && order[k] == WindowId(id);
        if k < recorded.len() {
            assert(recorded[k] == entries[k].window_id);
            assert(entry_pred(entries[k]));
        } else {
            let n = k - recorded.len();
            assert(tail[n] == WindowId(rest[n].id));
            assert(rest.to_set().contains(rest[n]));
            assert(ranks.to_set().contains(rest[n]));
            let j = choose|j: int| 0 <= j < ranks.len() && ranks[j] == rest[n];
            assert(ranks[j] == m.reading_rank()(left[j]));
            assert(left[j] == id);
            assert(pred(left[j]));
        }
    }
}

/// Windows of one application are told apart by the order of their handles:
/// the older one has the smaller ordinal.
pub proof fn law_launch_order_tells_siblings_apart(m: Model, a: isize, b: isize)
    requires
        m.inventory.dom().finite(),
        m.inventory.dom().len() <= u32::MAX,
        m.inventory.contains_key(a),
        m.inventory.contains_key(b),
        m.inventory[a].window.application_id.0@ == m.inventory[b].window.application_id.0@,
        a < b,
    ensures
        m.launch_order(a) < m.launch_order(b),
{
    broadcast use vstd::seq_lib::group_filter_ensures;

    let all = sorted(m.inventory.dom());
    lemma_sorted(m.inventory.dom());
    let older_a = all.filter(m.older_sibling(a));
    let older_b = all.filter(m.older_sibling(b));
    lemma_ascending_no_duplicates(all);
    lemma_filter_no_duplicates(all, m.older_sibling(a));
    lemma_filter_no_duplicates(all, m.older_sibling(b));
    older_a.unique_seq_to_set();
    older_b.unique_seq_to_set();
    all.unique_seq_to_set();
    let set_a = older_a.to_set();
    let set_b = older_b.to_set();
    assert forall|k: isize| set_a.contains(k) implies set_b.remove(a).contains(k) by {
        let i = choose|i: int| 0 <= i < older_a.len() && older_a[i] == k;
        assert(m.older_sibling(a)(older_a[i]));
        assert(all.to_set().contains(k));
        let j = choose|j: int| 0 <= j < all.len() && all[j] == k;
        assert(m.older_sibling(b)(all[j]));
        assert(older_b.contains(all[j]));
    }
    assert(all.to_set().contains(a));
    let j = choose|j: int| 0 <= j < all.len() && all[j] == a;
    assert(m.older_sibling(b)(all[j]));
    assert(older_b.contains(all[j]));
    assert(set_b.contains(a));
    vstd::set_lib::lemma_len_subset(set_a, set_b.remove(a));
    assert forall|k: isize| set_b.contains(k) implies m.inventory.dom().contains(k) by {
        let i = choose|i: int| 0 <= i < older_b.len() && older_b[i] == k;
        assert(m.older_sibling(b)(older_b[i]));
    }
    vstd::set_lib::lemma_len_subset(set_b, m.inventory.dom());
}

pub proof fn lemma_ascending_no_duplicates(q: Seq<isize>)
    requires
        ascending(q),
    ensures
        q.no_duplicates(),
{
}

pub proof fn lemma_filter_no_duplicates(q: Seq<isize>, keep: spec_fn(isize) -> bool)
    requires
        q.no_duplicates(),
    ensures
        q.filter(keep).no_duplicates(),
    decreases q.len(),
{
    broadcast use vstd::seq_lib::group_filter_ensures;

    reveal(Seq::filter);
    if q.len() > 0 {
        let rest = q.drop_last();
        lemma_filter_no_duplicates(rest, keep);
        assert forall|i: int| 0 <= i < rest.filter(keep).len() implies rest.filter(keep)[i]
            != q.last() by {
            assert(rest.filter(keep).contains(rest.filter(keep)[i]));
            rest.lemma_filter_contains_rev(keep, rest.filter(keep)[i]);
        }
    }
}

} // verus!
