//! Reflowing a second time, with nothing changed, changes nothing.

use vstd::prelude::*;

verus! {

use crate::answers::{
    Answers, ContainerTree, DormantSlot, PlannedPlacement, Query, TreeChange, TreePlan,
};
use crate::geometry::{DisplayId, Rect, WindowId};
use crate::laws::answering::{knows_more, settles};
use crate::laws::frame::{inventory_kept, pool_kept};
use crate::laws::overflow::{
    in_blocks, lemma_filter_everything, lemma_filter_nothing, lemma_in_blocks_deferred,
    lemma_in_blocks_next, lemma_in_blocks_start, lemma_overflow_split, lemma_turned_deferred,
    lemma_turned_ends, lemma_turned_next, overflow_of, turned,
};
use crate::laws::steady::lemma_find_same;
use crate::ranking::Ranked;
use crate::state::{Listed, Model};
use crate::table::{lemma_sorted, sorted};
use crate::text::lemma_first_index;
use crate::topology::{connected, display_ids, display_is, fingerprint_of};
use crate::window::Display;
use crate::workspace::same_persisted;

/// Each window is arranged on the display it was, and takes part if it did.
spec fn arranged_alike(before: Model, after: Model) -> bool {
    forall|id: isize|
        #![trigger after.tiles(id)]
        #![trigger after.arrangement_display(id)]
        after.tiles(id) == before.tiles(id) && after.arrangement_display(id)
            == before.arrangement_display(id)
}

/// No two displays share a handle.
pub open spec fn handles_distinct(displays: Seq<Display>) -> bool {
    forall|i: int, j: int|
        0 <= i < j < displays.len() ==> (#[trigger] displays[i]).id != (#[trigger] displays[j]).id
}

// The order.

/// The order lists what stands and everything that should be listed.
pub open spec fn order_stands(m: Model, order: Seq<Listed>) -> bool {
    &&& forall|i: int| 0 <= i < order.len() ==> m.stays_listed()(#[trigger] order[i])
    &&& forall|id: isize| #[trigger]
        m.inventory.contains_key(id) && m.arrangeable()(id) ==> order.contains(
            Listed { display_id: m.arrangement_display(id)->0, window_id: WindowId(id) },
        )
}

proof fn lemma_lined_up(m: Model)
    requires
        m.inventory.dom().finite(),
    ensures
        forall|i: int|
            0 <= i < m.lined_up().len() ==> m.inventory.contains_key(
                (#[trigger] m.lined_up()[i]).id,
            ) && m.arrangeable()(m.lined_up()[i].id),
        forall|id: isize| #[trigger]
            m.inventory.contains_key(id) && m.arrangeable()(id) ==> exists|i: int|
                0 <= i < m.lined_up().len() && (#[trigger] m.lined_up()[i]).id == id,
{
    broadcast use vstd::seq_lib::group_filter_ensures;

    let all = sorted(m.inventory.dom());
    lemma_sorted(m.inventory.dom());
    let pred = m.arrangeable();
    let left = all.filter(pred);
    let ranks = left.map_values(m.tiling_rank());
    crate::ranking::lemma_ordered(ranks.to_set());
    let line = m.lined_up();
    assert forall|i: int| 0 <= i < line.len() implies m.inventory.contains_key(
        (#[trigger] line[i]).id,
    ) && pred(line[i].id) by {
        assert(line.to_set().contains(line[i]));
        assert(ranks.to_set().contains(line[i]));
        let j = choose|j: int| 0 <= j < ranks.len() && ranks[j] == line[i];
        assert(ranks[j] == m.tiling_rank()(left[j]));
        all.lemma_filter_pred(pred, j);
        all.lemma_filter_contains_rev(pred, left[j]);
        assert(all.to_set().contains(left[j]));
    }
    assert forall|id: isize| #[trigger] m.inventory.contains_key(id) && pred(id) implies exists|
        i: int,
    | 0 <= i < line.len() && (#[trigger] line[i]).id == id by {
        assert(all.to_set().contains(id));
        let k = choose|k: int| 0 <= k < all.len() && all[k] == id;
        assert(left.contains(all[k]));
        let j = choose|j: int| 0 <= j < left.len() && left[j] == id;
        assert(ranks[j] == m.tiling_rank()(id));
        assert(ranks.to_set().contains(ranks[j]));
        assert(line.to_set().contains(ranks[j]));
        let i = choose|i: int| 0 <= i < line.len() && line[i] == ranks[j];
        assert(line[i].id == id);
    }
}

proof fn lemma_listed(m: Model, order: Seq<Listed>, line: Seq<Ranked>, i: int)
    requires
        0 <= i <= line.len(),
        forall|k: int| 0 <= k < order.len() ==> m.stays_listed()(#[trigger] order[k]),
        forall|k: int| 0 <= k < line.len() ==> m.arrangeable()((#[trigger] line[k]).id),
    ensures
        ({
            let after = m.listed(order, line, i);
            &&& forall|k: int| 0 <= k < after.len() ==> m.stays_listed()(#[trigger] after[k])
            &&& forall|e: Listed| #[trigger] order.contains(e) ==> after.contains(e)
            &&& forall|k: int|
                i <= k < line.len() ==> after.contains(
                    Listed {
                        display_id: m.arrangement_display((#[trigger] line[k]).id)->0,
                        window_id: WindowId(line[k].id),
                    },
                )
        }),
    decreases line.len() - i,
{
    if i < line.len() {
        let entry = Listed {
            display_id: m.arrangement_display(line[i].id)->0,
            window_id: WindowId(line[i].id),
        };
        assert(m.arrangeable()(line[i].id));
        assert(m.stays_listed()(entry));
        let next = if order.contains(entry) {
            order
        } else {
            order.push(entry)
        };
        if !order.contains(entry) {
            assert(next[order.len() as int] == entry);
        }
        assert(next.contains(entry));
        assert forall|e: Listed| #[trigger] order.contains(e) implies next.contains(e) by {
            let k = choose|k: int| 0 <= k < order.len() && order[k] == e;
            assert(next[k] == e);
        }
        lemma_listed(m, next, line, i + 1);
    }
}

proof fn lemma_listed_again(m: Model, order: Seq<Listed>, line: Seq<Ranked>, i: int)
    requires
        forall|k: int|
            0 <= k < line.len() ==> order.contains(
                Listed {
                    display_id: m.arrangement_display((#[trigger] line[k]).id)->0,
                    window_id: WindowId(line[k].id),
                },
            ),
        0 <= i,
    ensures
        m.listed(order, line, i) == order,
    decreases line.len() - i,
{
    if i < line.len() {
        lemma_listed_again(m, order, line, i + 1);
    }
}

pub proof fn lemma_refreshed_stands(m: Model)
    requires
        m.inventory.dom().finite(),
    ensures
        order_stands(m, m.refreshed().order),
{
    let kept = m.order.filter(m.stays_listed());
    lemma_lined_up(m);
    assert forall|k: int| 0 <= k < kept.len() implies m.stays_listed()(#[trigger] kept[k]) by {
        m.order.lemma_filter_pred(m.stays_listed(), k);
    }
    lemma_listed(m, kept, m.lined_up(), 0);
    let order = m.refreshed().order;
    assert forall|id: isize| #[trigger]
        m.inventory.contains_key(id) && m.arrangeable()(id) implies order.contains(
        Listed { display_id: m.arrangement_display(id)->0, window_id: WindowId(id) },
    ) by {
        let i = choose|i: int| 0 <= i < m.lined_up().len() && (#[trigger] m.lined_up()[i]).id == id;
        assert(m.lined_up()[i].id == id);
    }
}

/// An order that was brought up to date stays as it is while every window is
/// arranged where it was.
proof fn lemma_refreshed_again(base: Model, m: Model)
    requires
        base.inventory.dom().finite(),
        m.inventory.dom() == base.inventory.dom(),
        m.order == base.refreshed().order,
        arranged_alike(base, m),
    ensures
        m.refreshed() == m,
{
    lemma_refreshed_stands(base);
    assert forall|i: int| 0 <= i < m.order.len() implies m.stays_listed()(
        #[trigger] m.order[i],
    ) by {
        assert(base.stays_listed()(m.order[i]));
        assert(m.tiles(m.order[i].window_id.0) == base.tiles(m.order[i].window_id.0));
    }
    lemma_filter_everything(m.order, m.stays_listed());
    lemma_lined_up(m);
    let line = m.lined_up();
    assert forall|k: int| 0 <= k < line.len() implies m.order.contains(
        Listed {
            display_id: m.arrangement_display((#[trigger] line[k]).id)->0,
            window_id: WindowId(line[k].id),
        },
    ) by {
        let id = line[k].id;
        assert(m.inventory.contains_key(id) && m.arrangeable()(id));
        assert(m.tiles(id) == base.tiles(id));
        assert(base.inventory.contains_key(id) && base.arrangeable()(id));
    }
    lemma_listed_again(m, m.order, line, 0);
}

// What the first reflow leaves.

pub proof fn lemma_shed_only(
    m: Model,
    a: Answers,
    departed: Seq<WindowId>,
    i: int,
    tree: ContainerTree,
)
    ensures
        match m.shed(a, departed, i, tree) {
            Ok((after, _)) => after == (Model { leaf_evidence: after.leaf_evidence, ..m }),
            Err(_) => true,
        },
    decreases departed.len() - i,
{
    if i < departed.len() {
        let id = departed[i].0;
        let next = Model { leaf_evidence: m.leaf_evidence.remove(id), ..m };
        let change = if m.leaf_evidence.contains_key(id) && !m.inventory.contains_key(id) {
            TreeChange::MakeDormant {
                window_id: departed[i],
                dormant: crate::answers::DormantPosition {
                    evidence: m.leaf_evidence[id],
                    since_unix: a.now_unix,
                },
            }
        } else {
            TreeChange::Remove { window_id: departed[i] }
        };
        match a.changed_spec(tree, change) {
            Ok(left) => {
                lemma_shed_only(next, a, departed, i + 1, left);
            },
            Err(_) => {},
        }
    }
}

pub proof fn lemma_evidence_refreshed_only(m: Model, windows: Seq<WindowId>, i: int)
    ensures
        m.evidence_refreshed(windows, i) == (Model {
            leaf_evidence: m.evidence_refreshed(windows, i).leaf_evidence,
            ..m
        }),
    decreases windows.len() - i,
{
    if i < windows.len() {
        let next = match m.evidence(windows[i].0) {
            Some(evidence) => Model {
                leaf_evidence: m.leaf_evidence.insert(windows[i].0, evidence),
                ..m
            },
            None => m,
        };
        lemma_evidence_refreshed_only(next, windows, i + 1);
    }
}

pub proof fn lemma_arranged_as_only(
    m: Model,
    placements: Seq<PlannedPlacement>,
    i: int,
    display_id: DisplayId,
)
    ensures
        ({
            let after = m.arranged_as(placements, i, display_id);
            after == (Model {
                windows: after.windows,
                inventory: after.inventory,
                undo_scope: after.undo_scope,
                effects: after.effects,
                revision: after.revision,
                ..m
            })
        }),
    decreases placements.len() - i,
{
    if i < placements.len() {
        let next = m.arranged_at(placements[i].window_id, display_id, placements[i].bounds);
        lemma_arranged_as_only(next, placements, i + 1, display_id);
    }
}

/// What is kept of the other displays.
pub open spec fn others_kept(before: Model, after: Model, display_id: DisplayId) -> bool {
    forall|d: isize|
        #![trigger after.trees.contains_key(d)]
        #![trigger after.saved_trees.contains_key(d)]
        d != display_id.0 ==> {
            &&& after.trees.contains_key(d) == before.trees.contains_key(d)
            &&& after.trees[d] == before.trees[d]
            &&& after.saved_trees.contains_key(d) == before.saved_trees.contains_key(d)
            &&& after.saved_trees[d] == before.saved_trees[d]
        }
}

/// Every overflow is one of a connected display.
pub open spec fn overflow_connected(m: Model) -> bool {
    forall|i: int|
        0 <= i < m.constraint_overflow.len() ==> connected(
            m.displays,
            (#[trigger] m.constraint_overflow[i]).display_id,
        )
}

pub open spec fn written(m: Model, display_id: DisplayId) -> bool {
    &&& m.trees.contains_key(display_id.0)
    &&& m.saved_trees.contains_key(display_id.0)
    &&& m.saved_trees[display_id.0] == m.trees[display_id.0]
}

pub proof fn lemma_tree_reflowed_leaves(
    m: Model,
    a: Answers,
    display: Display,
    active: Seq<WindowId>,
)
    requires
        connected(m.displays, display.id),
        overflow_connected(m),
    ensures
        match m.tree_reflowed(a, display, active) {
            Ok(after) => {
                &&& after.order == m.order
                &&& after.displays == m.displays
                &&& after.interactive == m.interactive
                &&& after.deferred == m.deferred
                &&& overflow_connected(after)
                &&& written(after, display.id)
                &&& others_kept(m, after, display.id)
            },
            Err(_) => true,
        },
{
    reveal(Model::tree_reflowed);
    reveal(Model::reshaped);
    reveal(Model::waiting_tree_taken);
    reveal(Model::tree_saved);
    reveal(Model::tree_laid_out);
    let lifted = m.lifted(display.id);
    match m.starting_tree(a, display.id, active) {
        Err(_) => {},
        Ok(tree) => match a.windows_spec(tree) {
            Err(_) => {},
            Ok(present) => {
                lemma_shed_only(lifted, a, present.filter(Model::not_in(active)), 0, tree);
                match lifted.reshaped(a, tree, active, display.work_area) {
                    Err(_) => {},
                    Ok((next, grown)) => match a.windows_spec(grown) {
                        Err(_) => {},
                        Ok(windows) => {
                            lemma_evidence_refreshed_only(next, windows, 0);
                            let fresh = next.evidence_refreshed(windows, 0);
                            match fresh.tree_saved(a, display.id, grown) {
                                Err(_) => {},
                                Ok(saved) => {
                                    lemma_laid_out_leaves(saved, a, display, grown);
                                },
                            }
                        },
                    },
                }
            },
        },
    }
}

proof fn lemma_laid_out_leaves(m: Model, a: Answers, display: Display, tree: ContainerTree)
    requires
        connected(m.displays, display.id),
        overflow_connected(m),
    ensures
        match m.tree_laid_out(a, display, tree) {
            Ok(after) => {
                &&& after.order == m.order
                &&& after.displays == m.displays
                &&& after.interactive == m.interactive
                &&& after.deferred == m.deferred
                &&& overflow_connected(after)
                &&& after.trees == m.trees.insert(display.id.0, tree)
                &&& after.saved_trees == m.saved_trees
            },
            Err(_) => true,
        },
{
    reveal(Model::tree_laid_out);
    match a.windows_spec(tree) {
        Err(_) => {},
        Ok(windows) => match a.plan_spec(
            tree,
            display.work_area,
            m.config.gaps,
            m.minimums(windows),
        ) {
            Err(_) => {},
            Ok(plan) => {
                let next = Model { trees: m.trees.insert(display.id.0, tree), ..m }.overflowing(
                    display.id,
                    plan.overflow@,
                );
                let off = Model::off_display(display.id);
                assert forall|i: int| 0 <= i < next.constraint_overflow.len() implies connected(
                    next.displays,
                    (#[trigger] next.constraint_overflow[i]).display_id,
                ) by {
                    let left = m.constraint_overflow.filter(off);
                    if i < left.len() {
                        m.constraint_overflow.lemma_filter_contains_rev(off, left[i]);
                        let k = choose|k: int|
                            0 <= k < m.constraint_overflow.len() && m.constraint_overflow[k]
                                == left[i];
                        assert(connected(m.displays, m.constraint_overflow[k].display_id));
                    }
                }
                lemma_arranged_as_only(next, plan.placements@, 0, display.id);
            },
        },
    }
}

pub proof fn lemma_trees_reflowed_leave(m: Model, a: Answers, base: Model, i: int)
    requires
        0 <= i <= base.displays.len(),
        m.displays == base.displays,
        m.interactive == base.interactive,
        handles_distinct(base.displays),
        overflow_connected(m),
        forall|d: isize| #[trigger]
            m.trees.contains_key(d) ==> connected(base.displays, DisplayId(d)),
        forall|k: int|
            0 <= k < i ==> if base.defers((#[trigger] base.displays[k]).id) {
                m.deferred.contains(base.displays[k].id.0)
            } else {
                written(m, base.displays[k].id)
            },
    ensures
        match m.trees_reflowed(a, base, i) {
            Ok(after) => {
                &&& after.order == m.order
                &&& after.displays == m.displays
                &&& after.interactive == m.interactive
                &&& overflow_connected(after)
                &&& forall|d: isize| #[trigger]
                    after.trees.contains_key(d) ==> connected(base.displays, DisplayId(d))
                &&& forall|k: int|
                    0 <= k < base.displays.len() ==> if base.defers(
                        (#[trigger] base.displays[k]).id,
                    ) {
                        after.deferred.contains(base.displays[k].id.0)
                    } else {
                        written(after, base.displays[k].id)
                    }
            },
            Err(_) => true,
        },
    decreases base.displays.len() - i,
{
    if i < base.displays.len() {
        let display = base.displays[i];
        assert(connected(base.displays, display.id)) by {
            lemma_first_index(base.displays.len(), display_is(base.displays, display.id));
            assert(display_is(base.displays, display.id)(i));
        }
        if m.defers(display.id) {
            lemma_trees_reflowed_leave(m.deferred_for(display.id), a, base, i + 1);
        } else {
            lemma_tree_reflowed_leaves(m, a, display, base.active_on(display.id));
            match m.tree_reflowed(a, display, base.active_on(display.id)) {
                Err(_) => {},
                Ok(next) => {
                    assert forall|k: int| 0 <= k < i + 1 implies if base.defers(
                        (#[trigger] base.displays[k]).id,
                    ) {
                        next.deferred.contains(base.displays[k].id.0)
                    } else {
                        written(next, base.displays[k].id)
                    } by {
                        if k < i {
                            assert(base.displays[k].id != base.displays[i].id);
                            let d = base.displays[k].id.0;
                            assert(d != display.id.0);
                            assert(next.trees.contains_key(d) == m.trees.contains_key(d));
                            assert(next.saved_trees.contains_key(d) == m.saved_trees.contains_key(
                                d,
                            ));
                        }
                    }
                    assert forall|d: isize| #[trigger] next.trees.contains_key(d) implies connected(
                        base.displays,
                        DisplayId(d),
                    ) by {
                        if d != display.id.0 {
                            assert(m.trees.contains_key(d));
                        }
                    }
                    lemma_trees_reflowed_leave(next, a, base, i + 1);
                },
            }
        }
    }
}

// The second reflow.

/// Everything as it was, but for what would recognise the windows, which is
/// captured anew.
pub open spec fn as_it_was(before: Model, after: Model) -> bool {
    after == (Model { leaf_evidence: after.leaf_evidence, ..before })
}

/// The same, but for the order in which the displays' overflow is noted.
spec fn but_for_order(before: Model, after: Model) -> bool {
    &&& after == (Model {
        leaf_evidence: after.leaf_evidence,
        constraint_overflow: after.constraint_overflow,
        ..before
    })
    &&& forall|display_id: DisplayId| #[trigger]
        overflow_of(after.constraint_overflow, display_id) == overflow_of(
            before.constraint_overflow,
            display_id,
        )
}

/// Whether two lists hold the same windows.
pub open spec fn same_windows(a: Seq<WindowId>, b: Seq<WindowId>) -> bool {
    forall|window_id: WindowId| #[trigger] a.contains(window_id) <==> b.contains(window_id)
}

/// The windows a reflow of the trees arranges on a display, in visual order.
pub open spec fn to_arrange(m: Model, display_id: DisplayId) -> Seq<WindowId> {
    m.trees_on_connected().refreshed().active_on(display_id)
}

/// Whether the answers leave a display's tree alone: no stored tree is to take
/// its place, it holds exactly the windows to arrange there, and nothing in it
/// is to be pruned or taken back.
pub open spec fn tree_rests(
    m: Model,
    b: Answers,
    display: Display,
    active: Seq<WindowId>,
) -> bool {
    let tree = m.trees[display.id.0];
    &&& m.waiting_tree(display.id) is None
    &&& b.changed_spec(tree, TreeChange::PruneDormant { now_unix: b.now_unix }) == Ok::<
        ContainerTree,
        Query,
    >(tree)
    &&& match (b.windows_spec(tree), b.dormant_spec(tree)) {
        (Ok(windows), Ok(slots)) => {
            &&& same_windows(windows, active)
            &&& forall|i: int|
                0 <= i < slots.len() ==> match b.outcome_spec(
                    (#[trigger] slots[i]).dormant.evidence,
                    Seq::empty(),
                ) {
                    Ok(outcome) => outcome.confident() is None,
                    Err(_) => false,
                }
        },
        _ => false,
    }
}

/// What the planner says of a display's tree.
pub open spec fn tree_planned(m: Model, a: Answers, display: Display) -> Result<TreePlan, Query> {
    let tree = m.trees[display.id.0];
    match a.windows_spec(tree) {
        Ok(windows) => a.plan_spec(tree, display.work_area, m.config.gaps, m.minimums(windows)),
        Err(query) => Err(query),
    }
}

/// A plan places windows of the tree only, and each of them once.
pub open spec fn plan_is_proper(windows: Seq<WindowId>, plan: TreePlan) -> bool {
    &&& forall|i: int|
        0 <= i < plan.placements@.len() ==> windows.contains(
            (#[trigger] plan.placements@[i]).window_id,
        )
    &&& forall|i: int, j: int|
        0 <= i < j < plan.placements@.len() ==> (#[trigger] plan.placements@[i]).window_id != (
        #[trigger] plan.placements@[j]).window_id
}

/// Whether the answers have nothing to change about what a reflow of `m` led
/// to: each tree holds just what there was to arrange and is left alone, and
/// its plan is proper.
pub open spec fn at_rest(m: Model, first: Model, b: Answers) -> bool {
    forall|i: int|
        0 <= i < first.displays.len() && !first.defers((#[trigger] first.displays[i]).id) ==> {
            let display = first.displays[i];
            &&& tree_rests(first, b, display, to_arrange(m, display.id))
            &&& (tree_planned(first, b, display) matches Ok(plan) ==> plan_is_proper(
                b.windows_spec(first.trees[display.id.0])->Ok_0,
                plan,
            ))
        }
}

/// The windows are where the plan of a display's tree puts them, and what the
/// plan leaves out is noted.
pub open spec fn as_planned(m: Model, a: Answers, display: Display) -> bool {
    match tree_planned(m, a, display) {
        Ok(plan) => {
            &&& overflow_of(m.constraint_overflow, display.id) == Seq::new(
                plan.overflow@.len(),
                |i: int| Listed { display_id: display.id, window_id: plan.overflow@[i] },
            )
            &&& forall|i: int|
                0 <= i < plan.placements@.len() ==> m.breaker_open(
                    (#[trigger] plan.placements@[i]).window_id.0,
                ) || m.current_placement(plan.placements@[i].window_id.0) == Some(
                    (display.id, plan.placements@[i].bounds),
                )
        },
        Err(_) => false,
    }
}

/// The durable form of every workspace is what was written last.
spec fn all_written(m: Model, a: Answers) -> bool {
    forall|i: int|
        0 <= i < m.workspaces.list.len() ==> match (
        #[trigger] m.workspaces.list[i]).pending_tree {
            Some(_) => true,
            None => match (m.persisted(a, i), m.workspaces.list[i].saved) {
                (Ok(persisted), Some(saved)) => same_persisted(saved, persisted),
                _ => false,
            },
        }
}

// What the first reflow leaves of the plans.

/// Windows put where a plan has them stay there, and nothing else moves.
proof fn lemma_arranged_as_planned(
    m: Model,
    placements: Seq<PlannedPlacement>,
    i: int,
    display_id: DisplayId,
)
    requires
        0 <= i <= placements.len(),
        forall|j: int, k: int|
            0 <= j < k < placements.len() ==> (#[trigger] placements[j]).window_id != (
            #[trigger] placements[k]).window_id,
    ensures
        ({
            let after = m.arranged_as(placements, i, display_id);
            &&& forall|id: isize| #[trigger] after.breaker_open(id) == m.breaker_open(id)
            &&& forall|id: isize| #[trigger] after.minimum_size(id) == m.minimum_size(id)
            &&& forall|id: isize|
                (forall|k: int|
                    i <= k < placements.len() ==> (#[trigger] placements[k]).window_id.0 != id)
                    ==> #[trigger] after.current_placement(id) == m.current_placement(id)
            &&& forall|k: int|
                i <= k < placements.len() ==> after.breaker_open(
                    (#[trigger] placements[k]).window_id.0,
                ) || after.current_placement(placements[k].window_id.0) == Some(
                    (display_id, placements[k].bounds),
                )
        }),
    decreases placements.len() - i,
{
    if i < placements.len() {
        let id = placements[i].window_id.0;
        let next = m.arranged_at(placements[i].window_id, display_id, placements[i].bounds);
        assert(forall|other: isize| #[trigger]
            next.breaker_open(other) == m.breaker_open(other));
        assert(forall|other: isize| #[trigger]
            next.minimum_size(other) == m.minimum_size(other));
        assert(forall|other: isize|
            other != id ==> #[trigger] next.current_placement(other) == m.current_placement(other));
        assert(next.breaker_open(id) || next.current_placement(id) == Some(
            (display_id, placements[i].bounds),
        ));
        lemma_arranged_as_planned(next, placements, i + 1, display_id);
        let after = m.arranged_as(placements, i, display_id);
        assert(after.current_placement(id) == next.current_placement(id)) by {
            assert forall|k: int| i + 1 <= k < placements.len() implies (
            #[trigger] placements[k]).window_id.0 != id by {
                assert(placements[i].window_id != placements[k].window_id);
            }
        }
        assert forall|other: isize|
            (forall|k: int|
                i <= k < placements.len() ==> (#[trigger] placements[k]).window_id.0 != other)
            implies #[trigger] after.current_placement(other) == m.current_placement(other) by {
            assert(placements[i].window_id.0 != other);
            assert(next.current_placement(other) == m.current_placement(other));
        }
    }
}

/// The windows of `display` put where `plan` has them.
pub open spec fn laid_out(
    m: Model,
    display: Display,
    tree: ContainerTree,
    plan: TreePlan,
) -> Model {
    Model { trees: m.trees.insert(display.id.0, tree), ..m }.overflowing(
        display.id,
        plan.overflow@,
    ).arranged_as(plan.placements@, 0, display.id)
}

/// A display laid out by a proper plan is as planned.
pub proof fn lemma_laid_out_mine(
    m: Model,
    a: Answers,
    display: Display,
    tree: ContainerTree,
    windows: Seq<WindowId>,
    plan: TreePlan,
)
    requires
        a.windows_spec(tree) == Ok::<Seq<WindowId>, Query>(windows),
        a.plan_spec(tree, display.work_area, m.config.gaps, m.minimums(windows)) == Ok::<
            TreePlan,
            Query,
        >(plan),
    ensures
        tree_planned(laid_out(m, display, tree, plan), a, display) == Ok::<TreePlan, Query>(plan),
        plan_is_proper(windows, plan) ==> as_planned(
            laid_out(m, display, tree, plan),
            a,
            display,
        ),
{
    let put = Model { trees: m.trees.insert(display.id.0, tree), ..m };
    let next = put.overflowing(display.id, plan.overflow@);
    let after = laid_out(m, display, tree, plan);
    lemma_arranged_as_only(next, plan.placements@, 0, display.id);
    lemma_minimums_kept(next, plan.placements@, 0, display.id);
    assert(after.minimums(windows) =~= m.minimums(windows)) by {
        assert(forall|id: isize| #[trigger] after.minimum_size(id) == m.minimum_size(id));
    }
    if plan_is_proper(windows, plan) {
        lemma_arranged_as_planned(next, plan.placements@, 0, display.id);
        lemma_overflow_split(m.constraint_overflow, display.id, plan.overflow@, display.id);
    }
}

/// A display that was as planned still is after another was laid out whose
/// windows are others.
proof fn lemma_laid_out_other(
    m: Model,
    a: Answers,
    display: Display,
    tree: ContainerTree,
    windows: Seq<WindowId>,
    plan: TreePlan,
    other: Display,
)
    requires
        plan_is_proper(windows, plan),
        other.id != display.id,
        as_planned(m, a, other),
        forall|k: int|
            0 <= k < tree_planned(m, a, other)->Ok_0.placements@.len() ==> !windows.contains(
                (#[trigger] tree_planned(m, a, other)->Ok_0.placements@[k]).window_id,
            ),
        tree_planned(laid_out(m, display, tree, plan), a, other) == tree_planned(m, a, other),
    ensures
        as_planned(laid_out(m, display, tree, plan), a, other),
{
    let put = Model { trees: m.trees.insert(display.id.0, tree), ..m };
    let next = put.overflowing(display.id, plan.overflow@);
    let after = laid_out(m, display, tree, plan);
    let theirs = tree_planned(m, a, other)->Ok_0;
    lemma_arranged_as_only(next, plan.placements@, 0, display.id);
    lemma_arranged_as_planned(next, plan.placements@, 0, display.id);
    lemma_overflow_split(m.constraint_overflow, display.id, plan.overflow@, other.id);
    assert forall|k: int| 0 <= k < theirs.placements@.len() implies after.breaker_open(
        (#[trigger] theirs.placements@[k]).window_id.0,
    ) || after.current_placement(theirs.placements@[k].window_id.0) == Some(
        (other.id, theirs.placements@[k].bounds),
    ) by {
        let id = theirs.placements@[k].window_id.0;
        assert(!windows.contains(theirs.placements@[k].window_id));
        assert forall|j: int| 0 <= j < plan.placements@.len() implies (
        #[trigger] plan.placements@[j]).window_id.0 != id by {
            assert(windows.contains(plan.placements@[j].window_id));
        }
        assert(next.breaker_open(id) == m.breaker_open(id));
        assert(next.current_placement(id) == m.current_placement(id));
        assert(after.breaker_open(id) == next.breaker_open(id));
        assert(after.current_placement(id) == next.current_placement(id));
    }
}

proof fn lemma_minimums_kept(
    m: Model,
    placements: Seq<PlannedPlacement>,
    i: int,
    display_id: DisplayId,
)
    ensures
        forall|id: isize| #[trigger]
            m.arranged_as(placements, i, display_id).minimum_size(id) == m.minimum_size(id),
    decreases placements.len() - i,
{
    if i < placements.len() {
        let next = m.arranged_at(placements[i].window_id, display_id, placements[i].bounds);
        assert(forall|id: isize| #[trigger] next.minimum_size(id) == m.minimum_size(id));
        lemma_minimums_kept(next, placements, i + 1, display_id);
    }
}

/// Whether the plan a reflow left for a display is proper.
spec fn left_proper(after: Model, a: Answers, display: Display) -> bool {
    tree_planned(after, a, display) matches Ok(plan) ==> plan_is_proper(
        a.windows_spec(after.trees[display.id.0])->Ok_0,
        plan,
    )
}

/// Whether no plan for `other` places a window of the tree `display` has.
spec fn clear_of(after: Model, a: Answers, display: Display, other: Display) -> bool {
    match (tree_planned(after, a, other), a.windows_spec(after.trees[display.id.0])) {
        (Ok(plan), Ok(windows)) => forall|k: int|
            0 <= k < plan.placements@.len() ==> !windows.contains(
                (#[trigger] plan.placements@[k]).window_id,
            ),
        _ => true,
    }
}

/// The same of a whole reflow of one display.
proof fn lemma_tree_reflowed_planned(
    m: Model,
    a: Answers,
    display: Display,
    active: Seq<WindowId>,
    other: Display,
)
    ensures
        match m.tree_reflowed(a, display, active) {
            Ok(after) => {
                &&& (left_proper(after, a, display) ==> as_planned(after, a, display))
                &&& (other.id != display.id ==> tree_planned(after, a, other) == tree_planned(
                    m,
                    a,
                    other,
                ) && after.trees[other.id.0] == m.trees[other.id.0])
                &&& (other.id != display.id && left_proper(after, a, display) && as_planned(
                    m,
                    a,
                    other,
                ) && clear_of(after, a, display, other) ==> as_planned(after, a, other))
            },
            Err(_) => true,
        },
{
    reveal(Model::tree_reflowed);
    reveal(Model::reshaped);
    reveal(Model::waiting_tree_taken);
    reveal(Model::tree_saved);
    let lifted = m.lifted(display.id);
    match m.starting_tree(a, display.id, active) {
        Err(_) => {},
        Ok(tree) => match a.windows_spec(tree) {
            Err(_) => {},
            Ok(present) => {
                lemma_shed_only(lifted, a, present.filter(Model::not_in(active)), 0, tree);
                match lifted.reshaped(a, tree, active, display.work_area) {
                    Err(_) => {},
                    Ok((next, grown)) => match a.windows_spec(grown) {
                        Err(_) => {},
                        Ok(windows) => {
                            lemma_evidence_refreshed_only(next, windows, 0);
                            let fresh = next.evidence_refreshed(windows, 0);
                            match fresh.tree_saved(a, display.id, grown) {
                                Err(_) => {},
                                Ok(saved) => {
                                    assert(saved.windows == m.windows && saved.inventory
                                        == m.inventory && saved.config == m.config
                                        && saved.constraint_overflow == m.constraint_overflow);
                                    assert(saved.trees == m.trees.remove(display.id.0));
                                    lemma_laid_out_trees(saved, a, display, grown);
                                    let bare = Model { trees: saved.trees, ..m };
                                    if other.id != display.id {
                                        lemma_planned_alike(bare, saved, a, other);
                                        assert(bare.trees[other.id.0] == m.trees[other.id.0]);
                                        match a.windows_spec(m.trees[other.id.0]) {
                                            Ok(others) => {
                                                assert(bare.minimums(others) =~= m.minimums(
                                                    others,
                                                ));
                                            },
                                            Err(_) => {},
                                        }
                                        assert(tree_planned(bare, a, other) == tree_planned(
                                            m,
                                            a,
                                            other,
                                        ));
                                        assert(as_planned(m, a, other) ==> as_planned(
                                            bare,
                                            a,
                                            other,
                                        ));
                                        lemma_planned_kept(saved, a, display, grown, other);
                                    }
                                    lemma_laid_out_planned(saved, a, display, grown, other);
                                },
                            }
                        },
                    },
                }
            },
        },
    }
}

/// What laying out a display does to what is planned, there and elsewhere.
proof fn lemma_laid_out_planned(
    m: Model,
    a: Answers,
    display: Display,
    tree: ContainerTree,
    other: Display,
)
    ensures
        match m.tree_laid_out(a, display, tree) {
            Ok(after) => {
                &&& (left_proper(after, a, display) ==> as_planned(after, a, display))
                &&& (other.id != display.id && left_proper(after, a, display) && as_planned(
                    m,
                    a,
                    other,
                ) && clear_of(after, a, display, other) ==> as_planned(after, a, other))
            },
            Err(_) => true,
        },
{
    lemma_laid_out_trees(m, a, display, tree);
    lemma_planned_kept(m, a, display, tree, other);
    reveal(Model::tree_laid_out);
    match a.windows_spec(tree) {
        Err(_) => {},
        Ok(windows) => match a.plan_spec(
            tree,
            display.work_area,
            m.config.gaps,
            m.minimums(windows),
        ) {
            Err(_) => {},
            Ok(plan) => {
                let after = laid_out(m, display, tree, plan);
                assert(m.tree_laid_out(a, display, tree) == Ok::<Model, Query>(after));
                assert(after.trees[display.id.0] == tree);
                lemma_laid_out_mine(m, a, display, tree, windows, plan);
                if other.id != display.id && left_proper(after, a, display) && as_planned(
                    m,
                    a,
                    other,
                ) && clear_of(after, a, display, other) {
                    assert(tree_planned(after, a, other) == tree_planned(m, a, other));
                    lemma_laid_out_other(m, a, display, tree, windows, plan, other);
                }
            },
        },
    }
}

proof fn lemma_laid_out_trees(m: Model, a: Answers, display: Display, tree: ContainerTree)
    ensures
        match m.tree_laid_out(a, display, tree) {
            Ok(after) => after.trees == m.trees.insert(display.id.0, tree) && after.config
                == m.config,
            Err(_) => true,
        },
{
    reveal(Model::tree_laid_out);
    match a.windows_spec(tree) {
        Err(_) => {},
        Ok(windows) => match a.plan_spec(
            tree,
            display.work_area,
            m.config.gaps,
            m.minimums(windows),
        ) {
            Err(_) => {},
            Ok(plan) => {
                let next = Model { trees: m.trees.insert(display.id.0, tree), ..m }.overflowing(
                    display.id,
                    plan.overflow@,
                );
                lemma_arranged_as_only(next, plan.placements@, 0, display.id);
            },
        },
    }
}

/// Laying out one display changes nothing about what is planned elsewhere.
proof fn lemma_planned_kept(
    m: Model,
    a: Answers,
    display: Display,
    tree: ContainerTree,
    other: Display,
)
    ensures
        match m.tree_laid_out(a, display, tree) {
            Ok(after) => other.id != display.id ==> tree_planned(after, a, other)
                == tree_planned(m, a, other),
            Err(_) => true,
        },
{
    reveal(Model::tree_laid_out);
    match a.windows_spec(tree) {
        Err(_) => {},
        Ok(windows) => match a.plan_spec(
            tree,
            display.work_area,
            m.config.gaps,
            m.minimums(windows),
        ) {
            Err(_) => {},
            Ok(plan) => {
                let next = Model { trees: m.trees.insert(display.id.0, tree), ..m }.overflowing(
                    display.id,
                    plan.overflow@,
                );
                lemma_arranged_as_only(next, plan.placements@, 0, display.id);
                lemma_minimums_kept(next, plan.placements@, 0, display.id);
                let after = next.arranged_as(plan.placements@, 0, display.id);
                match a.windows_spec(m.trees[other.id.0]) {
                    Ok(others) => {
                        assert(after.minimums(others) =~= m.minimums(others));
                    },
                    Err(_) => {},
                }
            },
        },
    }
}

/// What is planned for the displays before `i` is not touched by reflowing
/// those from `i` on.
pub proof fn lemma_planned_later(m: Model, a: Answers, base: Model, i: int, after: Model, k: int)
    requires
        0 <= k < i <= base.displays.len(),
        handles_distinct(base.displays),
        m.trees_reflowed(a, base, i) == Ok::<Model, Query>(after),
    ensures
        after.trees[base.displays[k].id.0] == m.trees[base.displays[k].id.0],
        tree_planned(after, a, base.displays[k]) == tree_planned(m, a, base.displays[k]),
    decreases base.displays.len() - i,
{
    if i < base.displays.len() {
        let display = base.displays[i];
        assert(base.displays[k].id != base.displays[i].id);
        if m.defers(display.id) {
            let next = m.deferred_for(display.id);
            lemma_planned_alike(m, next, a, base.displays[k]);
            lemma_planned_later(next, a, base, i + 1, after, k);
        } else {
            let active = base.active_on(display.id);
            lemma_tree_reflowed_planned(m, a, display, active, base.displays[k]);
            match m.tree_reflowed(a, display, active) {
                Err(_) => {},
                Ok(next) => {
                    lemma_planned_later(next, a, base, i + 1, after, k);
                },
            }
        }
    }
}

/// Each plan is proper, and none places a window of another tree.
spec fn plans_apart(after: Model, a: Answers, base: Model) -> bool {
    &&& forall|i: int|
        0 <= i < base.displays.len() && !base.defers((#[trigger] base.displays[i]).id)
            ==> left_proper(after, a, base.displays[i])
    &&& forall|i: int, j: int|
        0 <= i < base.displays.len() && 0 <= j < base.displays.len() && i != j && !base.defers(
            (#[trigger] base.displays[i]).id,
        ) && !base.defers((#[trigger] base.displays[j]).id) ==> clear_of(
            after,
            a,
            base.displays[i],
            base.displays[j],
        )
}

proof fn lemma_trees_reflowed_planned(m: Model, a: Answers, base: Model, i: int, after: Model)
    requires
        0 <= i <= base.displays.len(),
        m.interactive == base.interactive,
        handles_distinct(base.displays),
        m.trees_reflowed(a, base, i) == Ok::<Model, Query>(after),
        plans_apart(after, a, base),
        forall|k: int|
            0 <= k < i && !base.defers((#[trigger] base.displays[k]).id) ==> as_planned(
                m,
                a,
                base.displays[k],
            ),
    ensures
        forall|k: int|
            0 <= k < base.displays.len() && !base.defers((#[trigger] base.displays[k]).id)
                ==> as_planned(after, a, base.displays[k]),
    decreases base.displays.len() - i,
{
    if i < base.displays.len() {
        let display = base.displays[i];
        if m.defers(display.id) {
            let next = m.deferred_for(display.id);
            assert forall|k: int|
                0 <= k < i + 1 && !base.defers((#[trigger] base.displays[k]).id) implies as_planned(
                next,
                a,
                base.displays[k],
            ) by {
                lemma_planned_alike(m, next, a, base.displays[k]);
            }
            lemma_trees_reflowed_planned(next, a, base, i + 1, after);
        } else {
            let active = base.active_on(display.id);
            match m.tree_reflowed(a, display, active) {
                Err(_) => {},
                Ok(next) => {
                    assert(next.interactive == base.interactive) by {
                        lemma_interactive_kept(m, a, display, active);
                    }
                    lemma_planned_later(next, a, base, i + 1, after, i);
                    assert(left_proper(next, a, display));
                    assert forall|k: int|
                        0 <= k < i + 1 && !base.defers((#[trigger] base.displays[k]).id) implies
                        as_planned(next, a, base.displays[k]) by {
                        lemma_tree_reflowed_planned(m, a, display, active, base.displays[k]);
                        if k < i {
                            assert(base.displays[k].id != base.displays[i].id);
                            lemma_planned_later(next, a, base, i + 1, after, k);
                            assert(clear_of(after, a, base.displays[i], base.displays[k]));
                            assert(clear_of(next, a, display, base.displays[k]));
                        }
                    }
                    lemma_trees_reflowed_planned(next, a, base, i + 1, after);
                },
            }
        }
    }
}

pub proof fn lemma_interactive_kept(m: Model, a: Answers, display: Display, active: Seq<WindowId>)
    ensures
        match m.tree_reflowed(a, display, active) {
            Ok(next) => next.interactive == m.interactive,
            Err(_) => true,
        },
{
    crate::laws::frame::lemma_tree_reflowed(m, a, display, active);
}

proof fn lemma_planned_alike(m: Model, n: Model, a: Answers, display: Display)
    requires
        n.trees == m.trees,
        n.windows == m.windows,
        n.inventory == m.inventory,
        n.config == m.config,
        n.constraint_overflow == m.constraint_overflow,
    ensures
        tree_planned(n, a, display) == tree_planned(m, a, display),
        as_planned(n, a, display) == as_planned(m, a, display),
{
    match a.windows_spec(m.trees[display.id.0]) {
        Ok(windows) => {
            assert(n.minimums(windows) =~= m.minimums(windows));
        },
        Err(_) => {},
    }
    match tree_planned(m, a, display) {
        Ok(plan) => {
            assert forall|i: int| 0 <= i < plan.placements@.len() implies n.breaker_open(
                (#[trigger] plan.placements@[i]).window_id.0,
            ) == m.breaker_open(plan.placements@[i].window_id.0) && n.current_placement(
                plan.placements@[i].window_id.0,
            ) == m.current_placement(plan.placements@[i].window_id.0) by {}
        },
        Err(_) => {},
    }
}


proof fn lemma_reclaimed_nothing(
    m: Model,
    b: Answers,
    slots: Seq<DormantSlot>,
    i: int,
    tree: ContainerTree,
)
    requires
        0 <= i,
        forall|k: int|
            0 <= k < slots.len() ==> match b.outcome_spec(
                (#[trigger] slots[k]).dormant.evidence,
                Seq::empty(),
            ) {
                Ok(outcome) => outcome.confident() is None,
                Err(_) => false,
            },
    ensures
        m.reclaimed(b, slots, i, tree, Seq::empty()) == Ok::<
            (ContainerTree, Seq<WindowId>),
            Query,
        >((tree, Seq::empty())),
    decreases slots.len() - i,
{
    if i < slots.len() {
        let none = Seq::<WindowId>::empty();
        lemma_filter_nothing(none, m.managed());
        assert(m.candidates(none) =~= Seq::empty());
        assert(b.outcome_spec(slots[i].dormant.evidence, Seq::empty()) is Ok);
        lemma_reclaimed_nothing(m, b, slots, i + 1, tree);
    }
}

proof fn lemma_arranged_as_again(
    m: Model,
    placements: Seq<PlannedPlacement>,
    i: int,
    display_id: DisplayId,
)
    requires
        0 <= i,
        forall|k: int|
            0 <= k < placements.len() ==> m.breaker_open((#[trigger] placements[k]).window_id.0)
                || m.current_placement(placements[k].window_id.0) == Some(
                (display_id, placements[k].bounds),
            ),
    ensures
        m.arranged_as(placements, i, display_id) == m,
    decreases placements.len() - i,
{
    if i < placements.len() {
        assert(m.breaker_open(placements[i].window_id.0) || m.current_placement(
            placements[i].window_id.0,
        ) == Some((display_id, placements[i].bounds)));
        lemma_arranged_as_again(m, placements, i + 1, display_id);
    }
}

/// Nothing is in the one list that is not in the other.
proof fn lemma_none_missing(a: Seq<WindowId>, b: Seq<WindowId>)
    requires
        same_windows(a, b),
    ensures
        a.filter(Model::not_in(b)) == Seq::<WindowId>::empty(),
{
    assert forall|i: int| 0 <= i < a.len() implies !Model::not_in(b)(#[trigger] a[i]) by {
        assert(a.contains(a[i]));
    }
    lemma_filter_nothing(a, Model::not_in(b));
}

proof fn lemma_overflowing_again(
    m: Model,
    n: Model,
    display_id: DisplayId,
    overflow: Seq<WindowId>,
)
    requires
        but_for_order(m, n),
        overflow_of(m.constraint_overflow, display_id) == Seq::new(
            overflow.len(),
            |i: int| Listed { display_id, window_id: overflow[i] },
        ),
    ensures
        but_for_order(m, n.overflowing(display_id, overflow)),
{
    let after = n.overflowing(display_id, overflow);
    assert forall|e: DisplayId| #[trigger] overflow_of(after.constraint_overflow, e)
        == overflow_of(m.constraint_overflow, e) by {
        lemma_overflow_split(n.constraint_overflow, display_id, overflow, e);
        assert(overflow_of(n.constraint_overflow, e) == overflow_of(m.constraint_overflow, e));
    }
}

proof fn lemma_reshaped_again(
    n: Model,
    b: Answers,
    tree: ContainerTree,
    active: Seq<WindowId>,
    area: Rect,
    windows: Seq<WindowId>,
    slots: Seq<DormantSlot>,
)
    requires
        b.windows_spec(tree) == Ok::<Seq<WindowId>, Query>(windows),
        b.dormant_spec(tree) == Ok::<Seq<DormantSlot>, Query>(slots),
        b.changed_spec(tree, TreeChange::PruneDormant { now_unix: b.now_unix }) == Ok::<
            ContainerTree,
            Query,
        >(tree),
        same_windows(windows, active),
        forall|k: int|
            0 <= k < slots.len() ==> match b.outcome_spec(
                (#[trigger] slots[k]).dormant.evidence,
                Seq::empty(),
            ) {
                Ok(outcome) => outcome.confident() is None,
                Err(_) => false,
            },
    ensures
        n.reshaped(b, tree, active, area) == Ok::<(Model, ContainerTree), Query>((n, tree)),
{
    reveal(Model::reshaped);
    lemma_none_missing(windows, active);
    lemma_none_missing(active, windows);
    lemma_reclaimed_nothing(n, b, slots, 0, tree);
}

/// A display at rest is reflowed into what it was.
proof fn lemma_tree_reflowed_again(m: Model, n: Model, b: Answers, display: Display)
    requires
        but_for_order(m, n),
        tree_rests(m, b, display, m.active_on(display.id)),
        as_planned(m, b, display),
        written(m, display.id),
    ensures
        match n.tree_reflowed(b, display, m.active_on(display.id)) {
            Ok(after) => but_for_order(m, after) && after.constraint_overflow
                == n.constraint_overflow.filter(Model::off_display(display.id)) + overflow_of(
                m.constraint_overflow,
                display.id,
            ),
            Err(_) => false,
        },
{
    reveal(Model::tree_reflowed);
    reveal(Model::tree_saved);
    reveal(Model::tree_laid_out);
    let tree = m.trees[display.id.0];
    let active = m.active_on(display.id);
    let windows = b.windows_spec(tree)->Ok_0;
    let slots = b.dormant_spec(tree)->Ok_0;
    let plan = b.plan_spec(tree, display.work_area, m.config.gaps, m.minimums(windows))->Ok_0;
    let bare = n.without_tree(display.id);
    assert(bare.waiting_tree(display.id) is None && bare.waiting_tree_taken(display.id) == bare)
        by {
        reveal(Model::waiting_tree);
        reveal(Model::waiting_tree_taken);
        match fingerprint_of(m.displays, display.id) {
            Some(fingerprint) => {
                assert(bare.stored_for(fingerprint@) =~= m.stored_for(fingerprint@));
            },
            None => {},
        }
    }
    lemma_reshaped_again(bare, b, tree, active, display.work_area, windows, slots);
    lemma_evidence_refreshed_only(bare, windows, 0);
    let fresh = bare.evidence_refreshed(windows, 0);
    assert(fresh.minimums(windows) =~= m.minimums(windows));
    let put = Model { trees: fresh.trees.insert(display.id.0, tree), ..fresh };
    assert(put.trees =~= m.trees);
    assert(but_for_order(m, put)) by {
        assert(put.constraint_overflow == n.constraint_overflow);
    }
    lemma_overflowing_again(m, put, display.id, plan.overflow@);
    let over = put.overflowing(display.id, plan.overflow@);
    lemma_arranged_as_again(over, plan.placements@, 0, display.id);
}

proof fn lemma_trees_reflowed_again(
    m: Model,
    n: Model,
    b: Answers,
    base: Model,
    i: int,
    frame: Model,
)
    requires
        0 <= i <= m.displays.len(),
        but_for_order(m, n),
        but_for_order(m, base),
        frame.displays == m.displays,
        frame.interactive == m.interactive,
        handles_distinct(m.displays),
        in_blocks(frame, m.constraint_overflow, m.displays.len() as int),
        n.constraint_overflow == turned(frame, m.constraint_overflow, i),
        forall|k: int|
            0 <= k < m.displays.len() ==> if m.defers((#[trigger] m.displays[k]).id) {
                m.deferred.contains(m.displays[k].id.0)
            } else {
                &&& written(m, m.displays[k].id)
                &&& tree_rests(m, b, m.displays[k], m.active_on(m.displays[k].id))
                &&& as_planned(m, b, m.displays[k])
            },
    ensures
        match n.trees_reflowed(b, base, i) {
            Ok(after) => as_it_was(m, after),
            Err(_) => false,
        },
    decreases m.displays.len() - i,
{
    if i >= m.displays.len() {
        lemma_turned_ends(frame, m.constraint_overflow);
    } else {
        let display = m.displays[i];
        assert(base.displays[i] == display);
        if n.defers(display.id) {
            assert(n.deferred.insert(display.id.0) =~= n.deferred);
            lemma_turned_deferred(frame, m.constraint_overflow, i);
            lemma_trees_reflowed_again(m, n, b, base, i + 1, frame);
        } else {
            assert(base.is_active(display.id) =~= m.is_active(display.id)) by {
                assert(base.stays_listed() =~= m.stays_listed());
            }
            assert(base.active_on(display.id) == m.active_on(display.id));
            lemma_tree_reflowed_again(m, n, b, display);
            match n.tree_reflowed(b, display, m.active_on(display.id)) {
                Ok(next) => {
                    assert forall|k: int| 0 <= k < frame.displays.len() && k != i implies (
                    #[trigger] frame.displays[k]).id != frame.displays[i].id by {
                        assert(m.displays[k].id != m.displays[i].id);
                    }
                    lemma_turned_next(frame, m.constraint_overflow, i);
                    lemma_trees_reflowed_again(m, next, b, base, i + 1, frame);
                },
                Err(_) => {},
            }
        }
    }
}

/// A workspace's durable form depends on the workspace, the trees and the
/// windows alone.
proof fn lemma_persisted_same(m: Model, n: Model, b: Answers, i: int)
    requires
        n.inventory == m.inventory,
        n.displays == m.displays,
        n.trees == m.trees,
        0 <= i < m.workspaces.list.len(),
        n.workspaces.list[i] == (crate::workspace::Workspace {
            saved: n.workspaces.list[i].saved,
            ..m.workspaces.list[i]
        }),
    ensures
        n.persisted(b, i) == m.persisted(b, i),
{
    reveal(Model::persisted);
    assert forall|windows: Seq<WindowId>| #[trigger] n.evidence_list(windows) == m.evidence_list(
        windows,
    ) by {
        assert forall|id: isize| #[trigger] n.evidence(id) == m.evidence(id) by {
            assert(n.launch_order(id) == m.launch_order(id)) by {
                assert(n.older_sibling(id) =~= m.older_sibling(id));
            }
        }
        assert(n.evidence_list(windows) =~= m.evidence_list(windows));
    }
}

/// Every workspace from `i` on is written as it stands, and those before it
/// keep what was written.
pub proof fn lemma_all_written(m: Model, a: Answers, i: int)
    requires
        0 <= i,
    ensures
        match m.workspaces_persisted(a, i) {
            Ok(after) => {
                &&& after == (Model { intents: after.intents, workspaces: after.workspaces, ..m })
                &&& after.workspaces.members == m.workspaces.members
                &&& after.workspaces.list.len() == m.workspaces.list.len()
                &&& forall|k: int|
                    0 <= k < m.workspaces.list.len() ==> (#[trigger] after.workspaces.list[k]) == (
                    crate::workspace::Workspace {
                        saved: after.workspaces.list[k].saved,
                        ..m.workspaces.list[k]
                    })
                &&& forall|k: int|
                    0 <= k < i && k < m.workspaces.list.len() ==> (
                    #[trigger] after.workspaces.list[k]) == m.workspaces.list[k]
                &&& forall|k: int|
                    i <= k < m.workspaces.list.len() && (
                    #[trigger] after.workspaces.list[k]).pending_tree is None ==> match (
                        m.persisted(a, k),
                        after.workspaces.list[k].saved,
                    ) {
                        (Ok(persisted), Some(saved)) => same_persisted(saved, persisted),
                        _ => false,
                    }
            },
            Err(_) => true,
        },
    decreases m.workspaces.list.len() - i,
{
    if i < m.workspaces.list.len() {
        let workspace = m.workspaces.list[i];
        if workspace.pending_tree is Some {
            lemma_all_written(m, a, i + 1);
        } else {
            match m.persisted(a, i) {
                Err(_) => {},
                Ok(persisted) => {
                    let next = Model {
                        workspaces: m.workspaces.with(
                            i,
                            crate::workspace::Workspace { saved: Some(persisted), ..workspace },
                        ),
                        ..m
                    }.intent(crate::state::Intent::SaveWorkspace(persisted));
                    let unchanged = match workspace.saved {
                        Some(saved) => same_persisted(saved, persisted),
                        None => false,
                    };
                    if unchanged {
                        lemma_all_written(m, a, i + 1);
                        match m.workspaces_persisted(a, i + 1) {
                            Ok(after) => {
                                assert(after.workspaces.list[i] == m.workspaces.list[i]);
                            },
                            Err(_) => {},
                        }
                    } else {
                        lemma_all_written(next, a, i + 1);
                        assert forall|k: int| 0 <= k < m.workspaces.list.len() implies (
                        #[trigger] next.persisted(a, k)) == m.persisted(a, k) by {
                            lemma_persisted_same(m, next, a, k);
                        }
                        match next.workspaces_persisted(a, i + 1) {
                            Ok(after) => {
                                assert(after.workspaces.list[i] == next.workspaces.list[i]);
                                assert forall|k: int| 0 <= k < m.workspaces.list.len() implies (
                                #[trigger] after.workspaces.list[k]) == (
                                crate::workspace::Workspace {
                                    saved: after.workspaces.list[k].saved,
                                    ..m.workspaces.list[k]
                                }) by {
                                    assert(after.workspaces.list[k] == (
                                    crate::workspace::Workspace {
                                        saved: after.workspaces.list[k].saved,
                                        ..next.workspaces.list[k]
                                    }));
                                }
                                assert forall|k: int|
                                    i <= k < m.workspaces.list.len() && (
                                    #[trigger] after.workspaces.list[k]).pending_tree is None
                                    implies match (
                                    m.persisted(a, k),
                                    after.workspaces.list[k].saved,
                                ) {
                                    (Ok(persisted), Some(saved)) => same_persisted(
                                        saved,
                                        persisted,
                                    ),
                                    _ => false,
                                } by {
                                    assert(next.persisted(a, k) == m.persisted(a, k));
                                }
                            },
                            Err(_) => {},
                        }
                    }
                },
            }
        }
    }
}

proof fn lemma_persisted_again(m: Model, n: Model, b: Answers, i: int)
    requires
        0 <= i,
        but_for_order(m, n),
        all_written(m, b),
    ensures
        n.workspaces_persisted(b, i) == Ok::<Model, Query>(n),
    decreases m.workspaces.list.len() - i,
{
    if i < m.workspaces.list.len() {
        let workspace = m.workspaces.list[i];
        lemma_persisted_same(m, n, b, i);
        lemma_persisted_again(m, n, b, i + 1);
    }
}

/// A window listed as active on a display is arranged there.
proof fn lemma_active_there(m: Model, display_id: DisplayId, window_id: WindowId)
    requires
        m.active_on(display_id).contains(window_id),
    ensures
        m.arrangement_display(window_id.0) == Some(display_id),
{
    let pred = m.is_active(display_id);
    let entries = m.order.filter(pred);
    let k = choose|k: int|
        0 <= k < m.active_on(display_id).len() && m.active_on(display_id)[k] == window_id;
    assert(entries[k].window_id == window_id);
    m.order.lemma_filter_pred(pred, k);
}

/// What the first answers said of a tree's plan the second say too.
proof fn lemma_planned_known(m: Model, a: Answers, b: Answers, display: Display)
    requires
        knows_more(a, b),
    ensures
        settles(
            a.windows_spec(m.trees[display.id.0]),
            b.windows_spec(m.trees[display.id.0]),
        ),
        settles(tree_planned(m, a, display), tree_planned(m, b, display)),
{
}

/// Where every tree holds just what there was to arrange on its display, no
/// plan reaches into another tree.
proof fn lemma_plans_apart(
    m: Model,
    first: Model,
    flowed: Model,
    a: Answers,
    b: Answers,
    base: Model,
)
    requires
        base == m.trees_on_connected().refreshed(),
        knows_more(a, b),
        at_rest(m, first, b),
        handles_distinct(base.displays),
        base.displays == first.displays,
        base.interactive == first.interactive,
        flowed.trees == first.trees,
        flowed.windows == first.windows,
        flowed.inventory == first.inventory,
        flowed.config == first.config,
        flowed.constraint_overflow == first.constraint_overflow,
    ensures
        plans_apart(flowed, a, base),
        plans_at_home(flowed, a, base),
{
    assert forall|i: int|
        0 <= i < base.displays.len() && !base.defers(
            (#[trigger] base.displays[i]).id,
        ) implies left_proper(flowed, a, base.displays[i]) by {
        assert(!first.defers(first.displays[i].id));
        lemma_planned_alike(first, flowed, a, base.displays[i]);
        lemma_planned_known(first, a, b, base.displays[i]);
    }
    assert forall|i: int, k: int|
        #![trigger base.displays[i], tree_planned(flowed, a, base.displays[i])->Ok_0.placements@[k]]
        0 <= i < base.displays.len() && !base.defers(base.displays[i].id) && tree_planned(
            flowed,
            a,
            base.displays[i],
        ) is Ok && 0 <= k < tree_planned(
            flowed,
            a,
            base.displays[i],
        )->Ok_0.placements@.len() implies base.arrangement_display(
        tree_planned(flowed, a, base.displays[i])->Ok_0.placements@[k].window_id.0,
    ) == Some(base.displays[i].id) by {
        assert(!first.defers(first.displays[i].id));
        lemma_planned_alike(first, flowed, a, base.displays[i]);
        lemma_planned_known(first, a, b, base.displays[i]);
        let plan = tree_planned(flowed, a, base.displays[i])->Ok_0;
        let windows = b.windows_spec(first.trees[base.displays[i].id.0])->Ok_0;
        assert(plan_is_proper(windows, plan));
        assert(windows.contains(plan.placements@[k].window_id));
        lemma_active_there(base, base.displays[i].id, plan.placements@[k].window_id);
    }
    assert forall|i: int, j: int|
        0 <= i < base.displays.len() && 0 <= j < base.displays.len() && i != j && !base.defers(
            (#[trigger] base.displays[i]).id,
        ) && !base.defers((#[trigger] base.displays[j]).id) implies clear_of(
        flowed,
        a,
        base.displays[i],
        base.displays[j],
    ) by {
        assert(!first.defers(first.displays[i].id));
        lemma_planned_known(first, a, b, base.displays[i]);
        match (
            tree_planned(flowed, a, base.displays[j]),
            a.windows_spec(flowed.trees[base.displays[i].id.0]),
        ) {
            (Ok(plan), Ok(windows)) => {
                assert forall|k: int| 0 <= k < plan.placements@.len() implies !windows.contains(
                    (#[trigger] plan.placements@[k]).window_id,
                ) by {
                    let w = plan.placements@[k].window_id;
                    assert(base.arrangement_display(
                        tree_planned(flowed, a, base.displays[j])->Ok_0.placements@[k].window_id.0,
                    ) == Some(base.displays[j].id));
                    if windows.contains(w) {
                        lemma_active_there(base, base.displays[i].id, w);
                        if i < j {
                            assert(base.displays[i].id != base.displays[j].id);
                        } else {
                            assert(base.displays[j].id != base.displays[i].id);
                        }
                    }
                }
            },
            _ => {},
        }
    }
}

// How the first reflow notes the overflow.

proof fn lemma_tree_reflowed_notes(
    m: Model,
    a: Answers,
    display: Display,
    active: Seq<WindowId>,
) -> (overflow: Seq<WindowId>)
    ensures
        match m.tree_reflowed(a, display, active) {
            Ok(after) => after.constraint_overflow == m.constraint_overflow.filter(
                Model::off_display(display.id),
            ) + Seq::new(
                overflow.len(),
                |i: int| Listed { display_id: display.id, window_id: overflow[i] },
            ),
            Err(_) => true,
        },
{
    reveal(Model::tree_reflowed);
    reveal(Model::reshaped);
    reveal(Model::waiting_tree_taken);
    reveal(Model::tree_saved);
    let lifted = m.lifted(display.id);
    match m.starting_tree(a, display.id, active) {
        Err(_) => Seq::empty(),
        Ok(tree) => match a.windows_spec(tree) {
            Err(_) => Seq::empty(),
            Ok(present) => {
                lemma_shed_only(lifted, a, present.filter(Model::not_in(active)), 0, tree);
                match lifted.reshaped(a, tree, active, display.work_area) {
                    Err(_) => Seq::empty(),
                    Ok((next, grown)) => match a.windows_spec(grown) {
                        Err(_) => Seq::empty(),
                        Ok(windows) => {
                            lemma_evidence_refreshed_only(next, windows, 0);
                            let fresh = next.evidence_refreshed(windows, 0);
                            match fresh.tree_saved(a, display.id, grown) {
                                Err(_) => Seq::empty(),
                                Ok(saved) => {
                                    assert(saved.constraint_overflow == m.constraint_overflow);
                                    lemma_laid_out_notes(saved, a, display, grown)
                                },
                            }
                        },
                    },
                }
            },
        },
    }
}

proof fn lemma_laid_out_notes(
    m: Model,
    a: Answers,
    display: Display,
    tree: ContainerTree,
) -> (overflow: Seq<WindowId>)
    ensures
        match m.tree_laid_out(a, display, tree) {
            Ok(after) => after.constraint_overflow == m.constraint_overflow.filter(
                Model::off_display(display.id),
            ) + Seq::new(
                overflow.len(),
                |i: int| Listed { display_id: display.id, window_id: overflow[i] },
            ),
            Err(_) => true,
        },
{
    reveal(Model::tree_laid_out);
    match a.windows_spec(tree) {
        Err(_) => Seq::empty(),
        Ok(windows) => match a.plan_spec(
            tree,
            display.work_area,
            m.config.gaps,
            m.minimums(windows),
        ) {
            Err(_) => Seq::empty(),
            Ok(plan) => {
                let next = Model { trees: m.trees.insert(display.id.0, tree), ..m }.overflowing(
                    display.id,
                    plan.overflow@,
                );
                lemma_arranged_as_only(next, plan.placements@, 0, display.id);
                plan.overflow@
            },
        },
    }
}

proof fn lemma_trees_reflowed_blocks(m: Model, a: Answers, base: Model, i: int, after: Model)
    requires
        0 <= i <= base.displays.len(),
        m.interactive == base.interactive,
        handles_distinct(base.displays),
        m.trees_reflowed(a, base, i) == Ok::<Model, Query>(after),
        in_blocks(base, m.constraint_overflow, i),
    ensures
        in_blocks(base, after.constraint_overflow, base.displays.len() as int),
    decreases base.displays.len() - i,
{
    if i < base.displays.len() {
        let display = base.displays[i];
        if m.defers(display.id) {
            lemma_in_blocks_deferred(base, m.constraint_overflow, i);
            lemma_trees_reflowed_blocks(m.deferred_for(display.id), a, base, i + 1, after);
        } else {
            let active = base.active_on(display.id);
            match m.tree_reflowed(a, display, active) {
                Err(_) => {},
                Ok(next) => {
                    lemma_interactive_kept(m, a, display, active);
                    let overflow = lemma_tree_reflowed_notes(m, a, display, active);
                    lemma_in_blocks_next(
                        base,
                        m.constraint_overflow,
                        next.constraint_overflow,
                        i,
                        overflow,
                    );
                    lemma_trees_reflowed_blocks(next, a, base, i + 1, after);
                },
            }
        }
    }
}

// Where the windows are at home.

/// Each plan places only windows that are arranged on its display.
spec fn plans_at_home(after: Model, a: Answers, base: Model) -> bool {
    forall|i: int, k: int|
        #![trigger base.displays[i], tree_planned(after, a, base.displays[i])->Ok_0.placements@[k]]
        0 <= i < base.displays.len() && !base.defers(base.displays[i].id) && tree_planned(
            after,
            a,
            base.displays[i],
        ) is Ok && 0 <= k < tree_planned(
            after,
            a,
            base.displays[i],
        )->Ok_0.placements@.len() ==> base.arrangement_display(
            tree_planned(after, a, base.displays[i])->Ok_0.placements@[k].window_id.0,
        ) == Some(base.displays[i].id)
}

/// No window without a workspace changed its display.
spec fn homes_kept(before: Model, after: Model) -> bool {
    &&& after.workspaces.members == before.workspaces.members
    &&& after.inventory.dom() == before.inventory.dom()
    &&& forall|id: isize|
        #![trigger after.inventory[id]]
        before.inventory.contains_key(id) && !before.workspaces.members.contains_key(id)
            ==> after.inventory[id].window.display_id == before.inventory[id].window.display_id
}

proof fn lemma_arranged_as_home(
    base: Model,
    m: Model,
    placements: Seq<PlannedPlacement>,
    i: int,
    display_id: DisplayId,
)
    requires
        0 <= i,
        homes_kept(base, m),
        forall|k: int|
            0 <= k < placements.len() ==> base.arrangement_display(
                (#[trigger] placements[k]).window_id.0,
            ) == Some(display_id),
    ensures
        homes_kept(base, m.arranged_as(placements, i, display_id)),
    decreases placements.len() - i,
{
    if i < placements.len() {
        let next = m.arranged_at(placements[i].window_id, display_id, placements[i].bounds);
        assert(base.arrangement_display(placements[i].window_id.0) == Some(display_id));
        assert(next.inventory.dom() =~= m.inventory.dom());
        assert(homes_kept(base, next));
        lemma_arranged_as_home(base, next, placements, i + 1, display_id);
    }
}

proof fn lemma_tree_reflowed_home(
    base: Model,
    m: Model,
    a: Answers,
    display: Display,
    active: Seq<WindowId>,
)
    requires
        homes_kept(base, m),
    ensures
        match m.tree_reflowed(a, display, active) {
            Ok(after) => (match tree_planned(after, a, display) {
                Ok(plan) => forall|k: int|
                    0 <= k < plan.placements@.len() ==> base.arrangement_display(
                        (#[trigger] plan.placements@[k]).window_id.0,
                    ) == Some(display.id),
                Err(_) => true,
            }) ==> homes_kept(base, after),
            Err(_) => true,
        },
{
    reveal(Model::tree_reflowed);
    reveal(Model::reshaped);
    reveal(Model::waiting_tree_taken);
    reveal(Model::tree_saved);
    reveal(Model::tree_laid_out);
    let lifted = m.lifted(display.id);
    match m.starting_tree(a, display.id, active) {
        Err(_) => {},
        Ok(tree) => match a.windows_spec(tree) {
            Err(_) => {},
            Ok(present) => {
                lemma_shed_only(lifted, a, present.filter(Model::not_in(active)), 0, tree);
                match lifted.reshaped(a, tree, active, display.work_area) {
                    Err(_) => {},
                    Ok((next, grown)) => match a.windows_spec(grown) {
                        Err(_) => {},
                        Ok(windows) => {
                            lemma_evidence_refreshed_only(next, windows, 0);
                            let fresh = next.evidence_refreshed(windows, 0);
                            match fresh.tree_saved(a, display.id, grown) {
                                Err(_) => {},
                                Ok(saved) => {
                                    assert(saved.inventory == m.inventory
                                        && saved.workspaces.members == m.workspaces.members);
                                    lemma_laid_out_home(base, saved, a, display, grown);
                                },
                            }
                        },
                    },
                }
            },
        },
    }
}

proof fn lemma_laid_out_home(
    base: Model,
    m: Model,
    a: Answers,
    display: Display,
    tree: ContainerTree,
)
    requires
        homes_kept(base, m),
    ensures
        match m.tree_laid_out(a, display, tree) {
            Ok(after) => (match tree_planned(after, a, display) {
                Ok(plan) => forall|k: int|
                    0 <= k < plan.placements@.len() ==> base.arrangement_display(
                        (#[trigger] plan.placements@[k]).window_id.0,
                    ) == Some(display.id),
                Err(_) => true,
            }) ==> homes_kept(base, after),
            Err(_) => true,
        },
{
    reveal(Model::tree_laid_out);
    match a.windows_spec(tree) {
        Err(_) => {},
        Ok(windows) => match a.plan_spec(
            tree,
            display.work_area,
            m.config.gaps,
            m.minimums(windows),
        ) {
            Err(_) => {},
            Ok(plan) => {
                lemma_laid_out_mine(m, a, display, tree, windows, plan);
                let next = Model { trees: m.trees.insert(display.id.0, tree), ..m }.overflowing(
                    display.id,
                    plan.overflow@,
                );
                assert(homes_kept(base, next));
                let after = laid_out(m, display, tree, plan);
                assert(tree_planned(after, a, display) == Ok::<TreePlan, Query>(plan));
                if forall|k: int|
                    0 <= k < plan.placements@.len() ==> base.arrangement_display(
                        (#[trigger] plan.placements@[k]).window_id.0,
                    ) == Some(display.id) {
                    lemma_arranged_as_home(base, next, plan.placements@, 0, display.id);
                }
            },
        },
    }
}

proof fn lemma_trees_reflowed_home(m: Model, a: Answers, base: Model, i: int, after: Model)
    requires
        0 <= i <= base.displays.len(),
        m.interactive == base.interactive,
        handles_distinct(base.displays),
        m.trees_reflowed(a, base, i) == Ok::<Model, Query>(after),
        plans_at_home(after, a, base),
        homes_kept(base, m),
    ensures
        homes_kept(base, after),
    decreases base.displays.len() - i,
{
    if i < base.displays.len() {
        let display = base.displays[i];
        if m.defers(display.id) {
            lemma_trees_reflowed_home(m.deferred_for(display.id), a, base, i + 1, after);
        } else {
            let active = base.active_on(display.id);
            match m.tree_reflowed(a, display, active) {
                Err(_) => {},
                Ok(next) => {
                    lemma_interactive_kept(m, a, display, active);
                    lemma_planned_later(next, a, base, i + 1, after, i);
                    lemma_tree_reflowed_home(base, m, a, display, active);
                    match tree_planned(next, a, display) {
                        Ok(plan) => {
                            assert forall|k: int| 0 <= k < plan.placements@.len() implies
                                base.arrangement_display(
                                (#[trigger] plan.placements@[k]).window_id.0,
                            ) == Some(display.id) by {
                                assert(tree_planned(after, a, base.displays[i])->Ok_0.placements@[k]
                                    == plan.placements@[k]);
                            }
                        },
                        Err(_) => {},
                    }
                    lemma_trees_reflowed_home(next, a, base, i + 1, after);
                },
            }
        }
    }
}

/// Where no window without a workspace changed its display, every window is
/// arranged where it was.
proof fn lemma_alike(m: Model, n: Model)
    requires
        inventory_kept(m.inventory, n.inventory),
        pool_kept(m.workspaces, n.workspaces),
        n.session_tiled == m.session_tiled,
        homes_kept(m, n),
    ensures
        arranged_alike(m, n),
{
    assert forall|id: isize|
        #![trigger n.tiles(id)]
        #![trigger n.arrangement_display(id)]
        n.tiles(id) == m.tiles(id) && n.arrangement_display(id) == m.arrangement_display(id) by {
        assert(n.inventory.contains_key(id) == m.inventory.contains_key(id));
        assert(m.inventory.contains_key(id) ==> n.inventory[id].action == m.inventory[id].action);
        match m.workspaces.workspace_of(id) {
            Some(name) => {
                lemma_find_same(m.workspaces, n.workspaces, name);
                lemma_first_index(m.workspaces.list.len(), m.workspaces.named(name.key@));
                match m.workspaces.find(name) {
                    Some(at) => {
                        assert(n.workspaces.list[at].displayed_on
                            == m.workspaces.list[at].displayed_on);
                    },
                    None => {},
                }
            },
            None => {},
        }
    }
}

/// Where every window is arranged where it was, each display arranges what it
/// did.
proof fn lemma_active_alike(base: Model, n: Model, display_id: DisplayId)
    requires
        n.order == base.order,
        inventory_kept(base.inventory, n.inventory),
        arranged_alike(base, n),
    ensures
        n.active_on(display_id) == base.active_on(display_id),
{
    let p = base.is_active(display_id);
    let q = n.is_active(display_id);
    assert forall|entry: Listed| #[trigger] p(entry) == q(entry) by {
        let id = entry.window_id.0;
        assert(n.tiles(id) == base.tiles(id));
        assert(n.arrangement_display(id) == base.arrangement_display(id));
        assert(base.inventory.contains_key(id) ==> n.inventory[id].eligibility
            == base.inventory[id].eligibility);
    }
    assert(p =~= q);
}

/// Reflowing the trees a second time changes nothing: no window is placed
/// again, nothing is written again, and the trees, the order, the overflow and
/// the revision stay as they are. The second reflow is told what the first was and at the
/// same time, and whatever more it has to ask is answered so that the trees are
/// left alone.
pub proof fn law_reflowing_twice_changes_nothing(m: Model, first: Model, a: Answers, b: Answers)
    requires
        m.finite(),
        handles_distinct(m.displays),
        m.treed(a) == Ok::<Model, Query>(first),
        knows_more(a, b),
        at_rest(m, first, b),
    ensures
        match first.treed(b) {
            Ok(second) => as_it_was(first, second),
            Err(_) => false,
        },
{
    if m.tiling_active && !m.paused {
        let base = m.trees_on_connected().refreshed();
        match base.trees_reflowed(a, base, 0) {
            Err(_) => {},
            Ok(flowed) => {
                lemma_reflowed_twice(m, base, flowed, first, a, b);
            },
        }
    } else {
        assert(first == m);
    }
}

proof fn lemma_reflowed_twice(
    m: Model,
    base: Model,
    flowed: Model,
    first: Model,
    a: Answers,
    b: Answers,
)
    requires
        m.finite(),
        m.tiling_active && !m.paused,
        handles_distinct(m.displays),
        base == m.trees_on_connected().refreshed(),
        base.trees_reflowed(a, base, 0) == Ok::<Model, Query>(flowed),
        flowed.evidence_kept().workspaces_persisted(a, 0) == Ok::<Model, Query>(first),
        knows_more(a, b),
        at_rest(m, first, b),
    ensures
        match first.treed(b) {
            Ok(second) => as_it_was(first, second),
            Err(_) => false,
        },
{
    let cleaned = m.trees_on_connected();
    assert forall|i: int| 0 <= i < base.constraint_overflow.len() implies connected(
        base.displays,
        (#[trigger] base.constraint_overflow[i]).display_id,
    ) by {
        m.constraint_overflow.lemma_filter_pred(m.on_connected(), i);
    }
    lemma_trees_reflowed_leave(base, a, base, 0);
    lemma_first_frame(m, a, base, flowed, first);
    lemma_plans_apart(m, first, flowed, a, b, base);
    lemma_trees_reflowed_planned(base, a, base, 0, flowed);
    lemma_trees_reflowed_home(base, a, base, 0, flowed);
    assert(homes_kept(base, first));
    lemma_alike(base, first);
    assert(arranged_alike(cleaned, first)) by {
        assert forall|id: isize|
            #![trigger first.tiles(id)]
            #![trigger first.arrangement_display(id)]
            first.tiles(id) == cleaned.tiles(id) && first.arrangement_display(id)
                == cleaned.arrangement_display(id) by {
            assert(cleaned.tiles(id) == base.tiles(id));
            assert(cleaned.arrangement_display(id) == base.arrangement_display(id));
            assert(first.tiles(id) == base.tiles(id));
        }
    }
    let again = first.trees_on_connected();
    assert(again.trees =~= first.trees) by {
        assert forall|d: isize| #[trigger] first.trees.contains_key(d) implies display_ids(
            first.displays,
        ).contains(d) by {}
    }
    lemma_filter_everything(first.constraint_overflow, first.on_connected());
    assert(again == first);
    lemma_refreshed_again(cleaned, first);
    assert forall|k: int| 0 <= k < first.displays.len() implies if first.defers(
        (#[trigger] first.displays[k]).id,
    ) {
        first.deferred.contains(first.displays[k].id.0)
    } else {
        &&& written(first, first.displays[k].id)
        &&& tree_rests(first, b, first.displays[k], first.active_on(first.displays[k].id))
        &&& as_planned(first, b, first.displays[k])
    } by {
        assert(base.displays[k] == first.displays[k]);
        if !base.defers(base.displays[k].id) {
            lemma_planned_alike(flowed, first, a, base.displays[k]);
            assert(as_planned(first, a, first.displays[k]));
            lemma_planned_known(first, a, b, first.displays[k]);
            lemma_active_alike(base, first, first.displays[k].id);
        }
    }
    lemma_in_blocks_start(base, base.constraint_overflow);
    lemma_trees_reflowed_blocks(base, a, base, 0, flowed);
    lemma_turned_ends(base, first.constraint_overflow);
    lemma_trees_reflowed_again(first, first, b, first, 0, base);
    match first.trees_reflowed(b, first, 0) {
        Err(_) => {},
        Ok(next) => {
            let kept = next.evidence_kept();
            assert(as_it_was(first, kept));
            lemma_first_written(flowed.evidence_kept(), first, a, b);
            lemma_persisted_again(first, kept, b, 0);
        },
    }
}

/// What the first reflow wrote is what the second would write.
proof fn lemma_first_written(flowed: Model, first: Model, a: Answers, b: Answers)
    requires
        flowed.workspaces_persisted(a, 0) == Ok::<Model, Query>(first),
        knows_more(a, b),
    ensures
        all_written(first, b),
{
    lemma_all_written(flowed, a, 0);
    assert forall|i: int| 0 <= i < first.workspaces.list.len() implies match (
    #[trigger] first.workspaces.list[i]).pending_tree {
        Some(_) => true,
        None => match (first.persisted(b, i), first.workspaces.list[i].saved) {
            (Ok(persisted), Some(saved)) => same_persisted(saved, persisted),
            _ => false,
        },
    } by {
        lemma_persisted_same(flowed, first, a, i);
        assert(settles(first.persisted(a, i), first.persisted(b, i))) by {
            reveal(Model::persisted);
        }
    }
}

/// What ends a reflow leaves the trees, the order and the displays alone.
proof fn lemma_first_frame(m: Model, a: Answers, base: Model, flowed: Model, first: Model)
    requires
        base == m.trees_on_connected().refreshed(),
        base.trees_reflowed(a, base, 0) == Ok::<Model, Query>(flowed),
        flowed.evidence_kept().workspaces_persisted(a, 0) == Ok::<Model, Query>(first),
        m.tiling_active && !m.paused,
    ensures
        first == (Model {
            intents: first.intents,
            workspaces: first.workspaces,
            leaf_evidence: first.leaf_evidence,
            ..flowed
        }),
        first.workspaces.members == flowed.workspaces.members,
        pool_kept(base.workspaces, first.workspaces),
        inventory_kept(base.inventory, first.inventory),
        first.session_tiled == base.session_tiled,
        first.config == base.config,
        first.inventory.dom() == m.inventory.dom(),
        first.tiling_active && !first.paused,
{
    lemma_all_written(flowed.evidence_kept(), a, 0);
    crate::laws::frame::lemma_trees_reflowed(base, a, base, 0);
    assert forall|i: int| 0 <= i < base.workspaces.list.len() implies (
    #[trigger] first.workspaces.list[i]) == (crate::workspace::Workspace {
        pending_tree: first.workspaces.list[i].pending_tree,
        saved: first.workspaces.list[i].saved,
        ..base.workspaces.list[i]
    }) by {
        assert(flowed.workspaces.list[i] == (crate::workspace::Workspace {
            pending_tree: flowed.workspaces.list[i].pending_tree,
            saved: flowed.workspaces.list[i].saved,
            ..base.workspaces.list[i]
        }));
    }
}

} // verus!
