//! What is settled stays settled: answering one more question never changes
//! the outcome of a step that needed no more answers.

use vstd::prelude::*;

verus! {

use crate::answers::{
    Answers, Candidate, ContainerTree, DormantSlot, LayoutCells, LeafFate, Occupant,
    PersistedTree, PlannedPlacement, Query, TreePlan,
};
use crate::direction::Neighbor;
use crate::event::Event;
use crate::geometry::{
    CardinalDirection, DisplayDirection, DisplayId, Rect, UndoTransactionId, WindowId,
};
use crate::name::{RequestedName, WorkspaceName};
use crate::observe::RuleTarget;
use crate::outcome::{SwitchFailure, SwitchPlan, Switching};
use crate::reducer::step;
use crate::state::{Listed, Model};
use crate::table::sorted;
use crate::text::{first_index, lemma_first_index};
use crate::undo::{CapturedTree, UndoMember, UndoTargetOutcome, UndoTreeSnapshot};
use crate::window::{Display, ManagedWindow, Window};

/// Every question `a` can answer `b` answers the same way, at the same time.
pub open spec fn knows_more(a: Answers, b: Answers) -> bool {
    &&& b.now_unix == a.now_unix
    &&& forall|query: Query| #[trigger]
        a.look_up(query) is Some ==> b.look_up(query) == a.look_up(query)
}

/// Where `x` is a result and not a question, `y` is the same result.
pub open spec fn settles<T>(x: Result<T, Query>, y: Result<T, Query>) -> bool {
    x is Ok ==> y == x
}

/// Answers that were appended take nothing away from those before them.
pub proof fn law_appended_answers_know_more(a: Answers, b: Answers)
    requires
        b.now_unix == a.now_unix,
        a.known@.len() <= b.known@.len(),
        forall|i: int| 0 <= i < a.known@.len() ==> #[trigger] b.known@[i] == a.known@[i],
    ensures
        knows_more(a, b),
{
    assert forall|query: Query| #[trigger] a.look_up(query) is Some implies b.look_up(query)
        == a.look_up(query) by {
        let p = a.asks(query);
        let q = b.asks(query);
        lemma_first_index(a.known@.len(), p);
        lemma_first_index(b.known@.len(), q);
        let i = first_index(a.known@.len(), p)->0;
        assert forall|k: int| 0 <= k < a.known@.len() implies #[trigger] p(k) == q(k) by {
            assert(b.known@[k] == a.known@[k]);
        }
        assert(p(i));
        assert(q(i));
        let j = first_index(b.known@.len(), q)->0;
        assert(j <= i);
        assert(q(j));
        assert(p(j));
        assert(b.known@[i] == a.known@[i]);
    }
}

// Trees and arranging.

proof fn same_durable(m: Model, a: Answers, b: Answers, tree: ContainerTree)
    requires
        knows_more(a, b),
    ensures
        settles(m.durable(a, tree), m.durable(b, tree)),
{
}

proof fn same_snapshots(
    m: Model,
    a: Answers,
    b: Answers,
    trees: Seq<CapturedTree>,
    i: int,
    done: Seq<UndoTreeSnapshot>,
)
    requires
        knows_more(a, b),
    ensures
        settles(m.snapshots(a, trees, i, done), m.snapshots(b, trees, i, done)),
    decreases trees.len() - i,
{
    if i < trees.len() {
        let prior = trees[i];
        same_durable(m, a, b, prior.tree);
        same_snapshots(m, a, b, trees, i + 1, done);
        match (crate::topology::fingerprint_of(m.displays, prior.display_id), m.durable(
            a,
            prior.tree,
        )) {
            (Some(display_fingerprint), Ok(tree)) => {
                same_snapshots(
                    m,
                    a,
                    b,
                    trees,
                    i + 1,
                    done.push(UndoTreeSnapshot { display_fingerprint, tree }),
                );
            },
            _ => {},
        }
    }
}

proof fn same_scope_closed(m: Model, a: Answers, b: Answers)
    requires
        knows_more(a, b),
    ensures
        settles(m.scope_closed(a), m.scope_closed(b)),
{
    reveal(Model::scope_closed);
    match m.undo_scope {
        Some(scope) => {
            same_snapshots(m, a, b, scope.prior_trees, 0, Seq::empty());
        },
        None => {},
    }
}

proof fn same_fates(
    m: Model,
    a: Answers,
    b: Answers,
    leaves: Seq<Occupant>,
    open: Seq<Candidate>,
    i: int,
    claimed: Set<isize>,
    done: Seq<LeafFate>,
)
    requires
        knows_more(a, b),
    ensures
        settles(
            m.fates(a, leaves, open, i, claimed, done),
            m.fates(b, leaves, open, i, claimed, done),
        ),
    decreases leaves.len() - i,
{
    if i < leaves.len() {
        let dormant = match leaves[i] {
            Occupant::Live(evidence) => crate::answers::DormantPosition {
                evidence,
                since_unix: a.now_unix,
            },
            Occupant::Dormant(dormant) => dormant,
        };
        same_fates(
            m,
            a,
            b,
            leaves,
            open,
            i + 1,
            claimed,
            done.push(LeafFate::Dormant(dormant)),
        );
        match a.outcome_spec(dormant.evidence, open) {
            Ok(outcome) => match outcome.confident() {
                Some(window_id) => {
                    same_fates(
                        m,
                        a,
                        b,
                        leaves,
                        open,
                        i + 1,
                        claimed.insert(window_id.0),
                        done.push(LeafFate::Live(window_id)),
                    );
                },
                None => {},
            },
            Err(_) => {},
        }
    }
}

proof fn same_restored_tree(
    m: Model,
    a: Answers,
    b: Answers,
    stored: PersistedTree,
    active: Seq<WindowId>,
)
    requires
        knows_more(a, b),
    ensures
        settles(m.restored_tree(a, stored, active), m.restored_tree(b, stored, active)),
{
    reveal(Model::restored_tree);
    match a.leaves_spec(stored) {
        Ok(leaves) => {
            same_fates(m, a, b, leaves, m.candidates(active), 0, Set::empty(), Seq::empty());
        },
        Err(_) => {},
    }
}

proof fn same_shed(
    m: Model,
    a: Answers,
    b: Answers,
    departed: Seq<WindowId>,
    i: int,
    tree: ContainerTree,
)
    requires
        knows_more(a, b),
    ensures
        settles(m.shed(a, departed, i, tree), m.shed(b, departed, i, tree)),
    decreases departed.len() - i,
{
    if i < departed.len() {
        let id = departed[i].0;
        let change = if m.leaf_evidence.contains_key(id) && !m.inventory.contains_key(id) {
            crate::answers::TreeChange::MakeDormant {
                window_id: departed[i],
                dormant: crate::answers::DormantPosition {
                    evidence: m.leaf_evidence[id],
                    since_unix: a.now_unix,
                },
            }
        } else {
            crate::answers::TreeChange::Remove { window_id: departed[i] }
        };
        match a.changed_spec(tree, change) {
            Ok(next) => {
                same_shed(
                    Model { leaf_evidence: m.leaf_evidence.remove(id), ..m },
                    a,
                    b,
                    departed,
                    i + 1,
                    next,
                );
            },
            Err(_) => {},
        }
    }
}

proof fn same_reclaimed(
    m: Model,
    a: Answers,
    b: Answers,
    slots: Seq<DormantSlot>,
    i: int,
    tree: ContainerTree,
    unplaced: Seq<WindowId>,
)
    requires
        knows_more(a, b),
    ensures
        settles(
            m.reclaimed(a, slots, i, tree, unplaced),
            m.reclaimed(b, slots, i, tree, unplaced),
        ),
    decreases slots.len() - i,
{
    if i < slots.len() {
        same_reclaimed(m, a, b, slots, i + 1, tree, unplaced);
        match a.outcome_spec(slots[i].dormant.evidence, m.candidates(unplaced)) {
            Ok(outcome) => match outcome.confident() {
                Some(window_id) => {
                    match a.change_spec(
                        tree,
                        crate::answers::TreeChange::Reclaim {
                            position: slots[i].position,
                            window_id,
                        },
                    ) {
                        Ok(Some(next)) => {
                            same_reclaimed(
                                m,
                                a,
                                b,
                                slots,
                                i + 1,
                                next,
                                unplaced.filter(crate::parking::other_than(window_id)),
                            );
                        },
                        _ => {},
                    }
                },
                None => {},
            },
            Err(_) => {},
        }
    }
}

proof fn same_grown_by(
    m: Model,
    a: Answers,
    b: Answers,
    window_id: WindowId,
    tree: ContainerTree,
    area: Rect,
)
    requires
        knows_more(a, b),
    ensures
        settles(m.grown_by(a, window_id, tree, area), m.grown_by(b, window_id, tree, area)),
{
}

proof fn same_grown(
    m: Model,
    a: Answers,
    b: Answers,
    windows: Seq<WindowId>,
    i: int,
    tree: ContainerTree,
    area: Rect,
)
    requires
        knows_more(a, b),
    ensures
        settles(m.grown(a, windows, i, tree, area), m.grown(b, windows, i, tree, area)),
    decreases windows.len() - i,
{
    if i < windows.len() {
        same_grown_by(m, a, b, windows[i], tree, area);
        match m.grown_by(a, windows[i], tree, area) {
            Ok(next) => {
                same_grown(m, a, b, windows, i + 1, next, area);
            },
            Err(_) => {},
        }
    }
}

proof fn same_tree_saved(
    m: Model,
    a: Answers,
    b: Answers,
    display_id: DisplayId,
    tree: ContainerTree,
)
    requires
        knows_more(a, b),
    ensures
        settles(m.tree_saved(a, display_id, tree), m.tree_saved(b, display_id, tree)),
{
    reveal(Model::tree_saved);
    same_durable(m, a, b, tree);
}

proof fn same_tree_laid_out(
    m: Model,
    a: Answers,
    b: Answers,
    display: Display,
    tree: ContainerTree,
)
    requires
        knows_more(a, b),
    ensures
        settles(m.tree_laid_out(a, display, tree), m.tree_laid_out(b, display, tree)),
{
    reveal(Model::tree_laid_out);
}

proof fn same_reshaped(
    m: Model,
    a: Answers,
    b: Answers,
    tree: ContainerTree,
    active: Seq<WindowId>,
    area: Rect,
)
    requires
        knows_more(a, b),
    ensures
        settles(m.reshaped(a, tree, active, area), m.reshaped(b, tree, active, area)),
{
    reveal(Model::reshaped);
    match a.windows_spec(tree) {
        Ok(present) => {
            let departed = present.filter(Model::not_in(active));
            same_shed(m, a, b, departed, 0, tree);
            match m.shed(a, departed, 0, tree) {
                Ok((next, shed)) => {
                    match a.changed_spec(
                        shed,
                        crate::answers::TreeChange::PruneDormant { now_unix: a.now_unix },
                    ) {
                        Ok(pruned) => match (a.windows_spec(pruned), a.dormant_spec(pruned)) {
                            (Ok(kept), Ok(slots)) => {
                                let unplaced = active.filter(Model::not_in(kept));
                                same_reclaimed(next, a, b, slots, 0, pruned, unplaced);
                                match next.reclaimed(a, slots, 0, pruned, unplaced) {
                                    Ok((tree, unplaced)) => {
                                        same_grown(next, a, b, unplaced, 0, tree, area);
                                    },
                                    Err(_) => {},
                                }
                            },
                            _ => {},
                        },
                        Err(_) => {},
                    }
                },
                Err(_) => {},
            }
        },
        Err(_) => {},
    }
}

proof fn same_tree_reflowed(
    m: Model,
    a: Answers,
    b: Answers,
    display: Display,
    active: Seq<WindowId>,
)
    requires
        knows_more(a, b),
    ensures
        settles(m.tree_reflowed(a, display, active), m.tree_reflowed(b, display, active)),
{
    reveal(Model::tree_reflowed);
    let lifted = m.lifted(display.id);
    match m.without_tree(display.id).waiting_tree(display.id) {
        Some(stored) => {
            same_restored_tree(lifted, a, b, stored, active);
        },
        None => {},
    }
    match m.starting_tree(a, display.id, active) {
        Ok(tree) => {
            same_reshaped(lifted, a, b, tree, active, display.work_area);
            match lifted.reshaped(a, tree, active, display.work_area) {
                Ok((next, tree)) => match a.windows_spec(tree) {
                    Ok(windows) => {
                        let fresh = next.evidence_refreshed(windows, 0);
                        same_tree_saved(fresh, a, b, display.id, tree);
                        match fresh.tree_saved(a, display.id, tree) {
                            Ok(saved) => {
                                same_tree_laid_out(saved, a, b, display, tree);
                            },
                            Err(_) => {},
                        }
                    },
                    Err(_) => {},
                },
                Err(_) => {},
            }
        },
        Err(_) => {},
    }
}

proof fn same_trees_reflowed(m: Model, a: Answers, b: Answers, base: Model, i: int)
    requires
        knows_more(a, b),
    ensures
        settles(m.trees_reflowed(a, base, i), m.trees_reflowed(b, base, i)),
    decreases base.displays.len() - i,
{
    if i < base.displays.len() {
        let display = base.displays[i];
        if m.defers(display.id) {
            same_trees_reflowed(m.deferred_for(display.id), a, b, base, i + 1);
        } else {
            same_tree_reflowed(m, a, b, display, base.active_on(display.id));
            match m.tree_reflowed(a, display, base.active_on(display.id)) {
                Ok(next) => {
                    same_trees_reflowed(next, a, b, base, i + 1);
                },
                Err(_) => {},
            }
        }
    }
}

proof fn same_persisted(m: Model, a: Answers, b: Answers, i: int)
    requires
        knows_more(a, b),
    ensures
        settles(m.persisted(a, i), m.persisted(b, i)),
{
    reveal(Model::persisted);
}

proof fn same_workspaces_persisted(m: Model, a: Answers, b: Answers, i: int)
    requires
        knows_more(a, b),
    ensures
        settles(m.workspaces_persisted(a, i), m.workspaces_persisted(b, i)),
    decreases m.workspaces.list.len() - i,
{
    if 0 <= i < m.workspaces.list.len() {
        same_persisted(m, a, b, i);
        same_workspaces_persisted(m, a, b, i + 1);
        match m.persisted(a, i) {
            Ok(persisted) => {
                let next = Model {
                    workspaces: m.workspaces.with(
                        i,
                        crate::workspace::Workspace {
                            saved: Some(persisted),
                            ..m.workspaces.list[i]
                        },
                    ),
                    ..m
                }.intent(crate::state::Intent::SaveWorkspace(persisted));
                same_workspaces_persisted(next, a, b, i + 1);
            },
            Err(_) => {},
        }
    }
}

proof fn same_tiled(
    m: Model,
    a: Answers,
    b: Answers,
    windows: Seq<WindowId>,
    cells: Seq<Rect>,
    k: int,
    display_id: DisplayId,
    area: Rect,
)
    requires
        knows_more(a, b),
    ensures
        settles(
            m.tiled(a, windows, cells, k, display_id, area),
            m.tiled(b, windows, cells, k, display_id, area),
        ),
    decreases windows.len() - k,
{
    if k < windows.len() && k < cells.len() {
        match a.gapped_spec(cells[k], area, m.config.gaps) {
            Ok(bounds) => {
                same_tiled(
                    m.arranged_at(windows[k], display_id, bounds),
                    a,
                    b,
                    windows,
                    cells,
                    k + 1,
                    display_id,
                    area,
                );
            },
            Err(_) => {},
        }
    }
}

proof fn same_gridded(m: Model, a: Answers, b: Answers, base: Model, i: int)
    requires
        knows_more(a, b),
    ensures
        settles(m.gridded(a, base, i), m.gridded(b, base, i)),
    decreases base.displays.len() - i,
{
    if i < base.displays.len() {
        let display = base.displays[i];
        if m.defers(display.id) {
            same_gridded(m.deferred_for(display.id), a, b, base, i + 1);
        } else {
            let windows = base.active_on(display.id);
            match a.grid_spec(display.work_area, windows.len() as usize) {
                Ok(cells) => {
                    same_tiled(m, a, b, windows, cells, 0, display.id, display.work_area);
                    match m.tiled(a, windows, cells, 0, display.id, display.work_area) {
                        Ok(next) => {
                            same_gridded(next, a, b, base, i + 1);
                        },
                        Err(_) => {},
                    }
                },
                Err(_) => {},
            }
        }
    }
}

proof fn same_arranged(m: Model, a: Answers, b: Answers)
    requires
        knows_more(a, b),
    ensures
        settles(m.arranged(a), m.arranged(b)),
        settles(m.arranged_revised(a), m.arranged_revised(b)),
{
    reveal(Model::arranged);
    let grid = m.unstructured().refreshed();
    same_gridded(grid, a, b, grid, 0);
    let base = m.trees_on_connected().refreshed();
    same_trees_reflowed(base, a, b, base, 0);
    match base.trees_reflowed(a, base, 0) {
        Ok(next) => {
            same_workspaces_persisted(next.evidence_kept(), a, b, 0);
        },
        Err(_) => {},
    }
}

proof fn same_arranged_closed(m: Model, a: Answers, b: Answers)
    requires
        knows_more(a, b),
    ensures
        settles(m.arranged_closed(a), m.arranged_closed(b)),
{
    same_arranged(m, a, b);
    match m.arranged(a) {
        Ok(next) => {
            same_scope_closed(next.revised(), a, b);
        },
        Err(_) => {},
    }
}

// Plans.

proof fn same_delete_plan(m: Model, a: Answers, b: Answers, request: RequestedName)
    requires
        knows_more(a, b),
    ensures
        settles(m.delete_plan(a, request), m.delete_plan(b, request)),
{
}

proof fn same_celled(
    m: Model,
    a: Answers,
    b: Answers,
    windows: Seq<WindowId>,
    cells: Seq<Rect>,
    area: Rect,
    k: int,
    done: Seq<PlannedPlacement>,
)
    requires
        knows_more(a, b),
    ensures
        settles(
            m.celled(a, windows, cells, area, k, done),
            m.celled(b, windows, cells, area, k, done),
        ),
    decreases windows.len() - k,
{
    if k < windows.len() && k < cells.len() {
        match a.gapped_spec(cells[k], area, m.config.gaps) {
            Ok(bounds) => {
                same_celled(
                    m,
                    a,
                    b,
                    windows,
                    cells,
                    area,
                    k + 1,
                    done.push(PlannedPlacement { window_id: windows[k], bounds }),
                );
            },
            Err(_) => {},
        }
    }
}

proof fn same_layout_plan(m: Model, a: Answers, b: Answers, name: String)
    requires
        knows_more(a, b),
    ensures
        settles(m.layout_plan(a, name), m.layout_plan(b, name)),
{
    reveal(Model::layout_plan);
    match (m.config.layout(name@), m.layout_display()) {
        (Some(cells), Some(display_id)) => match crate::topology::work_area(
            m.displays,
            display_id,
        ) {
            Some(area) => {
                same_layout_on(m, a, b, cells, display_id, area);
            },
            None => {},
        },
        _ => {},
    }
}

proof fn same_layout_on(
    m: Model,
    a: Answers,
    b: Answers,
    cells: LayoutCells,
    display_id: DisplayId,
    area: Rect,
)
    requires
        knows_more(a, b),
    ensures
        settles(m.layout_on(a, cells, display_id, area), m.layout_on(b, cells, display_id, area)),
{
    match a.layout_spec(area, cells) {
        Ok(rects) => {
            same_celled(m, a, b, m.window_order(display_id), rects, area, 0, Seq::empty());
        },
        Err(_) => {},
    }
}

proof fn same_nearest_in(
    m: Model,
    a: Answers,
    b: Answers,
    direction: CardinalDirection,
    focused: WindowId,
    from: Rect,
    entries: Seq<Listed>,
    i: int,
    best: Option<Neighbor>,
)
    requires
        knows_more(a, b),
    ensures
        settles(
            m.nearest_in(a, direction, focused, from, entries, i, best),
            m.nearest_in(b, direction, focused, from, entries, i, best),
        ),
    decreases entries.len() - i,
{
    if i < entries.len() {
        let window_id = entries[i].window_id;
        same_nearest_in(m, a, b, direction, focused, from, entries, i + 1, best);
        match crate::direction::offset(direction, from, m.windows[window_id.0].bounds) {
            Some((along, across)) => {
                same_nearest_in(
                    m,
                    a,
                    b,
                    direction,
                    focused,
                    from,
                    entries,
                    i + 1,
                    crate::direction::nearer(best, Neighbor { window_id, along, across }),
                );
            },
            None => {},
        }
    }
}

proof fn same_neighbor(m: Model, a: Answers, b: Answers, direction: CardinalDirection)
    requires
        knows_more(a, b),
    ensures
        settles(m.neighbor(a, direction), m.neighbor(b, direction)),
{
    reveal(Model::neighbor);
    match m.focused_window {
        Some(focused) => {
            let display_id = m.inventory[focused.0].window.display_id;
            same_nearest_in(
                m,
                a,
                b,
                direction,
                focused,
                m.windows[focused.0].bounds,
                m.order.filter(Model::on_display(display_id)),
                0,
                None,
            );
        },
        None => {},
    }
}

proof fn same_swap_plan(m: Model, a: Answers, b: Answers, direction: CardinalDirection)
    requires
        knows_more(a, b),
    ensures
        settles(m.swap_plan(a, direction), m.swap_plan(b, direction)),
{
    reveal(Model::swap_plan);
    same_neighbor(m, a, b, direction);
}

proof fn same_resized_by(
    m: Model,
    a: Answers,
    b: Answers,
    direction: CardinalDirection,
    display_id: DisplayId,
    window_id: WindowId,
    area: Rect,
    tree: ContainerTree,
    current: TreePlan,
    points: nat,
)
    requires
        knows_more(a, b),
    ensures
        settles(
            m.resized_by(a, direction, display_id, window_id, area, tree, current, points),
            m.resized_by(b, direction, display_id, window_id, area, tree, current, points),
        ),
    decreases points,
{
    if points > 0 {
        same_resized_by(
            m,
            a,
            b,
            direction,
            display_id,
            window_id,
            area,
            tree,
            current,
            (points - 1) as nat,
        );
    }
}

proof fn same_resize_plan(m: Model, a: Answers, b: Answers, direction: CardinalDirection)
    requires
        knows_more(a, b),
    ensures
        settles(m.resize_plan(a, direction), m.resize_plan(b, direction)),
{
    reveal(Model::resize_plan);
    match m.focused_home() {
        Some((window_id, display_id)) => match crate::topology::work_area(m.displays, display_id) {
            Some(area) => {
                let tree = m.trees[display_id.0];
                match m.tree_plan(a, tree, area) {
                    Ok(current) => {
                        same_resized_by(
                            m,
                            a,
                            b,
                            direction,
                            display_id,
                            window_id,
                            area,
                            tree,
                            current,
                            crate::direction::TREE_RESIZE_STEP_PERCENT as nat,
                        );
                    },
                    Err(_) => {},
                }
            },
            None => {},
        },
        None => {},
    }
}

proof fn same_removal_plan(
    m: Model,
    a: Answers,
    b: Answers,
    display_id: DisplayId,
    position: u64,
)
    requires
        knows_more(a, b),
    ensures
        settles(
            m.removal_plan(a, display_id, position),
            m.removal_plan(b, display_id, position),
        ),
{
    reveal(Model::removal_plan);
}

proof fn same_members_matched(
    m: Model,
    a: Answers,
    b: Answers,
    members: Seq<UndoMember>,
    open: Seq<Candidate>,
    i: int,
    done: Seq<UndoTargetOutcome>,
)
    requires
        knows_more(a, b),
    ensures
        settles(
            m.members_matched(a, members, open, i, done),
            m.members_matched(b, members, open, i, done),
        ),
    decreases members.len() - i,
{
    if i < members.len() {
        match a.outcome_spec(members[i].evidence, open) {
            Ok(outcome) => {
                same_members_matched(
                    m,
                    a,
                    b,
                    members,
                    open,
                    i + 1,
                    done.push(
                        UndoTargetOutcome {
                            ordinal: members[i].ordinal,
                            application: members[i].evidence.application_id.0,
                            outcome,
                        },
                    ),
                );
            },
            Err(_) => {},
        }
    }
}

proof fn same_leaves_matched(
    m: Model,
    a: Answers,
    b: Answers,
    leaves: Seq<Occupant>,
    open: Seq<Candidate>,
    before: nat,
    i: int,
    done: Seq<UndoTargetOutcome>,
)
    requires
        knows_more(a, b),
    ensures
        settles(
            m.leaves_matched(a, leaves, open, before, i, done),
            m.leaves_matched(b, leaves, open, before, i, done),
        ),
    decreases leaves.len() - i,
{
    if i < leaves.len() {
        match leaves[i] {
            Occupant::Dormant(_) => {
                same_leaves_matched(m, a, b, leaves, open, before, i + 1, done);
            },
            Occupant::Live(evidence) => match a.outcome_spec(evidence, open) {
                Ok(outcome) => {
                    same_leaves_matched(
                        m,
                        a,
                        b,
                        leaves,
                        open,
                        before,
                        i + 1,
                        done.push(
                            UndoTargetOutcome {
                                ordinal: (before + done.len()) as u32,
                                application: evidence.application_id.0,
                                outcome,
                            },
                        ),
                    );
                },
                Err(_) => {},
            },
        }
    }
}

proof fn same_structure_matched(
    m: Model,
    a: Answers,
    b: Answers,
    snapshots: Seq<UndoTreeSnapshot>,
    before: nat,
    i: int,
    done: Seq<UndoTargetOutcome>,
)
    requires
        knows_more(a, b),
    ensures
        settles(
            m.structure_matched(a, snapshots, before, i, done),
            m.structure_matched(b, snapshots, before, i, done),
        ),
    decreases snapshots.len() - i,
{
    if i < snapshots.len() {
        match crate::topology::id_of(m.displays, snapshots[i].display_fingerprint@) {
            None => {
                same_structure_matched(m, a, b, snapshots, before, i + 1, done);
            },
            Some(display_id) => match a.leaves_spec(snapshots[i].tree) {
                Ok(leaves) => {
                    let open = m.candidates(m.active_tiled(display_id));
                    same_leaves_matched(m, a, b, leaves, open, before, 0, done);
                    match m.leaves_matched(a, leaves, open, before, 0, done) {
                        Ok(next) => {
                            same_structure_matched(m, a, b, snapshots, before, i + 1, next);
                        },
                        Err(_) => {},
                    }
                },
                Err(_) => {},
            },
        }
    }
}

proof fn same_reversal(m: Model, a: Answers, b: Answers)
    requires
        knows_more(a, b),
    ensures
        settles(m.reversal(a), m.reversal(b)),
{
    reveal(Model::reversal);
    match m.newest_undo {
        Some(transaction) => {
            let open = m.candidates(m.all_managed());
            same_members_matched(m, a, b, transaction.members, open, 0, Seq::empty());
            match m.members_matched(a, transaction.members, open, 0, Seq::empty()) {
                Ok(targets) => {
                    same_structure_matched(
                        m,
                        a,
                        b,
                        transaction.prior_trees,
                        targets.len(),
                        0,
                        Seq::empty(),
                    );
                },
                Err(_) => {},
            }
        },
        None => {},
    }
}

// Switches.

proof fn same_displayed_now(
    m: Model,
    a: Answers,
    b: Answers,
    name: WorkspaceName,
    display_id: DisplayId,
    replaces: bool,
)
    requires
        knows_more(a, b),
    ensures
        settles(
            m.displayed_now(a, name, display_id, replaces),
            m.displayed_now(b, name, display_id, replaces),
        ),
{
    reveal(Model::displayed_now);
    let stashed = if replaces {
        m.tree_stashed(display_id)
    } else {
        m
    };
    let shown = Model {
        focused_display: Some(display_id),
        ..stashed.name_shown(name, display_id)
    };
    same_arranged(shown, a, b);
    match shown.arranged(a) {
        Ok(next) => {
            same_workspaces_persisted(next, a, b, 0);
        },
        Err(_) => {},
    }
}

proof fn same_committed(m: Model, a: Answers, b: Answers, switch: Switching)
    requires
        knows_more(a, b),
    ensures
        settles(m.committed(a, switch), m.committed(b, switch)),
{
    let scoped = m.unswitched().commit_scoped(switch);
    same_displayed_now(
        scoped,
        a,
        b,
        switch.target,
        switch.display_id,
        switch.outgoing is Some,
    );
    match scoped.displayed_now(a, switch.target, switch.display_id, switch.outgoing is Some) {
        Ok(shown) => {
            reveal(Model::commit_closed);
            same_scope_closed(shown, a, b);
        },
        Err(_) => {},
    }
}

proof fn same_switch_advanced(m: Model, a: Answers, b: Answers)
    requires
        knows_more(a, b),
    ensures
        settles(m.switch_advanced(a), m.switch_advanced(b)),
{
    match m.switch {
        Some(switch) => {
            same_committed(m.unswitched(), a, b, switch);
        },
        None => {},
    }
}

proof fn same_window_settled(
    m: Model,
    a: Answers,
    b: Answers,
    window_id: WindowId,
    failure: Option<SwitchFailure>,
)
    requires
        knows_more(a, b),
    ensures
        settles(m.window_settled(a, window_id, failure), m.window_settled(b, window_id, failure)),
{
    reveal(Model::window_settled);
    assert forall|next: Model| settles(
        #[trigger] next.switch_advanced(a),
        next.switch_advanced(b),
    ) by {
        same_switch_advanced(next, a, b);
    }
}

proof fn same_switch_begun(
    m: Model,
    a: Answers,
    b: Answers,
    plan: SwitchPlan,
    reverses_undo: Option<UndoTransactionId>,
)
    requires
        knows_more(a, b),
    ensures
        settles(m.switch_begun(a, plan, reverses_undo), m.switch_begun(b, plan, reverses_undo)),
{
    reveal(Model::switch_begun);
    assert forall|next: Model| settles(
        #[trigger] next.switch_advanced(a),
        next.switch_advanced(b),
    ) by {
        same_switch_advanced(next, a, b);
    }
}

// Observing.

proof fn same_windows_migrated(
    m: Model,
    a: Answers,
    b: Answers,
    survivors: Seq<Display>,
    ids: Seq<isize>,
    i: int,
)
    requires
        knows_more(a, b),
    ensures
        settles(
            m.windows_migrated(a, survivors, ids, i),
            m.windows_migrated(b, survivors, ids, i),
        ),
    decreases ids.len() - i,
{
    if i < ids.len() {
        match m.window_migrated(a, survivors, ids[i]) {
            Ok(next) => {
                same_windows_migrated(next, a, b, survivors, ids, i + 1);
            },
            Err(_) => {},
        }
    }
}

proof fn same_orphans_migrated(m: Model, a: Answers, b: Answers, survivors: Seq<Display>)
    requires
        knows_more(a, b),
    ensures
        settles(m.orphans_migrated(a, survivors), m.orphans_migrated(b, survivors)),
{
    reveal(Model::orphans_migrated);
    same_windows_migrated(m, a, b, survivors, sorted(m.windows.dom()), 0);
}

proof fn same_resolved(
    m: Model,
    a: Answers,
    b: Answers,
    seen: Seq<Window>,
    i: int,
    next: Map<isize, ManagedWindow>,
    targets: Seq<RuleTarget>,
)
    requires
        knows_more(a, b),
    ensures
        settles(m.resolved(a, seen, i, next, targets), m.resolved(b, seen, i, next, targets)),
    decreases seen.len() - i,
{
    if i < seen.len() {
        let window = seen[i];
        match a.verdict_spec(m.rules, window) {
            Err(_) => {},
            Ok(verdict) => {
                if verdict.manage == crate::window::ManageAction::Exclude {
                    same_resolved(m, a, b, seen, i + 1, next, targets);
                } else {
                    let wanted = match verdict.workspace {
                        Some(request) => if m.inventory.contains_key(window.id.0) {
                            targets
                        } else {
                            targets.push(
                                RuleTarget {
                                    window_id: window.id,
                                    rule_id: verdict.rule_id,
                                    request,
                                },
                            )
                        },
                        None => targets,
                    };
                    let managed = ManagedWindow {
                        window,
                        action: verdict.manage,
                        eligibility: m.observed_eligibility(window, verdict.manage),
                    };
                    same_resolved(
                        m.tracking(window),
                        a,
                        b,
                        seen,
                        i + 1,
                        next.insert(window.id.0, managed),
                        wanted,
                    );
                }
            },
        }
    }
}

proof fn same_all_departed(m: Model, a: Answers, b: Answers, ids: Seq<isize>, i: int)
    requires
        knows_more(a, b),
    ensures
        settles(m.all_departed(a, ids, i), m.all_departed(b, ids, i)),
    decreases ids.len() - i,
{
    if i < ids.len() {
        match m.departed_from_stash(a, ids[i]) {
            Ok(next) => {
                same_all_departed(next, a, b, ids, i + 1);
            },
            Err(_) => {},
        }
    }
}

proof fn same_observed(m: Model, a: Answers, b: Answers, windows: Seq<Window>)
    requires
        knows_more(a, b),
    ensures
        settles(m.observed(a, windows), m.observed(b, windows)),
{
    reveal(Model::observed);
    reveal(Model::inventory_replaced);
    same_resolved(m, a, b, windows, 0, Map::empty(), Seq::empty());
    match m.resolved(a, windows, 0, Map::empty(), Seq::empty()) {
        Ok((seen, next, targets)) => {
            let departed = sorted(seen.inventory.dom()).filter(Model::outside(next.dom()));
            same_all_departed(seen.tracking_kept(next.dom()), a, b, departed, 0);
        },
        Err(_) => {},
    }
}

// Events.

/// What most events end with.
proof fn same_endings(a: Answers, b: Answers)
    requires
        knows_more(a, b),
    ensures
        forall|m: Model| settles(#[trigger] m.arranged(a), m.arranged(b)),
        forall|m: Model| settles(#[trigger] m.arranged_revised(a), m.arranged_revised(b)),
        forall|m: Model| settles(#[trigger] m.arranged_closed(a), m.arranged_closed(b)),
        forall|m: Model| settles(#[trigger] m.scope_closed(a), m.scope_closed(b)),
        forall|m: Model, window_id: WindowId|
            settles(#[trigger] m.arranged_placing(a, window_id), m.arranged_placing(b, window_id)),
        forall|m: Model|
            settles(#[trigger] m.workspaces_persisted(a, 0), m.workspaces_persisted(b, 0)),
{
    assert forall|m: Model| settles(#[trigger] m.arranged(a), m.arranged(b)) by {
        same_arranged(m, a, b);
    }
    assert forall|m: Model| settles(#[trigger] m.arranged_revised(a), m.arranged_revised(b)) by {
        same_arranged(m, a, b);
    }
    assert forall|m: Model| settles(#[trigger] m.arranged_closed(a), m.arranged_closed(b)) by {
        same_arranged_closed(m, a, b);
    }
    assert forall|m: Model| settles(#[trigger] m.scope_closed(a), m.scope_closed(b)) by {
        same_scope_closed(m, a, b);
    }
    assert forall|m: Model, window_id: WindowId| settles(
        #[trigger] m.arranged_placing(a, window_id),
        m.arranged_placing(b, window_id),
    ) by {
        reveal(Model::arranged_placing);
        same_arranged(m, a, b);
    }
    assert forall|m: Model| settles(
        #[trigger] m.workspaces_persisted(a, 0),
        m.workspaces_persisted(b, 0),
    ) by {
        same_workspaces_persisted(m, a, b, 0);
    }
}

proof fn same_placing(m: Model, event: Event, a: Answers, b: Answers)
    requires
        knows_more(a, b),
        event is WindowPlaced || event is WindowRestoreRequested
            || event is WindowThrowToDisplayRequested || event is ZoneSnapRequested
            || event is InteractivePlacementEnded || event is PlacementRejected,
    ensures
        settles(step(m, event, a), step(m, event, b)),
{
    same_endings(a, b);
    match event {
        Event::WindowPlaced { .. } => {
            reveal(Model::on_window_placed);
        },
        Event::WindowRestoreRequested { .. } => {
            reveal(Model::on_restore_requested);
        },
        Event::WindowThrowToDisplayRequested { window_id, direction } => {
            same_throw(Model { undo_scope: None, ..m }, a, b, window_id, direction);
        },
        Event::ZoneSnapRequested { .. } => {
            reveal(Model::on_zone_snap);
            reveal(Model::snapped);
        },
        Event::InteractivePlacementEnded { .. } => {
            reveal(Model::on_drag_ended);
        },
        Event::PlacementRejected { .. } => {
            reveal(Model::on_rejected);
        },
        _ => {},
    }
}

proof fn same_throw(
    m: Model,
    a: Answers,
    b: Answers,
    window_id: WindowId,
    direction: DisplayDirection,
)
    requires
        knows_more(a, b),
    ensures
        settles(m.on_throw(a, window_id, direction), m.on_throw(b, window_id, direction)),
{
    same_endings(a, b);
    assert forall|to: DisplayId, bounds: Rect| settles(
        #[trigger] m.thrown(a, window_id, direction, to, bounds),
        m.thrown(b, window_id, direction, to, bounds),
    ) by {
        reveal(Model::thrown);
    }
    reveal(Model::on_throw);
}

proof fn same_layout(m: Model, name: String, a: Answers, b: Answers)
    requires
        knows_more(a, b),
    ensures
        settles(m.on_layout(a, name), m.on_layout(b, name)),
{
    same_endings(a, b);
    same_layout_plan(m, a, b, name);
    reveal(Model::on_layout);
    reveal(Model::layout_finished);
}

proof fn same_directions(m: Model, event: Event, a: Answers, b: Answers)
    requires
        knows_more(a, b),
        event is DirectionalFocusRequested || event is DirectionalSwapRequested
            || event is TreeResizeRequested || event is TreePositionRemoveRequested,
    ensures
        settles(step(m, event, a), step(m, event, b)),
{
    let before = Model { undo_scope: None, ..m };
    same_endings(a, b);
    match event {
        Event::DirectionalFocusRequested { direction } => {
            reveal(Model::on_directional_focus);
            same_neighbor(before, a, b, direction);
        },
        Event::DirectionalSwapRequested { direction } => {
            reveal(Model::on_swap);
            reveal(Model::leaves_swapped);
            same_swap_plan(before, a, b, direction);
        },
        Event::TreeResizeRequested { direction } => {
            reveal(Model::on_resize);
            same_resize_plan(before, a, b, direction);
        },
        Event::TreePositionRemoveRequested { display_id, position } => {
            reveal(Model::on_remove_position);
            same_removal_plan(before, a, b, display_id, position);
        },
        _ => {},
    }
}

proof fn same_toggles(m: Model, event: Event, a: Answers, b: Answers)
    requires
        knows_more(a, b),
        event is ResumeRequested || event is ToggleAutomaticTilingRequested
            || event is ToggleFloatingRequested || event is ContainerTreesLoaded,
    ensures
        settles(step(m, event, a), step(m, event, b)),
{
    same_endings(a, b);
    reveal(Model::on_resume);
    reveal(Model::on_toggle_tiling);
    reveal(Model::on_toggle_floating);
    reveal(Model::on_trees_loaded);
}

proof fn same_observations(m: Model, event: Event, a: Answers, b: Answers)
    requires
        knows_more(a, b),
        event is WindowsObserved || event is RulesChanged
            || event is RearrangeReconciliationComplete,
    ensures
        settles(step(m, event, a), step(m, event, b)),
{
    same_endings(a, b);
    assert forall|next: Model, windows: Seq<Window>| settles(
        #[trigger] next.observed(a, windows),
        next.observed(b, windows),
    ) by {
        same_observed(next, a, b, windows);
    }
    reveal(Model::on_observed);
    reveal(Model::on_rules);
    reveal(Model::on_rearranged);
}

proof fn same_assignment_reconciled(m: Model, a: Answers, b: Answers)
    requires
        knows_more(a, b),
    ensures
        settles(m.assignment_reconciled(a), m.assignment_reconciled(b)),
{
    same_endings(a, b);
    reveal(Model::assignment_reconciled);
}

proof fn same_surroundings(m: Model, event: Event, a: Answers, b: Answers)
    requires
        knows_more(a, b),
        event is ConfigChanged || event is DisplayTopologyChanged || event is WorkspacesLoaded,
    ensures
        settles(step(m, event, a), step(m, event, b)),
{
    assert forall|next: Model| settles(
        #[trigger] next.assignment_reconciled(a),
        next.assignment_reconciled(b),
    ) by {
        same_assignment_reconciled(next, a, b);
    }
    assert forall|next: Model, survivors: Seq<Display>| settles(
        #[trigger] next.orphans_migrated(a, survivors),
        next.orphans_migrated(b, survivors),
    ) by {
        same_orphans_migrated(next, a, b, survivors);
    }
    reveal(Model::on_config);
    reveal(Model::on_topology);
    reveal(Model::on_workspaces_loaded);
}

proof fn same_wake(
    m: Model,
    a: Answers,
    b: Answers,
    displays: Seq<Display>,
    topology: String,
    windows: Option<Seq<Window>>,
)
    requires
        knows_more(a, b),
    ensures
        settles(
            m.on_wake(a, displays, topology, windows),
            m.on_wake(b, displays, topology, windows),
        ),
{
    same_endings(a, b);
    reveal(Model::on_wake);
    reveal(Model::woken);
    same_orphans_migrated(m, a, b, displays);
    match (m.woken(a, displays, topology), windows) {
        (Ok(awake), Some(windows)) => {
            same_observed(awake.remembering(windows), a, b, windows);
        },
        _ => {},
    }
}

proof fn same_workspace_commands(m: Model, event: Event, a: Answers, b: Answers)
    requires
        knows_more(a, b),
        event is WorkspaceCreateRequested || event is WorkspaceDeleteRequested
            || event is WorkspaceFocusRequested || event is WorkspaceMoveRequested,
    ensures
        settles(step(m, event, a), step(m, event, b)),
{
    let before = Model { undo_scope: None, ..m };
    same_endings(a, b);
    match event {
        Event::WorkspaceCreateRequested { .. } => {
            reveal(Model::on_create);
        },
        Event::WorkspaceDeleteRequested { name } => {
            reveal(Model::on_delete);
            same_delete_plan(before, a, b, name);
        },
        Event::WorkspaceMoveRequested { .. } => {
            reveal(Model::on_workspace_move);
        },
        Event::WorkspaceFocusRequested { .. } => {
            reveal(Model::on_workspace_focus);
            reveal(Model::shown_without_moves);
            reveal(Model::switch_started);
            assert forall|
                next: Model,
                name: WorkspaceName,
                display_id: DisplayId,
                replaces: bool,
            | settles(
                #[trigger] next.displayed_now(a, name, display_id, replaces),
                next.displayed_now(b, name, display_id, replaces),
            ) by {
                same_displayed_now(next, a, b, name, display_id, replaces);
            }
            assert forall|
                next: Model,
                plan: SwitchPlan,
                reverses_undo: Option<UndoTransactionId>,
            | settles(
                #[trigger] next.switch_begun(a, plan, reverses_undo),
                next.switch_begun(b, plan, reverses_undo),
            ) by {
                same_switch_begun(next, a, b, plan, reverses_undo);
            }
        },
        _ => {},
    }
}

proof fn same_parking(m: Model, event: Event, a: Answers, b: Answers)
    requires
        knows_more(a, b),
        event is RecoveryEntryDurable || event is WindowParked || event is WindowParkFailed
            || event is WindowRestored || event is WindowRestoreFailed,
    ensures
        settles(step(m, event, a), step(m, event, b)),
{
    assert forall|next: Model| settles(
        #[trigger] next.switch_advanced(a),
        next.switch_advanced(b),
    ) by {
        same_switch_advanced(next, a, b);
    }
    assert forall|next: Model, window_id: WindowId, failure: Option<SwitchFailure>| settles(
        #[trigger] next.window_settled(a, window_id, failure),
        next.window_settled(b, window_id, failure),
    ) by {
        same_window_settled(next, a, b, window_id, failure);
    }
    reveal(Model::on_entry_durable);
    reveal(Model::on_parked);
    reveal(Model::on_park_failed);
    reveal(Model::on_restored);
    reveal(Model::on_restore_failed);
}

proof fn same_structure_restored(
    m: Model,
    a: Answers,
    b: Answers,
    snapshots: Seq<UndoTreeSnapshot>,
    i: int,
    any: bool,
)
    requires
        knows_more(a, b),
    ensures
        settles(
            m.structure_restored(a, snapshots, i, any),
            m.structure_restored(b, snapshots, i, any),
        ),
    decreases snapshots.len() - i,
{
    if i < snapshots.len() {
        match crate::topology::id_of(m.displays, snapshots[i].display_fingerprint@) {
            None => {
                same_structure_restored(m, a, b, snapshots, i + 1, any);
            },
            Some(display_id) => {
                same_restored_tree(m, a, b, snapshots[i].tree, m.active_tiled(display_id));
                match m.restored_tree(a, snapshots[i].tree, m.active_tiled(display_id)) {
                    Ok(tree) => {
                        same_structure_restored(
                            Model { trees: m.trees.insert(display_id.0, tree), ..m },
                            a,
                            b,
                            snapshots,
                            i + 1,
                            true,
                        );
                    },
                    Err(_) => {},
                }
            },
        }
    }
}

proof fn same_undo(m: Model, a: Answers, b: Answers)
    requires
        knows_more(a, b),
    ensures
        settles(m.on_undo(a), m.on_undo(b)),
{
    reveal(Model::on_undo);
    reveal(Model::reversed);
    reveal(Model::windows_reversed);
    same_endings(a, b);
    same_reversal(m, a, b);
    match m.newest_undo {
        Some(transaction) => {
            same_structure_restored(m, a, b, transaction.prior_trees, 0, false);
            match m.structure_restored(a, transaction.prior_trees, 0, false) {
                Ok((structured, _)) => {
                    match structured.switch_back(transaction.prior_assignments, 0) {
                        Ok(Some(plan)) => {
                            same_switch_begun(structured, a, b, plan, Some(transaction.id));
                        },
                        _ => {},
                    }
                },
                Err(_) => {},
            }
        },
        None => {},
    }
}

/// What is settled stays settled: a step that came to a result with some
/// answers comes to the same result with more. So the answers to a step may be
/// found one question at a time, in any order, and never have to be taken
/// back.
pub proof fn law_more_answers_change_no_result(before: Model, event: Event, a: Answers, b: Answers)
    requires
        knows_more(a, b),
    ensures
        settles(step(before, event, a), step(before, event, b)),
{
    let m = Model { undo_scope: None, ..before };
    match event {
        Event::SavedLayoutApplyRequested { name } => same_layout(m, name, a, b),
        Event::UndoRequested => same_undo(m, a, b),
        Event::WakeReconciliation { displays, topology, windows } => same_wake(
            m,
            a,
            b,
            displays@,
            topology,
            match windows {
                Some(list) => Some(list@),
                None => None,
            },
        ),
        _ => {
            if event is WindowPlaced || event is WindowRestoreRequested
                || event is WindowThrowToDisplayRequested || event is ZoneSnapRequested
                || event is InteractivePlacementEnded || event is PlacementRejected {
                same_placing(before, event, a, b);
            } else if event is DirectionalFocusRequested || event is DirectionalSwapRequested
                || event is TreeResizeRequested || event is TreePositionRemoveRequested {
                same_directions(before, event, a, b);
            } else if event is ResumeRequested || event is ToggleAutomaticTilingRequested
                || event is ToggleFloatingRequested || event is ContainerTreesLoaded {
                same_toggles(before, event, a, b);
            } else if event is WindowsObserved || event is RulesChanged
                || event is RearrangeReconciliationComplete {
                same_observations(before, event, a, b);
            } else if event is ConfigChanged || event is DisplayTopologyChanged
                || event is WorkspacesLoaded {
                same_surroundings(before, event, a, b);
            } else if event is WorkspaceCreateRequested || event is WorkspaceDeleteRequested
                || event is WorkspaceFocusRequested || event is WorkspaceMoveRequested {
                same_workspace_commands(before, event, a, b);
            } else if event is RecoveryEntryDurable || event is WindowParked
                || event is WindowParkFailed || event is WindowRestored
                || event is WindowRestoreFailed {
                same_parking(before, event, a, b);
            }
        },
    }
}

} // verus!
