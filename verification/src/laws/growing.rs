//! How a reflow treats a display's tree, said of what the tree library is
//! asked.

use vstd::prelude::*;

verus! {

use crate::answers::{
    Answer, Answers, Candidate, ContainerTree, DormantPosition, DormantSlot, LeafFate, MatchOutcome,
    MinimumSize, Occupant, PlannedPlacement, Query, TreeChange,
};
use crate::geometry::{DisplayId, Rect, SplitAxis, WindowId};
use crate::laws::belonging::{lemma_shown, shown_at};
use crate::laws::filling::{
    all_told, is_at, lemma_told_arranged_at, lemma_told_extends, told_since,
};
use crate::laws::frame::extends;
use crate::laws::hotplug::{called, lemma_called};
use crate::laws::reflow::{
    handles_distinct, lemma_evidence_refreshed_only, lemma_interactive_kept, lemma_laid_out_mine,
    lemma_planned_later, lemma_shed_only, tree_planned,
};
use crate::state::{Intent, Model};
use crate::window::Display;

/// The tree library's answer to a change, where it made one.
pub open spec fn changed_to(a: Answers, tree: ContainerTree, change: TreeChange, next: ContainerTree) -> bool {
    match a.look_up(Query::Change { tree, change }) {
        Some(Answer::Tree(Some(made))) => next == made,
        Some(Answer::Tree(None)) => next == tree,
        _ => false,
    }
}

/// What a window that is no longer arranged does to its tree.
pub open spec fn parting(m: Model, a: Answers, window_id: WindowId) -> TreeChange {
    let id = window_id.0;
    if !m.inventory.contains_key(id) && m.leaf_evidence.contains_key(id) {
        TreeChange::MakeDormant {
            window_id,
            dormant: DormantPosition { evidence: m.leaf_evidence[id], since_unix: a.now_unix },
        }
    } else {
        TreeChange::Remove { window_id }
    }
}

/// A window that is no longer arranged leaves its tree: one that closed leaves
/// its position dormant under what recognises it, from now on; one that is
/// still open, or that nothing would recognise, is taken out.
pub proof fn law_a_departed_window_leaves_a_dormant_position(
    m: Model,
    a: Answers,
    departed: Seq<WindowId>,
    i: int,
    tree: ContainerTree,
)
    requires
        0 <= i < departed.len(),
    ensures
        match m.shed(a, departed, i, tree) {
            Ok(result) => {
                exists|next: ContainerTree| #[trigger]
                    changed_to(a, tree, parting(m, a, departed[i]), next) && (Model {
                        leaf_evidence: m.leaf_evidence.remove(departed[i].0),
                        ..m
                    }).shed(a, departed, i + 1, next) == Ok::<(Model, ContainerTree), Query>(result)
            },
            Err(_) => true,
        },
{
    let change = parting(m, a, departed[i]);
    match a.changed_spec(tree, change) {
        Ok(next) => {
            assert(changed_to(a, tree, change, next));
        },
        Err(_) => {},
    }
}

/// A dormant position is offered to the windows that have no place yet, and
/// only a confident match takes it; that window is then no longer without one.
/// An uncertain match leaves the position dormant.
pub proof fn law_only_a_confident_match_takes_a_position_back(
    m: Model,
    a: Answers,
    slots: Seq<DormantSlot>,
    i: int,
    tree: ContainerTree,
    unplaced: Seq<WindowId>,
)
    requires
        0 <= i < slots.len(),
    ensures
        match m.reclaimed(a, slots, i, tree, unplaced) {
            Ok(result) => match a.look_up(
                Query::Match {
                    evidence: slots[i].dormant.evidence,
                    candidates: m.candidates(unplaced),
                },
            ) {
                Some(Answer::Outcome(MatchOutcome::Confident { window_id })) => match a.look_up(
                    Query::Change {
                        tree,
                        change: TreeChange::Reclaim { position: slots[i].position, window_id },
                    },
                ) {
                    Some(Answer::Tree(Some(next))) => m.reclaimed(
                        a,
                        slots,
                        i + 1,
                        next,
                        unplaced.filter(|other: WindowId| other != window_id),
                    ) == Ok::<(ContainerTree, Seq<WindowId>), Query>(result),
                    Some(Answer::Tree(None)) => m.reclaimed(a, slots, i + 1, tree, unplaced)
                        == Ok::<(ContainerTree, Seq<WindowId>), Query>(result),
                    _ => false,
                },
                Some(Answer::Outcome(_)) => m.reclaimed(a, slots, i + 1, tree, unplaced) == Ok::<
                    (ContainerTree, Seq<WindowId>),
                    Query,
                >(result),
                _ => false,
            },
            Err(_) => true,
        },
{
    match a.outcome_spec(slots[i].dormant.evidence, m.candidates(unplaced)) {
        Ok(MatchOutcome::Confident { window_id }) => {
            assert(crate::parking::other_than(window_id) =~= (|other: WindowId| other
                != window_id));
        },
        _ => {},
    }
}

/// A new window goes first into an empty tree; beside a tree of nothing but
/// dormant positions, along the longer side of the work area; and otherwise
/// where the insertion rule puts it in that work area, the focused window
/// first.
pub proof fn law_where_a_new_window_goes(
    m: Model,
    a: Answers,
    window_id: WindowId,
    tree: ContainerTree,
    area: Rect,
)
    ensures
        match m.grown_by(a, window_id, tree, area) {
            Ok(grown) => match a.look_up(
                Query::Change { tree, change: TreeChange::InsertFirst { window_id } },
            ) {
                Some(Answer::Tree(Some(next))) => grown == next,
                Some(Answer::Tree(None)) => match a.look_up(Query::Shape { tree }) {
                    Some(Answer::Shape(shape)) => if shape.windows@.len() == 0 {
                        changed_to(
                            a,
                            tree,
                            TreeChange::SplitRoot {
                                axis: if area.width >= area.height {
                                    SplitAxis::Horizontal
                                } else {
                                    SplitAxis::Vertical
                                },
                                window_id,
                            },
                            grown,
                        )
                    } else {
                        match a.look_up(
                            Query::Insertion { tree, area, focused: m.focused_window },
                        ) {
                            Some(Answer::Insertion(Some(insertion))) => changed_to(
                                a,
                                tree,
                                TreeChange::SplitLeaf {
                                    target: insertion.target,
                                    axis: insertion.axis,
                                    window_id,
                                },
                                grown,
                            ),
                            Some(Answer::Insertion(None)) => grown == tree,
                            _ => false,
                        }
                    },
                    _ => false,
                },
                _ => false,
            },
            Err(_) => true,
        },
{
}

/// What a stored leaf becomes: the window that confidently matches it and that
/// no earlier leaf claimed, and otherwise a dormant position: from when it was
/// dormant already, or from now.
pub proof fn law_what_a_stored_leaf_becomes(
    m: Model,
    a: Answers,
    leaves: Seq<Occupant>,
    open: Seq<Candidate>,
    i: int,
    claimed: Set<isize>,
    done: Seq<LeafFate>,
)
    requires
        0 <= i < leaves.len(),
    ensures
        match m.fates(a, leaves, open, i, claimed, done) {
            Ok(result) => {
                let dormant = match leaves[i] {
                    Occupant::Live(evidence) => DormantPosition { evidence, since_unix: a.now_unix },
                    Occupant::Dormant(dormant) => dormant,
                };
                match a.look_up(Query::Match { evidence: dormant.evidence, candidates: open }) {
                    Some(Answer::Outcome(outcome)) => {
                        let fresh = outcome matches MatchOutcome::Confident { window_id }
                            && !claimed.contains(window_id.0);
                        if fresh {
                            let window_id = outcome->Confident_window_id;
                            m.fates(
                                a,
                                leaves,
                                open,
                                i + 1,
                                claimed.insert(window_id.0),
                                done.push(LeafFate::Live(window_id)),
                            ) == Ok::<Seq<LeafFate>, Query>(result)
                        } else {
                            m.fates(
                                a,
                                leaves,
                                open,
                                i + 1,
                                claimed,
                                done.push(LeafFate::Dormant(dormant)),
                            ) == Ok::<Seq<LeafFate>, Query>(result)
                        }
                    },
                    _ => false,
                }
            },
            Err(_) => true,
        },
{
}

/// The smallest size the planner is given for a window is the one that was
/// observed of it.
pub proof fn law_minimums_are_what_was_observed(m: Model, windows: Seq<WindowId>, i: int)
    requires
        0 <= i < windows.len(),
    ensures
        m.minimums(windows).len() == windows.len(),
        m.minimums(windows)[i] == (MinimumSize {
            window_id: windows[i],
            size: if m.inventory.contains_key(windows[i].0) {
                m.inventory[windows[i].0].window.minimum_size
            } else {
                None
            },
        }),
{
}

// Where the windows of the trees go.

proof fn lemma_arranged_as_told(
    start: Model,
    m: Model,
    placements: Seq<PlannedPlacement>,
    i: int,
    display_id: DisplayId,
    n: int,
)
    requires
        0 <= i,
        all_told(start, m),
        forall|id: isize| (#[trigger] m.breaker_open(id)) == start.breaker_open(id),
    ensures
        ({
            let after = m.arranged_as(placements, i, display_id);
            &&& all_told(start, after)
            &&& extends(m.effects, after.effects)
            &&& forall|id: isize| (#[trigger] after.breaker_open(id)) == start.breaker_open(id)
            &&& (i <= n < placements.len() ==> is_at(
                start,
                after,
                placements[n].window_id,
                display_id,
                placements[n].bounds,
            ))
        }),
    decreases placements.len() - i,
{
    if i < placements.len() {
        let window_id = placements[i].window_id;
        let bounds = placements[i].bounds;
        let next = m.arranged_at(window_id, display_id, bounds);
        lemma_told_arranged_at(start, m, window_id, display_id, bounds);
        lemma_arranged_as_told(start, next, placements, i + 1, display_id, n);
        let after = m.arranged_as(placements, i, display_id);
        assert forall|j: int| 0 <= j < m.effects.len() implies #[trigger] after.effects[j]
            == m.effects[j] by {
            assert(next.effects[j] == m.effects[j]);
        }
        assert(m.breaker_open(window_id.0) == start.breaker_open(window_id.0));
        if n == i && !m.breaker_open(window_id.0) {
            if m.current_placement(window_id.0) == Some((display_id, bounds)) {
                assert(m.windows[window_id.0].bounds == bounds);
                if told_since(m, start.effects.len(), window_id, display_id, bounds) {
                    lemma_told_extends(
                        m,
                        after,
                        start.effects.len(),
                        window_id,
                        display_id,
                        bounds,
                    );
                }
            } else {
                assert(told_since(next, start.effects.len(), window_id, display_id, bounds));
                lemma_told_extends(
                    next,
                    after,
                    start.effects.len(),
                    window_id,
                    display_id,
                    bounds,
                );
            }
        }
    }
}

proof fn lemma_tree_laid_out_told(
    start: Model,
    m: Model,
    a: Answers,
    display: Display,
    tree: ContainerTree,
    n: int,
)
    requires
        all_told(start, m),
        forall|id: isize| (#[trigger] m.breaker_open(id)) == start.breaker_open(id),
    ensures
        match m.tree_laid_out(a, display, tree) {
            Ok(after) => {
                &&& all_told(start, after)
                &&& extends(m.effects, after.effects)
                &&& forall|id: isize| (#[trigger] after.breaker_open(id)) == start.breaker_open(id)
                &&& match tree_planned(after, a, display) {
                    Ok(plan) => 0 <= n < plan.placements@.len() ==> is_at(
                        start,
                        after,
                        plan.placements@[n].window_id,
                        display.id,
                        plan.placements@[n].bounds,
                    ),
                    Err(_) => false,
                }
            },
            Err(_) => true,
        },
{
    reveal(Model::tree_laid_out);
    match a.windows_spec(tree) {
        Err(_) => {},
        Ok(windows) => match a.plan_spec(
            tree,
            display.work_area,
            m.config.gaps,
            m.minimums(windows),
        ) {
            Err(_) => {},
            Ok(plan) => {
                lemma_laid_out_mine(m, a, display, tree, windows, plan);
                let next = Model { trees: m.trees.insert(display.id.0, tree), ..m }.overflowing(
                    display.id,
                    plan.overflow@,
                );
                assert forall|id: isize| (#[trigger] next.breaker_open(id)) == start.breaker_open(
                    id,
                ) by {
                    assert(next.breaker_open(id) == m.breaker_open(id));
                }
                assert(all_told(start, next)) by {
                    lemma_told_same(start, m, next);
                }
                lemma_arranged_as_told(start, next, plan.placements@, 0, display.id, n);
            },
        },
    }
}

/// What has been told does not depend on anything but the windows and the log.
proof fn lemma_told_same(start: Model, m: Model, n: Model)
    requires
        all_told(start, m),
        n.windows == m.windows,
        n.effects == m.effects,
    ensures
        all_told(start, n),
{
    assert forall|id: isize|
        #![trigger n.windows[id]]
        n.windows.contains_key(id) implies {
        ||| start.windows.contains_key(id) && start.windows[id].display_id
            == n.windows[id].display_id && start.windows[id].bounds == n.windows[id].bounds
        ||| told_since(
            n,
            start.effects.len(),
            WindowId(id),
            n.windows[id].display_id,
            n.windows[id].bounds,
        )
    } by {
        assert(m.windows[id] == n.windows[id]);
        if told_since(
            m,
            start.effects.len(),
            WindowId(id),
            m.windows[id].display_id,
            m.windows[id].bounds,
        ) {
            lemma_told_extends(
                m,
                n,
                start.effects.len(),
                WindowId(id),
                m.windows[id].display_id,
                m.windows[id].bounds,
            );
        }
    }
}

proof fn lemma_tree_reflowed_told(
    start: Model,
    m: Model,
    a: Answers,
    display: Display,
    active: Seq<WindowId>,
    n: int,
)
    requires
        all_told(start, m),
        forall|id: isize| (#[trigger] m.breaker_open(id)) == start.breaker_open(id),
    ensures
        match m.tree_reflowed(a, display, active) {
            Ok(after) => {
                &&& all_told(start, after)
                &&& extends(m.effects, after.effects)
                &&& forall|id: isize| (#[trigger] after.breaker_open(id)) == start.breaker_open(id)
                &&& match tree_planned(after, a, display) {
                    Ok(plan) => 0 <= n < plan.placements@.len() ==> is_at(
                        start,
                        after,
                        plan.placements@[n].window_id,
                        display.id,
                        plan.placements@[n].bounds,
                    ),
                    Err(_) => false,
                }
            },
            Err(_) => true,
        },
{
    reveal(Model::tree_reflowed);
    reveal(Model::reshaped);
    reveal(Model::waiting_tree_taken);
    reveal(Model::tree_saved);
    let lifted = m.lifted(display.id);
    match m.starting_tree(a, display.id, active) {
        Err(_) => {},
        Ok(tree) => match a.windows_spec(tree) {
            Err(_) => {},
            Ok(present) => {
                lemma_shed_only(lifted, a, present.filter(Model::not_in(active)), 0, tree);
                match lifted.reshaped(a, tree, active, display.work_area) {
                    Err(_) => {},
                    Ok((next, grown)) => match a.windows_spec(grown) {
                        Err(_) => {},
                        Ok(windows) => {
                            lemma_evidence_refreshed_only(next, windows, 0);
                            let fresh = next.evidence_refreshed(windows, 0);
                            match fresh.tree_saved(a, display.id, grown) {
                                Err(_) => {},
                                Ok(saved) => {
                                    assert(saved.windows == m.windows && saved.effects
                                        == m.effects);
                                    assert forall|id: isize| (#[trigger] saved.breaker_open(id))
                                        == start.breaker_open(id) by {
                                        assert(saved.breaker_open(id) == m.breaker_open(id));
                                    }
                                    lemma_told_same(start, m, saved);
                                    lemma_tree_laid_out_told(start, saved, a, display, grown, n);
                                },
                            }
                        },
                    },
                }
            },
        },
    }
}

proof fn lemma_trees_reflowed_told(
    start: Model,
    m: Model,
    a: Answers,
    base: Model,
    i: int,
    d: int,
    n: int,
)
    requires
        0 <= i <= base.displays.len(),
        handles_distinct(base.displays),
        all_told(start, m),
        forall|id: isize| (#[trigger] m.breaker_open(id)) == start.breaker_open(id),
        m.interactive == base.interactive,
    ensures
        match m.trees_reflowed(a, base, i) {
            Ok(after) => {
                &&& all_told(start, after)
                &&& extends(m.effects, after.effects)
                &&& (i <= d < base.displays.len() && !base.defers(base.displays[d].id)
                    ==> match tree_planned(after, a, base.displays[d]) {
                    Ok(plan) => 0 <= n < plan.placements@.len() ==> is_at(
                        start,
                        after,
                        plan.placements@[n].window_id,
                        base.displays[d].id,
                        plan.placements@[n].bounds,
                    ),
                    Err(_) => false,
                })
            },
            Err(_) => true,
        },
    decreases base.displays.len() - i,
{
    if i < base.displays.len() {
        let display = base.displays[i];
        if m.defers(display.id) {
            let next = m.deferred_for(display.id);
            assert forall|id: isize| (#[trigger] next.breaker_open(id)) == start.breaker_open(
                id,
            ) by {
                assert(next.breaker_open(id) == m.breaker_open(id));
            }
            lemma_told_same(start, m, next);
            lemma_trees_reflowed_told(start, next, a, base, i + 1, d, n);
        } else {
            let active = base.active_on(display.id);
            lemma_tree_reflowed_told(start, m, a, display, active, n);
            match m.tree_reflowed(a, display, active) {
                Err(_) => {},
                Ok(next) => {
                    lemma_interactive_kept(m, a, display, active);
                    lemma_trees_reflowed_told(start, next, a, base, i + 1, d, n);
                    match next.trees_reflowed(a, base, i + 1) {
                        Ok(after) => {
                            assert forall|j: int| 0 <= j < m.effects.len() implies #[trigger]
                                after.effects[j] == m.effects[j] by {
                                assert(next.effects[j] == m.effects[j]);
                            }
                            if d == i {
                                lemma_planned_later(next, a, base, i + 1, after, i);
                                let plan = tree_planned(next, a, display)->Ok_0;
                                if 0 <= n < plan.placements@.len() && told_since(
                                    next,
                                    start.effects.len(),
                                    plan.placements@[n].window_id,
                                    display.id,
                                    plan.placements@[n].bounds,
                                ) {
                                    lemma_told_extends(
                                        next,
                                        after,
                                        start.effects.len(),
                                        plan.placements@[n].window_id,
                                        display.id,
                                        plan.placements@[n].bounds,
                                    );
                                }
                            }
                        },
                        Err(_) => {},
                    }
                },
            }
        }
    }
}

/// A reflow plans each display's tree in the display's work area, with the gaps
/// in force and the windows' own minimum sizes, and puts every window where
/// that plan has it: it is there, or the adapter is told, unless its breaker is
/// open. Every window that ends up elsewhere than it was, the adapter was told
/// so.
pub proof fn law_trees_are_planned_in_the_work_area(m: Model, a: Answers, d: int, n: int)
    requires
        m.tiling_active && !m.paused,
        handles_distinct(m.displays),
        0 <= d < m.displays.len(),
        m.interactive is None || (m.interactive->0).display_id != m.displays[d].id,
    ensures
        match m.treed(a) {
            Ok(after) => {
                let tree = after.trees[m.displays[d].id.0];
                &&& all_told(m, after)
                &&& match a.look_up(Query::Shape { tree }) {
                    Some(Answer::Shape(shape)) => match a.look_up(
                        Query::Plan {
                            tree,
                            area: m.displays[d].work_area,
                            gaps: m.config.gaps,
                            minimums: after.minimums(shape.windows@),
                        },
                    ) {
                        Some(Answer::Plan(plan)) => 0 <= n < plan.placements@.len() ==> is_at(
                            m,
                            after,
                            plan.placements@[n].window_id,
                            m.displays[d].id,
                            plan.placements@[n].bounds,
                        ),
                        _ => false,
                    },
                    _ => false,
                }
            },
            Err(_) => true,
        },
{
    let base = m.trees_on_connected().refreshed();
    assert(all_told(m, base));
    assert forall|id: isize| (#[trigger] base.breaker_open(id)) == m.breaker_open(id) by {}
    lemma_trees_reflowed_told(m, base, a, base, 0, d, n);
    crate::laws::frame::lemma_trees_reflowed(base, a, base, 0);
    match base.trees_reflowed(a, base, 0) {
        Err(_) => {},
        Ok(flowed) => {
            let kept = flowed.evidence_kept();
            crate::laws::reflow::lemma_all_written(kept, a, 0);
            match kept.workspaces_persisted(a, 0) {
                Err(_) => {},
                Ok(after) => {
                    lemma_told_same(m, flowed, after);
                    let windows = a.windows_spec(flowed.trees[m.displays[d].id.0])->Ok_0;
                    assert(after.minimums(windows) =~= flowed.minimums(windows));
                    let plan = tree_planned(flowed, a, m.displays[d])->Ok_0;
                    if 0 <= n < plan.placements@.len() && told_since(
                        flowed,
                        m.effects.len(),
                        plan.placements@[n].window_id,
                        m.displays[d].id,
                        plan.placements@[n].bounds,
                    ) {
                        lemma_told_extends(
                            flowed,
                            after,
                            m.effects.len(),
                            plan.placements@[n].window_id,
                            m.displays[d].id,
                            plan.placements@[n].bounds,
                        );
                    }
                },
            }
        },
    }
}

/// The windows that leave a tree are those it holds and the display does not
/// arrange, and those that join are the ones it arranges and the tree does not
/// hold.
pub proof fn law_who_leaves_and_who_joins(windows: Seq<WindowId>, others: Seq<WindowId>, w: WindowId)
    ensures
        windows.filter(Model::not_in(others)).contains(w) <==> windows.contains(w)
            && !others.contains(w),
{
    broadcast use vstd::seq_lib::group_filter_ensures;

    let pred = Model::not_in(others);
    let left = windows.filter(pred);
    if left.contains(w) {
        let k = choose|k: int| 0 <= k < left.len() && left[k] == w;
        windows.lemma_filter_pred(pred, k);
        windows.lemma_filter_contains_rev(pred, w);
    }
    if windows.contains(w) && !others.contains(w) {
        let k = choose|k: int| 0 <= k < windows.len() && windows[k] == w;
        assert(left.contains(windows[k]));
    }
}

// What is written.

/// What is written of a workspace is its name, who owns it, the display that
/// shows it, and its tree: the display's while displayed, its own while hidden,
/// each window in it as what recognises it. An empty tree is not written.
pub proof fn law_what_is_written_of_a_workspace(m: Model, a: Answers, i: int, at: int)
    requires
        0 <= i < m.workspaces.list.len(),
    ensures
        match m.persisted(a, i) {
            Ok(written) => {
                let workspace = m.workspaces.list[i];
                let live = match workspace.displayed_on {
                    Some(display_id) => if m.trees.contains_key(display_id.0) {
                        Some(m.trees[display_id.0])
                    } else {
                        None
                    },
                    None => workspace.stashed_tree,
                };
                &&& written.name == workspace.name
                &&& written.origin == workspace.origin
                &&& match workspace.displayed_on {
                    Some(display_id) => called(m.displays, display_id, at)
                        ==> written.displayed_fingerprint == Some(
                        m.displays[at].stable_fingerprint,
                    ),
                    None => written.displayed_fingerprint is None,
                }
                &&& match live {
                    None => written.tree is None,
                    Some(tree) => match a.look_up(Query::Shape { tree }) {
                        Some(Answer::Shape(shape)) => match a.look_up(
                            Query::Durable { tree, evidence: m.evidence_list(shape.windows@) },
                        ) {
                            Some(Answer::Stored(stored)) => match a.look_up(
                                Query::Leaves { stored },
                            ) {
                                Some(Answer::Leaves(leaves)) => written.tree == if leaves@.len()
                                    == 0 {
                                    None
                                } else {
                                    Some(stored)
                                },
                                _ => false,
                            },
                            _ => false,
                        },
                        _ => false,
                    },
                }
            },
            Err(_) => true,
        },
{
    reveal(Model::persisted);
    match m.workspaces.list[i].displayed_on {
        Some(display_id) => {
            lemma_called(m.displays, display_id, at);
        },
        None => {},
    }
}

/// A display's own tree is written where no workspace is displayed there, under
/// the display's fingerprint, and only where it changed since it last was.
pub proof fn law_when_a_tree_is_written(
    m: Model,
    a: Answers,
    display_id: DisplayId,
    tree: ContainerTree,
    at: int,
    shown: int,
)
    requires
        called(m.displays, display_id, at),
    ensures
        match m.tree_saved(a, display_id, tree) {
            Ok(after) => {
                let known = m.saved_trees.contains_key(display_id.0)
                    && m.saved_trees[display_id.0] == tree;
                &&& after.saved_trees.contains_key(display_id.0)
                &&& after.saved_trees[display_id.0] == tree
                &&& (known ==> after == m)
                &&& (!known && shown_at(m.workspaces, display_id, shown) ==> after.intents
                    == m.intents)
                &&& (!known && crate::laws::belonging::blank(m.workspaces, display_id) ==> match m.durable(
                    a,
                    tree,
                ) {
                    Ok(durable) => after.intents == m.intents.push(
                        Intent::SaveContainerTree {
                            display_fingerprint: m.displays[at].stable_fingerprint,
                            tree: durable,
                        },
                    ),
                    Err(_) => false,
                })
            },
            Err(_) => true,
        },
{
    reveal(Model::tree_saved);
    lemma_called(m.displays, display_id, at);
    lemma_shown(m.workspaces, display_id, shown);
}

} // verus!
