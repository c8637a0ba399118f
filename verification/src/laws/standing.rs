//! What a reflow starts from, what it leaves out and what it leaves alone.

use vstd::prelude::*;

verus! {

use crate::answers::{Answer, Answers, ContainerTree, Query};
use crate::geometry::{DisplayId, Rect, WindowId};
use crate::laws::belonging::{
    blank, fingerprinted, lemma_fingerprinted, lemma_shown, shown_at,
};
use crate::laws::hotplug::{called, gone, lemma_called};
use crate::laws::managing::law_evidence_is_what_was_observed;
use crate::laws::reflow::{
    handles_distinct, lemma_arranged_as_only, lemma_tree_reflowed_leaves,
    lemma_trees_reflowed_leave, overflow_connected,
};
use crate::state::{Intent, Listed, Model};
use crate::text::{first_index, lemma_first_index};
use crate::topology::{connected, display_is};
use crate::undo::UndoTreeSnapshot;
use crate::window::Display;
use crate::workspace::Workspace;

/// A window is listed as left out of a display exactly where the plan of the
/// display's tree leaves it out; of other displays what was listed stays.
pub proof fn law_what_a_plan_leaves_out_is_listed(
    m: Model,
    a: Answers,
    display: Display,
    tree: ContainerTree,
    w: WindowId,
    other: DisplayId,
)
    ensures
        match m.tree_laid_out(a, display, tree) {
            Ok(after) => match a.look_up(Query::Shape { tree }) {
                Some(Answer::Shape(shape)) => match a.look_up(
                    Query::Plan {
                        tree,
                        area: display.work_area,
                        gaps: m.config.gaps,
                        minimums: m.minimums(shape.windows@),
                    },
                ) {
                    Some(Answer::Plan(plan)) => {
                        &&& after.constraint_overflow.contains(
                            Listed { display_id: display.id, window_id: w },
                        ) <==> plan.overflow@.contains(w)
                        &&& (other != display.id ==> (after.constraint_overflow.contains(
                            Listed { display_id: other, window_id: w },
                        ) <==> m.constraint_overflow.contains(
                            Listed { display_id: other, window_id: w },
                        )))
                        &&& after.trees.contains_key(display.id.0)
                        &&& after.trees[display.id.0] == tree
                    },
                    _ => false,
                },
                _ => false,
            },
            Err(_) => true,
        },
{
    broadcast use vstd::seq_lib::group_filter_ensures;

    reveal(Model::tree_laid_out);
    match m.tree_laid_out(a, display, tree) {
        Err(_) => {},
        Ok(after) => {
            let windows = a.windows_spec(tree)->Ok_0;
            let plan = a.plan_spec(
                tree,
                display.work_area,
                m.config.gaps,
                m.minimums(windows),
            )->Ok_0;
            let held = Model { trees: m.trees.insert(display.id.0, tree), ..m }.overflowing(
                display.id,
                plan.overflow@,
            );
            lemma_arranged_as_only(held, plan.placements@, 0, display.id);
            let off = Model::off_display(display.id);
            let kept = m.constraint_overflow.filter(off);
            let added = Seq::new(
                plan.overflow@.len(),
                |i: int| Listed { display_id: display.id, window_id: plan.overflow@[i] },
            );
            assert(after.constraint_overflow == kept + added);
            let here = Listed { display_id: display.id, window_id: w };
            let there = Listed { display_id: other, window_id: w };
            if plan.overflow@.contains(w) {
                let i = choose|i: int| 0 <= i < plan.overflow@.len() && plan.overflow@[i] == w;
                assert((kept + added)[kept.len() + i] == here);
            }
            if (kept + added).contains(here) {
                let i = choose|i: int|
                    0 <= i < (kept + added).len() && (kept + added)[i] == here;
                if i < kept.len() {
                    m.constraint_overflow.lemma_filter_pred(off, i);
                } else {
                    assert(plan.overflow@[i - kept.len()] == w);
                }
            }
            if other != display.id {
                if m.constraint_overflow.contains(there) {
                    assert(off(there));
                    assert(kept.contains(there));
                    let i = choose|i: int| 0 <= i < kept.len() && kept[i] == there;
                    assert((kept + added)[i] == there);
                }
                if (kept + added).contains(there) {
                    let i = choose|i: int|
                        0 <= i < (kept + added).len() && (kept + added)[i] == there;
                    if i < kept.len() {
                        m.constraint_overflow.lemma_filter_contains_rev(off, kept[i]);
                    } else {
                        assert((kept + added)[i] == added[i - kept.len()]);
                    }
                }
            }
        },
    }
}

/// A stored tree is taken up once: the workspace it waited with has none
/// waiting afterwards, or it is no longer among those stored by fingerprint;
/// everything else waits as it did.
pub proof fn law_a_stored_tree_is_taken_up_once(
    m: Model,
    display_id: DisplayId,
    at: int,
    shown: int,
    n: int,
    k: int,
)
    requires
        called(m.displays, display_id, at),
    ensures
        ({
            let after = m.waiting_tree_taken(display_id);
            &&& (shown_at(m.workspaces, display_id, shown)
                && m.workspaces.list[shown].pending_tree is Some ==> {
                &&& after.workspaces.list[shown].pending_tree is None
                &&& after.pending_trees == m.pending_trees
                &&& (0 <= k < m.workspaces.list.len() && k != shown ==> after.workspaces.list[k]
                    == m.workspaces.list[k])
            })
            &&& ((blank(m.workspaces, display_id) || shown_at(m.workspaces, display_id, shown)
                && m.workspaces.list[shown].pending_tree is None) && 0 <= n
                < m.pending_trees.len() && m.pending_trees[n].display_fingerprint@
                == m.displays[at].stable_fingerprint@ && (forall|j: int|
                0 <= j < n ==> (#[trigger] m.pending_trees[j]).display_fingerprint@
                    != m.displays[at].stable_fingerprint@) ==> {
                &&& after.workspaces == m.workspaces
                &&& after.pending_trees == m.pending_trees.remove(n)
            })
        }),
{
    reveal(Model::waiting_tree_taken);
    lemma_called(m.displays, display_id, at);
    lemma_shown(m.workspaces, display_id, shown);
    let p = m.stored_for(m.displays[at].stable_fingerprint@);
    lemma_first_index(m.pending_trees.len(), p);
    match first_index(m.pending_trees.len(), p) {
        Some(found) => {
            assert(p(found));
            if 0 <= n < found {
                assert(!p(n));
            }
            if found < n {
                assert(m.pending_trees[found].display_fingerprint@
                    == m.displays[at].stable_fingerprint@);
            }
        },
        None => {
            if 0 <= n < m.pending_trees.len() {
                assert(!p(n));
            }
        },
    }
}

/// Where no stored tree waits for a display, a reflow goes on from the tree the
/// display has.
pub proof fn law_a_reflow_goes_on_from_the_tree_there_is(
    m: Model,
    a: Answers,
    display_id: DisplayId,
    active: Seq<WindowId>,
)
    requires
        m.waiting_tree(display_id) is None,
        m.trees.contains_key(display_id.0),
    ensures
        m.starting_tree(a, display_id, active) == Ok::<ContainerTree, Query>(
            m.trees[display_id.0],
        ),
{
    reveal(Model::waiting_tree);
    let bare = m.without_tree(display_id);
    lemma_first_index(
        m.pending_trees.len(),
        m.stored_for(
            match crate::topology::fingerprint_of(m.displays, display_id) {
                Some(fingerprint) => fingerprint@,
                None => Seq::empty(),
            },
        ),
    );
    match crate::topology::fingerprint_of(m.displays, display_id) {
        Some(fingerprint) => {
            assert(bare.stored_for(fingerprint@) =~= m.stored_for(fingerprint@));
        },
        None => {},
    }
    assert(bare.waiting_tree(display_id) == m.waiting_tree(display_id));
}

proof fn lemma_dragged_tree_stays(m: Model, a: Answers, base: Model, i: int, d: DisplayId)
    requires
        0 <= i <= base.displays.len(),
        m.displays == base.displays,
        m.interactive == base.interactive,
        m.interactive matches Some(session) && session.display_id == d,
        overflow_connected(m),
    ensures
        match m.trees_reflowed(a, base, i) {
            Ok(after) => {
                &&& after.trees.contains_key(d.0) == m.trees.contains_key(d.0)
                &&& after.trees[d.0] == m.trees[d.0]
                &&& (m.deferred.contains(d.0) || exists|k: int|
                    i <= k < base.displays.len() && (#[trigger] base.displays[k]).id == d)
                    ==> after.deferred.contains(d.0)
            },
            Err(_) => true,
        },
    decreases base.displays.len() - i,
{
    if i < base.displays.len() {
        let display = base.displays[i];
        assert(connected(base.displays, display.id)) by {
            lemma_first_index(base.displays.len(), display_is(base.displays, display.id));
            assert(display_is(base.displays, display.id)(i));
        }
        if exists|k: int| i <= k < base.displays.len() && (#[trigger] base.displays[k]).id == d {
            let k = choose|k: int|
                i <= k < base.displays.len() && (#[trigger] base.displays[k]).id == d;
            if k > i {
                assert(i + 1 <= k && base.displays[k].id == d);
            }
        }
        if m.defers(display.id) {
            lemma_dragged_tree_stays(m.deferred_for(display.id), a, base, i + 1, d);
        } else {
            let active = base.active_on(display.id);
            lemma_tree_reflowed_leaves(m, a, display, active);
            match m.tree_reflowed(a, display, active) {
                Err(_) => {},
                Ok(next) => {
                    assert(next.trees.contains_key(d.0) == m.trees.contains_key(d.0));
                    lemma_dragged_tree_stays(next, a, base, i + 1, d);
                },
            }
        }
    }
}

proof fn lemma_dragged_grid_waits(m: Model, a: Answers, base: Model, i: int, d: DisplayId)
    requires
        0 <= i <= base.displays.len(),
        m.interactive matches Some(session) && session.display_id == d,
    ensures
        match m.gridded(a, base, i) {
            Ok(after) => (m.deferred.contains(d.0) || exists|k: int|
                i <= k < base.displays.len() && (#[trigger] base.displays[k]).id == d)
                ==> after.deferred.contains(d.0),
            Err(_) => true,
        },
    decreases base.displays.len() - i,
{
    if i < base.displays.len() {
        let display = base.displays[i];
        if exists|k: int| i <= k < base.displays.len() && (#[trigger] base.displays[k]).id == d {
            let k = choose|k: int|
                i <= k < base.displays.len() && (#[trigger] base.displays[k]).id == d;
            if k > i {
                assert(i + 1 <= k && base.displays[k].id == d);
            }
        }
        if m.defers(display.id) {
            lemma_dragged_grid_waits(m.deferred_for(display.id), a, base, i + 1, d);
        } else {
            let windows = base.active_on(display.id);
            match a.grid_spec(display.work_area, windows.len() as usize) {
                Ok(cells) => {
                    lemma_tiled_keeps_waiting(
                        m,
                        a,
                        windows,
                        cells,
                        0,
                        display.id,
                        display.work_area,
                    );
                    match m.tiled(a, windows, cells, 0, display.id, display.work_area) {
                        Ok(next) => {
                            lemma_dragged_grid_waits(next, a, base, i + 1, d);
                        },
                        Err(_) => {},
                    }
                },
                Err(_) => {},
            }
        }
    }
}

proof fn lemma_tiled_keeps_waiting(
    m: Model,
    a: Answers,
    windows: Seq<WindowId>,
    cells: Seq<Rect>,
    i: int,
    display_id: DisplayId,
    area: Rect,
)
    ensures
        match m.tiled(a, windows, cells, i, display_id, area) {
            Ok(after) => after.deferred == m.deferred && after.interactive == m.interactive,
            Err(_) => true,
        },
    decreases windows.len() - i,
{
    if i < windows.len() && i < cells.len() {
        match a.gapped_spec(cells[i], area, m.config.gaps) {
            Ok(bounds) => {
                let next = m.arranged_at(windows[i], display_id, bounds);
                lemma_tiled_keeps_waiting(next, a, windows, cells, i + 1, display_id, area);
            },
            Err(_) => {},
        }
    }
}

proof fn lemma_persisting_leaves_trees(m: Model, a: Answers, i: int)
    ensures
        match m.workspaces_persisted(a, i) {
            Ok(after) => after.trees == m.trees && after.deferred == m.deferred,
            Err(_) => true,
        },
    decreases m.workspaces.list.len() - i,
{
    if 0 <= i < m.workspaces.list.len() {
        let workspace = m.workspaces.list[i];
        if workspace.pending_tree is Some {
            lemma_persisting_leaves_trees(m, a, i + 1);
        } else {
            match m.persisted(a, i) {
                Err(_) => {},
                Ok(persisted) => {
                    let next = Model {
                        workspaces: m.workspaces.with(
                            i,
                            Workspace { saved: Some(persisted), ..workspace },
                        ),
                        ..m
                    }.intent(Intent::SaveWorkspace(persisted));
                    lemma_persisting_leaves_trees(m, a, i + 1);
                    lemma_persisting_leaves_trees(next, a, i + 1);
                },
            }
        }
    }
}

/// While a window is dragged, the display it is on is not arranged: the display
/// is noted for when the drag ends, and its tree is as it was.
pub proof fn law_a_display_waits_while_a_window_is_dragged(m: Model, a: Answers, d: int)
    requires
        m.tiling_active && !m.paused,
        0 <= d < m.displays.len(),
        m.interactive matches Some(session) && session.display_id == m.displays[d].id,
    ensures
        ({
            let id = m.displays[d].id.0;
            &&& match m.balanced(a) {
                Ok(after) => after.deferred.contains(id),
                Err(_) => true,
            }
            &&& match m.treed(a) {
                Ok(after) => {
                    &&& after.deferred.contains(id)
                    &&& after.trees.contains_key(id) == m.trees.contains_key(id)
                    &&& (m.trees.contains_key(id) ==> after.trees[id] == m.trees[id])
                },
                Err(_) => true,
            }
        }),
{
    let id = m.displays[d].id;
    let grid = m.unstructured().refreshed();
    assert(grid.displays[d].id == id);
    lemma_dragged_grid_waits(grid, a, grid, 0, id);
    let base = m.trees_on_connected().refreshed();
    assert(base.displays[d].id == id);
    assert(connected(m.displays, id)) by {
        lemma_first_index(m.displays.len(), display_is(m.displays, id));
        assert(display_is(m.displays, id)(d));
    }
    lemma_overflow_connected(m);
    lemma_dragged_tree_stays(base, a, base, 0, id);
    match base.trees_reflowed(a, base, 0) {
        Ok(next) => {
            lemma_persisting_leaves_trees(next.evidence_kept(), a, 0);
        },
        Err(_) => {},
    }
}

proof fn lemma_overflow_connected(m: Model)
    ensures
        overflow_connected(m.trees_on_connected().refreshed()),
{
    let base = m.trees_on_connected().refreshed();
    let pred = m.on_connected();
    assert forall|i: int| 0 <= i < base.constraint_overflow.len() implies connected(
        base.displays,
        (#[trigger] base.constraint_overflow[i]).display_id,
    ) by {
        m.constraint_overflow.lemma_filter_pred(pred, i);
    }
}

/// A reflow leaves trees with connected displays only, and every connected
/// display that is not waiting has one.
pub proof fn law_trees_are_of_connected_displays(m: Model, a: Answers, id: isize, d: int)
    requires
        m.tiling_active && !m.paused,
        handles_distinct(m.displays),
    ensures
        match m.treed(a) {
            Ok(after) => {
                &&& (after.trees.contains_key(id) ==> !gone(m.displays, DisplayId(id)))
                &&& (0 <= d < m.displays.len() && m.interactive is None
                    ==> after.trees.contains_key(m.displays[d].id.0))
            },
            Err(_) => true,
        },
{
    let base = m.trees_on_connected().refreshed();
    lemma_overflow_connected(m);
    lemma_trees_reflowed_leave(base, a, base, 0);
    match base.trees_reflowed(a, base, 0) {
        Ok(next) => {
            lemma_persisting_leaves_trees(next.evidence_kept(), a, 0);
            if next.trees.contains_key(id) {
                assert(connected(base.displays, DisplayId(id)));
                lemma_first_index(m.displays.len(), display_is(m.displays, DisplayId(id)));
                let at = crate::topology::display_at(m.displays, DisplayId(id))->0;
                assert(display_is(m.displays, DisplayId(id))(at));
            }
            if 0 <= d < m.displays.len() && m.interactive is None {
                assert(base.displays[d] == m.displays[d]);
                assert(!base.defers(base.displays[d].id));
            }
        },
        Err(_) => {},
    }
}

proof fn lemma_evidence_stays(m: Model, windows: Seq<WindowId>, i: int, id: isize)
    requires
        0 <= i <= windows.len(),
        m.evidence(id) is Some ==> m.leaf_evidence.contains_key(id) && m.leaf_evidence[id]
            == m.evidence(id)->0,
    ensures
        ({
            let after = m.evidence_refreshed(windows, i);
            m.evidence(id) is Some ==> after.leaf_evidence.contains_key(id)
                && after.leaf_evidence[id] == m.evidence(id)->0
        }),
    decreases windows.len() - i,
{
    if i < windows.len() {
        let next = match m.evidence(windows[i].0) {
            Some(evidence) => Model {
                leaf_evidence: m.leaf_evidence.insert(windows[i].0, evidence),
                ..m
            },
            None => m,
        };
        lemma_same_evidence(m, next, id);
        lemma_evidence_stays(next, windows, i + 1, id);
    }
}

proof fn lemma_same_evidence(m: Model, next: Model, id: isize)
    requires
        next == (Model { leaf_evidence: next.leaf_evidence, ..m }),
    ensures
        next.evidence(id) == m.evidence(id),
{
    assert(next.older_sibling(id) =~= m.older_sibling(id));
}

proof fn lemma_evidence_fresh(m: Model, windows: Seq<WindowId>, i: int, k: int)
    requires
        0 <= i <= k < windows.len(),
    ensures
        ({
            let after = m.evidence_refreshed(windows, i);
            let id = windows[k].0;
            m.evidence(id) is Some ==> after.leaf_evidence.contains_key(id)
                && after.leaf_evidence[id] == m.evidence(id)->0
        }),
    decreases windows.len() - i,
{
    let next = match m.evidence(windows[i].0) {
        Some(evidence) => Model {
            leaf_evidence: m.leaf_evidence.insert(windows[i].0, evidence),
            ..m
        },
        None => m,
    };
    lemma_same_evidence(m, next, windows[k].0);
    if i == k {
        lemma_evidence_stays(next, windows, i + 1, windows[k].0);
    } else {
        lemma_evidence_fresh(next, windows, i + 1, k);
    }
}

/// What would recognise a window that leaves is kept up to date while it is
/// arranged: its application, class and role, and where it was last seen.
/// Nothing is kept of a window that is no longer managed.
pub proof fn law_what_recognises_a_window_is_kept_fresh(
    m: Model,
    windows: Seq<WindowId>,
    k: int,
    at: int,
    id: isize,
)
    requires
        0 <= k < windows.len(),
        m.inventory.contains_key(windows[k].0),
        called(m.displays, m.inventory[windows[k].0].window.display_id, at),
    ensures
        ({
            let after = m.evidence_refreshed(windows, 0);
            let window = m.inventory[windows[k].0].window;
            let held = after.leaf_evidence[windows[k].0];
            &&& after.leaf_evidence.contains_key(windows[k].0)
            &&& held.application_id == window.application_id
            &&& held.native_class == window.native_class
            &&& held.role == window.role
            &&& held.last_placement == window.bounds
            &&& held.display_fingerprint == m.displays[at].stable_fingerprint
        }),
        m.evidence_kept().leaf_evidence.contains_key(id) <==> m.leaf_evidence.contains_key(id)
            && m.inventory.contains_key(id),
{
    law_evidence_is_what_was_observed(m, windows[k].0, at);
    lemma_evidence_fresh(m, windows, 0, k);
}

/// A display that stops showing a workspace forgets how it was arranged:
/// nothing of the display is listed, left out or counted as written any more;
/// of the others everything is.
pub proof fn law_a_display_forgets_what_it_hides(
    m: Model,
    display_id: DisplayId,
    entry: Listed,
    other: isize,
)
    ensures
        ({
            let after = m.tree_stashed(display_id);
            &&& !after.trees.contains_key(display_id.0)
            &&& !after.saved_trees.contains_key(display_id.0)
            &&& (entry.display_id == display_id ==> !after.order.contains(entry)
                && !after.constraint_overflow.contains(entry))
            &&& (entry.display_id != display_id ==> after.order.contains(entry)
                == m.order.contains(entry) && after.constraint_overflow.contains(entry)
                == m.constraint_overflow.contains(entry))
            &&& (other != display_id.0 ==> after.trees.contains_key(other)
                == m.trees.contains_key(other) && after.trees[other] == m.trees[other]
                && after.saved_trees.contains_key(other) == m.saved_trees.contains_key(other))
            &&& after.windows == m.windows
            &&& after.effects == m.effects
        }),
{
    lemma_listed_off(m.order, display_id, entry);
    lemma_listed_off(m.constraint_overflow, display_id, entry);
}

proof fn lemma_listed_off(entries: Seq<Listed>, display_id: DisplayId, entry: Listed)
    ensures
        entries.filter(Model::off_display(display_id)).contains(entry) <==> entries.contains(entry)
            && entry.display_id != display_id,
{
    broadcast use vstd::seq_lib::group_filter_ensures;

    let off = Model::off_display(display_id);
    let kept = entries.filter(off);
    if kept.contains(entry) {
        let i = choose|i: int| 0 <= i < kept.len() && kept[i] == entry;
        entries.lemma_filter_pred(off, i);
        entries.lemma_filter_contains_rev(off, kept[i]);
    }
    if entries.contains(entry) && entry.display_id != display_id {
        assert(off(entry));
        assert(kept.contains(entry));
    }
}

/// An undo gives a display that is there the tree that was recorded of it,
/// filled with the windows that tile on it now; a display that is not there
/// gets nothing, and no other display changes.
pub proof fn law_an_undo_gives_a_display_its_tree_back(
    m: Model,
    a: Answers,
    snapshot: UndoTreeSnapshot,
    at: int,
    other: isize,
)
    ensures
        fingerprinted(m.displays, snapshot.display_fingerprint@, at)
            ==> match m.structure_restored(a, seq![snapshot], 0, false) {
            Ok((after, any)) => {
                let id = m.displays[at].id;
                &&& any
                &&& after.trees.contains_key(id.0)
                &&& m.restored_tree(a, snapshot.tree, m.active_tiled(id)) == Ok::<
                    ContainerTree,
                    Query,
                >(after.trees[id.0])
                &&& (other != id.0 ==> after.trees.contains_key(other) == m.trees.contains_key(
                    other,
                ) && after.trees[other] == m.trees[other])
                &&& after == (Model { trees: after.trees, ..m })
            },
            Err(_) => true,
        },
        (forall|d: int|
            0 <= d < m.displays.len() ==> (#[trigger] m.displays[d]).stable_fingerprint@
                != snapshot.display_fingerprint@) ==> m.structure_restored(
            a,
            seq![snapshot],
            0,
            false,
        ) == Ok::<(Model, bool), Query>((m, false)),
{
    reveal_with_fuel(Model::structure_restored, 2);
    lemma_fingerprinted(m.displays, snapshot.display_fingerprint@, at);
    assert(seq![snapshot][0] == snapshot);
}

} // verus!
