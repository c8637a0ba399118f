//! What the engine promises of which workspace each display shows.

use vstd::prelude::*;

verus! {

use crate::answers::{Answers, ContainerTree};
use crate::event::Event;
use crate::geometry::DisplayId;
use crate::laws::events::lemma_tame_assignment_reconciled;
use crate::laws::every_step::law_no_workspace_is_invented;
use crate::laws::parts::{
    lemma_calm_focus_migrated, lemma_calm_observed, lemma_calm_orphans_migrated,
};
use crate::laws::steady::{
    displays_distinct, lemma_find_same, lemma_mapping_in_range, lemma_steady_arranged_revised,
    lemma_steady_displays_cleared, lemma_steady_displays_filled, lemma_steady_mapping_applied,
    lemma_steady_persisted, lemma_steady_vanished_hidden, names_kept, pool_sound,
};
use crate::name::{RequestedName, WorkspaceName};
use crate::reducer::step;
use crate::state::Model;
use crate::table::{ascending, lemma_sorted, sorted};
use crate::text::{first_index, lemma_first_index};
use crate::topology::{connected, display_at, display_is, id_of};
use crate::window::{Display, Window};
use crate::workspace::{PersistedWorkspace, Pool, Workspace, WorkspaceOrigin};

// Filling displays.

proof fn lemma_first_vacant(m: Model, k: int)
    ensures
        match m.first_vacant(k) {
            Some(i) => 0 <= i < m.workspaces.list.len() && m.vacant(i),
            None => forall|i: int|
                0 <= i < m.workspaces.list.len() ==> !#[trigger] m.vacant(i),
        },
    decreases m.config.workspaces.len() - k,
{
    let n = m.workspaces.list.len();
    if k < 0 || k >= m.config.workspaces.len() {
        let any = m.any_vacant();
        lemma_first_index(n, any);
        match m.first_vacant(k) {
            Some(i) => {
                assert(any(i));
            },
            None => {
                assert forall|i: int| 0 <= i < m.workspaces.list.len() implies !#[trigger] m.vacant(
                    i,
                ) by {
                    assert(!any(i));
                }
            },
        }
    } else {
        let spelled = m.vacant_spelled(m.config.workspaces[k]);
        lemma_first_index(n, spelled);
        match first_index(n, spelled) {
            Some(i) => {
                assert(spelled(i));
            },
            None => {
                lemma_first_vacant(m, k + 1);
            },
        }
    }
}

/// A display that appears is given a hidden workspace: the one that was there
/// when last written, or one that owns no window. It reveals no other.
pub proof fn law_an_empty_display_reveals_no_windows(m: Model, fingerprint: Seq<char>)
    ensures
        match m.chosen_for(fingerprint) {
            Some(i) => {
                &&& 0 <= i < m.workspaces.list.len()
                &&& m.workspaces.list[i].displayed_on is None
                &&& (m.remembers(fingerprint)(i) || m.vacant(i))
            },
            None => forall|i: int|
                0 <= i < m.workspaces.list.len() ==> !#[trigger] m.vacant(i),
        },
{
    let known = m.remembers(fingerprint);
    lemma_first_index(m.workspaces.list.len(), known);
    lemma_first_vacant(m, 0);
    match first_index(m.workspaces.list.len(), known) {
        Some(i) => {
            assert(known(i));
        },
        None => {},
    }
}

// The mapping of a profile.

/// A mapping that cannot be completed changes nothing: the reason is noted,
/// and what every display shows stays exactly as it was.
pub proof fn law_an_incomplete_mapping_changes_nothing(m: Model)
    ensures
        m.mapping_applied().switching_unavailable is Some ==> m.mapping_applied() == (Model {
            switching_unavailable: m.mapping_applied().switching_unavailable,
            ..m
        }),
{
    reveal(Model::mapping_applied);
    match m.config.switching {
        Some(switching) => match m.mapping_resolved(switching.displayed, 0, Map::empty()) {
            Ok(target) => {
                let displays = sorted(target.dom());
                let clear = Model { switching_unavailable: None, ..m };
                lemma_cleared_keeps_reason(clear, displays, 0);
                lemma_shown_keeps_reason(
                    clear.displays_cleared(displays, 0),
                    target,
                    displays,
                    0,
                );
            },
            Err(_) => {},
        },
        None => {},
    }
}

pub proof fn lemma_cleared_keeps_reason(m: Model, displays: Seq<isize>, i: int)
    ensures
        m.displays_cleared(displays, i).switching_unavailable == m.switching_unavailable,
    decreases displays.len() - i,
{
    if i < displays.len() {
        let display_id = DisplayId(displays[i]);
        let next = if m.workspaces.displayed_at(display_id) is Some {
            let stashed = m.tree_stashed(display_id);
            Model { workspaces: stashed.workspaces.hiding(display_id), ..stashed }
        } else {
            m
        };
        lemma_cleared_keeps_reason(next, displays, i + 1);
    }
}

pub proof fn lemma_shown_keeps_reason(
    m: Model,
    target: Map<isize, int>,
    displays: Seq<isize>,
    i: int,
)
    ensures
        m.mapping_shown(target, displays, i).switching_unavailable == m.switching_unavailable,
    decreases displays.len() - i,
{
    if i < displays.len() {
        lemma_shown_keeps_reason(
            m.workspace_shown(target[displays[i]], DisplayId(displays[i])),
            target,
            displays,
            i + 1,
        );
    }
}

proof fn lemma_mapping_shown(
    m: Model,
    target: Map<isize, int>,
    displays: Seq<isize>,
    i: int,
)
    requires
        ascending(displays),
        displays.to_set() == target.dom(),
        0 <= i <= displays.len(),
        forall|d: isize| #[trigger]
            target.contains_key(d) ==> 0 <= target[d] < m.workspaces.list.len(),
        forall|d: isize, e: isize| #[trigger]
            target.contains_key(d) && #[trigger] target.contains_key(e) && d != e ==> target[d]
                != target[e],
        forall|k: int|
            0 <= k < i ==> m.workspaces.list[target[#[trigger] displays[k]]].displayed_on == Some(
                DisplayId(displays[k]),
            ),
    ensures
        forall|k: int|
            0 <= k < displays.len() ==> m.mapping_shown(
                target,
                displays,
                i,
            ).workspaces.list[target[#[trigger] displays[k]]].displayed_on == Some(
                DisplayId(displays[k]),
            ),
    decreases displays.len() - i,
{
    if i < displays.len() {
        let at = target[displays[i]];
        let next = m.workspace_shown(at, DisplayId(displays[i]));
        assert(displays.to_set().contains(displays[i]));
        assert(target.contains_key(displays[i]));
        assert forall|k: int| 0 <= k < i + 1 implies next.workspaces.list[target[
            #[trigger] displays[k]
        ]].displayed_on == Some(DisplayId(displays[k])) by {
            if k < i {
                assert(displays.to_set().contains(displays[k]));
                assert(target.contains_key(displays[k]));
                assert(displays[k] < displays[i]);
                assert(target[displays[k]] != at);
            }
        }
        lemma_mapping_shown(next, target, displays, i + 1);
    }
}

/// A mapping that can be completed is in effect afterwards: every display it
/// names shows the workspace it gives it, provided it gives no two displays
/// the same one.
pub proof fn law_a_complete_mapping_is_shown(m: Model, target: Map<isize, int>, d: isize)
    requires
        m.config.switching matches Some(switching) && switching.experimental
            && m.mapping_resolved(switching.displayed, 0, Map::empty()) == Ok::<
            Map<isize, int>,
            crate::outcome::WorkspaceSwitchingUnavailable,
        >(target),
        first_index(m.displays.len(), m.unmapped(target)) is None,
        forall|e: isize, f: isize| #[trigger]
            target.contains_key(e) && #[trigger] target.contains_key(f) && e != f ==> target[e]
                != target[f],
        target.contains_key(d),
    ensures
        m.mapping_applied().workspaces.list[target[d]].displayed_on == Some(DisplayId(d)),
        m.mapping_applied().switching_unavailable is None,
{
    reveal(Model::mapping_applied);
    let switching = m.config.switching->0;
    lemma_mapping_in_range(m, switching.displayed, 0, Map::empty());
    let clear = Model { switching_unavailable: None, ..m };
    if !m.mapping_holds(target) {
        let displays = sorted(target.dom());
        lemma_sorted(target.dom());
        let cleared = clear.displays_cleared(displays, 0);
        lemma_steady_displays_cleared(clear, displays, 0);
        lemma_cleared_keeps_reason(clear, displays, 0);
        lemma_mapping_shown(cleared, target, displays, 0);
        lemma_shown_keeps_reason(cleared, target, displays, 0);
        assert(displays.to_set().contains(d));
        let k = choose|k: int| 0 <= k < displays.len() && displays[k] == d;
        assert(displays[k] == d);
    }
}

/// The tree a workspace has: its display's while one shows it, and its
/// stashed one while hidden.
pub open spec fn tree_owned(m: Model, j: int) -> Option<ContainerTree> {
    match m.workspaces.list[j].displayed_on {
        Some(display_id) => if m.trees.contains_key(display_id.0) {
            Some(m.trees[display_id.0])
        } else {
            None
        },
        None => m.workspaces.list[j].stashed_tree,
    }
}

/// Every workspace has the tree it had.
pub open spec fn trees_follow(before: Model, after: Model) -> bool {
    &&& after.workspaces.list.len() == before.workspaces.list.len()
    &&& forall|j: int|
        0 <= j < before.workspaces.list.len() ==> #[trigger] tree_owned(after, j) == tree_owned(
            before,
            j,
        )
}

/// Displays that give up what they show leave every tree with its workspace.
proof fn lemma_cleared_trees_follow(m: Model, displays: Seq<isize>, i: int)
    requires
        0 <= i <= displays.len(),
        displays_distinct(m.workspaces),
    ensures
        trees_follow(m, m.displays_cleared(displays, i)),
        forall|j: int|
            0 <= j < m.workspaces.list.len() ==> match (#[trigger] m.displays_cleared(
                displays,
                i,
            ).workspaces.list[j]).displayed_on {
                Some(display_id) => m.workspaces.list[j].displayed_on == Some(display_id)
                    && forall|k: int|
                    i <= k < displays.len() ==> #[trigger] displays[k] != display_id.0,
                None => true,
            },
    decreases displays.len() - i,
{
    if i < displays.len() {
        let display_id = DisplayId(displays[i]);
        lemma_first_index(m.workspaces.list.len(), m.workspaces.shows(display_id));
        let stashed = m.tree_stashed(display_id);
        let next = if m.workspaces.displayed_at(display_id) is Some {
            Model { workspaces: stashed.workspaces.hiding(display_id), ..stashed }
        } else {
            m
        };
        assert forall|j: int| 0 <= j < m.workspaces.list.len() implies #[trigger] tree_owned(
            next,
            j,
        ) == tree_owned(m, j) && match next.workspaces.list[j].displayed_on {
            Some(d) => m.workspaces.list[j].displayed_on == Some(d) && d != display_id,
            None => true,
        } by {
            match m.workspaces.displayed_at(display_id) {
                Some(at) => {
                    assert(m.workspaces.shows(display_id)(at));
                    if j != at && m.workspaces.list[j].displayed_on == Some(display_id) {
                        assert(j < at || at < j);
                    }
                },
                None => {
                    assert(!m.workspaces.shows(display_id)(j));
                },
            }
        }
        assert forall|x: int, y: int|
            #![trigger next.workspaces.list[x], next.workspaces.list[y]]
            0 <= x < y < next.workspaces.list.len() && next.workspaces.list[x].displayed_on is Some
            implies next.workspaces.list[x].displayed_on
            != next.workspaces.list[y].displayed_on by {
            assert(tree_owned(next, x) == tree_owned(m, x));
            assert(tree_owned(next, y) == tree_owned(m, y));
            assert(m.workspaces.list[x].displayed_on != m.workspaces.list[y].displayed_on);
        }
        lemma_cleared_trees_follow(next, displays, i + 1);
        let after = m.displays_cleared(displays, i);
        assert forall|j: int| 0 <= j < m.workspaces.list.len() implies #[trigger] tree_owned(
            after,
            j,
        ) == tree_owned(m, j) by {
            assert(tree_owned(next, j) == tree_owned(m, j));
        }
        assert forall|j: int| 0 <= j < m.workspaces.list.len() implies match (
        #[trigger] after.workspaces.list[j]).displayed_on {
            Some(d) => m.workspaces.list[j].displayed_on == Some(d) && forall|k: int|
                i <= k < displays.len() ==> #[trigger] displays[k] != d.0,
            None => true,
        } by {
            assert(tree_owned(next, j) == tree_owned(m, j));
        }
    }
}

/// Where the displays from `i` on show nothing yet, showing the mapping on
/// them leaves every tree with its workspace.
proof fn lemma_shown_trees_follow(
    m: Model,
    target: Map<isize, int>,
    displays: Seq<isize>,
    i: int,
)
    requires
        ascending(displays),
        displays.to_set() == target.dom(),
        0 <= i <= displays.len(),
        forall|d: isize| #[trigger]
            target.contains_key(d) ==> 0 <= target[d] < m.workspaces.list.len(),
        forall|d: isize, e: isize| #[trigger]
            target.contains_key(d) && #[trigger] target.contains_key(e) && d != e ==> target[d]
                != target[e],
        forall|j: int|
            0 <= j < m.workspaces.list.len() ==> match (
            #[trigger] m.workspaces.list[j]).displayed_on {
                Some(d) => target.contains_key(d.0) && target[d.0] == j && forall|k: int|
                    i <= k < displays.len() ==> #[trigger] displays[k] != d.0,
                None => true,
            },
    ensures
        trees_follow(m, m.mapping_shown(target, displays, i)),
        forall|j: int|
            0 <= j < m.workspaces.list.len() ==> match (#[trigger] m.mapping_shown(
                target,
                displays,
                i,
            ).workspaces.list[j]).displayed_on {
                Some(d) => target.contains_key(d.0),
                None => true,
            },
    decreases displays.len() - i,
{
    if i < displays.len() {
        let d = displays[i];
        let at = target[d];
        assert(displays.to_set().contains(d));
        assert(target.contains_key(d));
        let next = m.workspace_shown(at, DisplayId(d));
        assert(m.workspaces.list[at].displayed_on is None) by {
            match m.workspaces.list[at].displayed_on {
                Some(e) => {
                    assert(target[e.0] == at);
                    assert(displays[i] != e.0);
                },
                None => {},
            }
        }
        assert forall|j: int| 0 <= j < m.workspaces.list.len() implies #[trigger] tree_owned(
            next,
            j,
        ) == tree_owned(m, j) by {
            if j != at {
                match m.workspaces.list[j].displayed_on {
                    Some(e) => {
                        assert(displays[i] != e.0);
                    },
                    None => {},
                }
            }
        }
        assert forall|j: int| 0 <= j < next.workspaces.list.len() implies match (
        #[trigger] next.workspaces.list[j]).displayed_on {
            Some(e) => target.contains_key(e.0) && target[e.0] == j && forall|k: int|
                i + 1 <= k < displays.len() ==> #[trigger] displays[k] != e.0,
            None => true,
        } by {
            if j == at {
                assert forall|k: int| i + 1 <= k < displays.len() implies #[trigger] displays[k]
                    != d by {
                    assert(displays[i] < displays[k]);
                }
            } else {
                assert(m.workspaces.list[j].displayed_on == next.workspaces.list[j].displayed_on
                    || next.workspaces.list[j].displayed_on is None);
            }
        }
        lemma_shown_trees_follow(next, target, displays, i + 1);
        let after = m.mapping_shown(target, displays, i);
        assert forall|j: int| 0 <= j < m.workspaces.list.len() implies #[trigger] tree_owned(
            after,
            j,
        ) == tree_owned(m, j) by {
            assert(tree_owned(next, j) == tree_owned(m, j));
        }
    }
}

/// Only the displays and the names of the workspaces decide what a mapping
/// comes to.
proof fn lemma_mapping_resolved_same(
    m: Model,
    n: Model,
    entries: Seq<crate::config::DisplayMapping>,
    i: int,
    done: Map<isize, int>,
)
    requires
        n.displays == m.displays,
        names_kept(m.workspaces, n.workspaces),
    ensures
        n.mapping_resolved(entries, i, done) == m.mapping_resolved(entries, i, done),
    decreases entries.len() - i,
{
    if i < entries.len() {
        lemma_find_same(m.workspaces, n.workspaces, entries[i].workspace);
        match (
            id_of(m.displays, entries[i].display_fingerprint@),
            m.workspaces.find(entries[i].workspace),
        ) {
            (Some(display_id), Some(at)) => {
                lemma_mapping_resolved_same(m, n, entries, i + 1, done.insert(display_id.0, at));
            },
            _ => {},
        }
    }
}

/// A mapping that covers every connected display and gives no two of them one
/// workspace holds exactly once it is applied: each display shows what the
/// mapping gives it, nothing else is displayed, and every workspace brings the
/// tree it had. Applying it again changes nothing.
pub proof fn law_a_complete_mapping_holds_exactly(m: Model, target: Map<isize, int>)
    requires
        m.config.switching matches Some(switching) && switching.experimental
            && m.mapping_resolved(switching.displayed, 0, Map::empty()) == Ok::<
            Map<isize, int>,
            crate::outcome::WorkspaceSwitchingUnavailable,
        >(target),
        first_index(m.displays.len(), m.unmapped(target)) is None,
        forall|e: isize, f: isize| #[trigger]
            target.contains_key(e) && #[trigger] target.contains_key(f) && e != f ==> target[e]
                != target[f],
        pool_sound(m.workspaces),
        forall|j: int|
            0 <= j < m.workspaces.list.len() ==> match (
            #[trigger] m.workspaces.list[j]).displayed_on {
                Some(display_id) => connected(m.displays, display_id),
                None => true,
            },
    ensures
        m.mapping_applied().mapping_holds(target),
        m.mapping_applied().switching_unavailable is None,
        trees_follow(m, m.mapping_applied()),
        m.mapping_applied().mapping_applied() == m.mapping_applied(),
{
    let after = m.mapping_applied();
    let switching = m.config.switching->0;
    let clear = Model { switching_unavailable: None, ..m };
    lemma_steady_mapping_applied(m);
    lemma_mapping_in_range(m, switching.displayed, 0, Map::empty());
    lemma_first_index(m.displays.len(), m.unmapped(target));
    assert forall|d: isize| #[trigger] target.contains_key(d) implies after.workspaces.list[
        target[d]
    ].displayed_on == Some(DisplayId(d)) && after.switching_unavailable is None by {
        law_a_complete_mapping_is_shown(m, target, d);
    }
    reveal(Model::mapping_applied);
    assert forall|j: int| 0 <= j < m.workspaces.list.len() implies match (
    #[trigger] m.workspaces.list[j]).displayed_on {
        Some(display_id) => target.contains_key(display_id.0),
        None => true,
    } by {
        match m.workspaces.list[j].displayed_on {
            Some(display_id) => {
                lemma_first_index(m.displays.len(), display_is(m.displays, display_id));
                let at = display_at(m.displays, display_id)->0;
                assert(display_is(m.displays, display_id)(at));
                assert(!m.unmapped(target)(at));
            },
            None => {},
        }
    }
    if m.mapping_holds(target) {
        assert(after == clear);
        assert forall|j: int| 0 <= j < m.workspaces.list.len() implies #[trigger] tree_owned(
            after,
            j,
        ) == tree_owned(m, j) by {}
    } else {
        let displays = sorted(target.dom());
        lemma_sorted(target.dom());
        let cleared = clear.displays_cleared(displays, 0);
        lemma_cleared_keeps_reason(clear, displays, 0);
        lemma_shown_keeps_reason(cleared, target, displays, 0);
        lemma_cleared_trees_follow(clear, displays, 0);
        assert forall|j: int| 0 <= j < cleared.workspaces.list.len() implies (
        #[trigger] cleared.workspaces.list[j]).displayed_on is None by {
            match cleared.workspaces.list[j].displayed_on {
                Some(display_id) => {
                    assert(m.workspaces.list[j].displayed_on == Some(display_id));
                    assert(displays.to_set().contains(display_id.0));
                    let k = choose|k: int| 0 <= k < displays.len() && displays[k] == display_id.0;
                    assert(displays[k] == display_id.0);
                },
                None => {},
            }
        }
        lemma_shown_trees_follow(cleared, target, displays, 0);
        assert forall|j: int| 0 <= j < m.workspaces.list.len() implies #[trigger] tree_owned(
            after,
            j,
        ) == tree_owned(m, j) by {
            assert(tree_owned(cleared, j) == tree_owned(clear, j));
            assert(tree_owned(clear, j) == tree_owned(m, j));
        }
    }
    lemma_mapping_resolved_same(m, after, switching.displayed, 0, Map::empty());
    assert(after.unmapped(target) =~= m.unmapped(target));
}

// Focusing.

/// Focusing a workspace that is displayed never moves it: the pool stays as
/// it is, and the focus goes to the display that shows it.
pub proof fn law_focus_never_moves_a_displayed_workspace(
    before: Model,
    request: RequestedName,
    a: Answers,
    i: int,
    display_id: DisplayId,
)
    requires
        before.workspaces.resolve(request) == Some(i),
        before.workspaces.list[i].displayed_on == Some(display_id),
    ensures
        match step(before, Event::WorkspaceFocusRequested { name: request }, a) {
            Ok(after) => after.workspaces == before.workspaces && after.focused_display == Some(
                display_id,
            ),
            Err(_) => false,
        },
{
    reveal(Model::on_workspace_focus);
}

// Deleting.

/// Every workspace of `before` is still in `after`, under its name.
pub open spec fn names_survive(before: Pool, after: Pool) -> bool {
    forall|i: int|
        0 <= i < before.list.len() ==> #[trigger] holds_name(after, before.list[i].name)
}

pub open spec fn holds_name(pool: Pool, name: WorkspaceName) -> bool {
    exists|j: int| 0 <= j < pool.list.len() && (#[trigger] pool.list[j]).name == name
}

proof fn lemma_kept_survive(a: Pool, b: Pool)
    requires
        names_kept(a, b),
    ensures
        names_survive(a, b),
{
    assert forall|i: int| 0 <= i < a.list.len() implies #[trigger] holds_name(
        b,
        a.list[i].name,
    ) by {
        assert(b.list[i].name == a.list[i].name);
    }
}

proof fn lemma_survive_trans(a: Pool, b: Pool, c: Pool)
    requires
        names_survive(a, b),
        names_survive(b, c),
    ensures
        names_survive(a, c),
{
    assert forall|i: int| 0 <= i < a.list.len() implies #[trigger] holds_name(
        c,
        a.list[i].name,
    ) by {
        assert(holds_name(b, a.list[i].name));
        let j = choose|j: int| 0 <= j < b.list.len() && (#[trigger] b.list[j]).name == a.list[i].name;
        assert(holds_name(c, b.list[j].name));
    }
}

proof fn lemma_created_survive(pool: Pool, name: WorkspaceName, origin: WorkspaceOrigin)
    ensures
        names_survive(pool, pool.created(name, origin)),
{
    lemma_first_index(pool.list.len(), pool.follows(name));
    let slot = pool.slot_for(name);
    let after = pool.created(name, origin);
    assert forall|i: int| 0 <= i < pool.list.len() implies #[trigger] holds_name(
        after,
        pool.list[i].name,
    ) by {
        if i < slot {
            assert(after.list[i] == pool.list[i]);
        } else {
            assert(after.list[i + 1] == pool.list[i]);
        }
    }
}

proof fn lemma_declared_survive(m: Model, names: Seq<WorkspaceName>, i: int)
    ensures
        names_survive(m.workspaces, m.declared_from(names, i).workspaces),
    decreases names.len() - i,
{
    if i < names.len() {
        lemma_first_index(m.workspaces.list.len(), m.workspaces.named(names[i].key@));
        let workspaces = match m.workspaces.find(names[i]) {
            Some(at) => m.workspaces.with(
                at,
                Workspace { origin: WorkspaceOrigin::Configuration, ..m.workspaces.list[at] },
            ),
            None => m.workspaces.created(names[i], WorkspaceOrigin::Configuration),
        };
        match m.workspaces.find(names[i]) {
            Some(at) => {
                assert(names_kept(m.workspaces, workspaces));
                lemma_kept_survive(m.workspaces, workspaces);
            },
            None => {
                lemma_created_survive(
                    m.workspaces,
                    names[i],
                    WorkspaceOrigin::Configuration,
                );
            },
        }
        let next = Model { workspaces, ..m };
        lemma_declared_survive(next, names, i + 1);
        lemma_survive_trans(
            m.workspaces,
            workspaces,
            next.declared_from(names, i + 1).workspaces,
        );
    } else {
        lemma_kept_survive(m.workspaces, m.workspaces);
    }
}

proof fn lemma_synced_survive(m: Model)
    ensures
        names_survive(m.workspaces, m.pool_synced().workspaces),
{
    reveal(Model::pool_synced);
    let next = m.declared_from(m.config.workspaces, 0);
    lemma_declared_survive(m, m.config.workspaces, 0);
    assert(names_kept(next.workspaces, m.pool_synced().workspaces));
    lemma_kept_survive(next.workspaces, m.pool_synced().workspaces);
    lemma_survive_trans(m.workspaces, next.workspaces, m.pool_synced().workspaces);
}

proof fn lemma_reconciled_survive(m: Model, synced: Model, a: Answers)
    requires
        names_survive(m.workspaces, synced.workspaces),
    ensures
        match synced.assignment_reconciled(a) {
            Ok(after) => names_survive(m.workspaces, after.workspaces),
            Err(_) => true,
        },
{
    lemma_tame_assignment_reconciled(synced, a);
    match synced.assignment_reconciled(a) {
        Ok(after) => {
            lemma_kept_survive(synced.workspaces, after.workspaces);
            lemma_survive_trans(m.workspaces, synced.workspaces, after.workspaces);
        },
        Err(_) => {},
    }
}

proof fn lemma_config_survive(m: Model, a: Answers, set: crate::config::ConfigSet)
    ensures
        match m.on_config(a, set) {
            Ok(after) => names_survive(m.workspaces, after.workspaces),
            Err(_) => true,
        },
{
    reveal(Model::on_config);
    lemma_kept_survive(m.workspaces, m.workspaces);
    let config = set.select(m.topology@);
    let suspended = config.automatic_tiling_enabled && m.tiling_suspended;
    let changed = Model {
        config,
        rules: config.rules,
        tiling_suspended: suspended,
        tiling_active: config.automatic_tiling_enabled && !suspended,
        config_set: set,
        ..m
    };
    lemma_synced_survive(changed);
    lemma_reconciled_survive(m, changed.pool_synced(), a);
}

proof fn lemma_topology_survive(m: Model, a: Answers, displays: Seq<Display>, topology: String)
    ensures
        match m.on_topology(a, displays, topology) {
            Ok(after) => names_survive(m.workspaces, after.workspaces),
            Err(_) => true,
        },
{
    reveal(Model::on_topology);
    lemma_kept_survive(m.workspaces, m.workspaces);
    let free = Model { interactive: None, deferred: Set::empty(), ..m };
    lemma_calm_orphans_migrated(free, a, displays);
    match free.orphans_migrated(a, displays) {
        Err(_) => {},
        Ok(moved) => {
            let focused = moved.focus_migrated(displays);
            lemma_calm_focus_migrated(moved, displays);
            let hidden = focused.vanished_hidden(displays);
            lemma_steady_vanished_hidden(focused, displays);
            lemma_kept_survive(m.workspaces, moved.workspaces);
            lemma_kept_survive(moved.workspaces, focused.workspaces);
            lemma_kept_survive(focused.workspaces, hidden.workspaces);
            lemma_survive_trans(m.workspaces, moved.workspaces, focused.workspaces);
            lemma_survive_trans(m.workspaces, focused.workspaces, hidden.workspaces);
            let committed = hidden.displays_committed(displays, topology);
            lemma_configured_survive(committed);
            lemma_survive_trans(
                m.workspaces,
                committed.workspaces,
                committed.topology_config().workspaces,
            );
            let configured = if topology@ != m.topology@ {
                committed.topology_config()
            } else {
                committed
            };
            lemma_reconciled_survive(m, configured, a);
        },
    }
}

proof fn lemma_configured_survive(m: Model)
    ensures
        names_survive(m.workspaces, m.topology_config().workspaces),
{
    let config = m.config_set.select(m.topology@);
    lemma_synced_survive(
        Model {
            config,
            tiling_suspended: false,
            tiling_active: config.automatic_tiling_enabled,
            ..m
        },
    );
}

proof fn lemma_woken_survive(m: Model, a: Answers, displays: Seq<Display>, topology: String)
    ensures
        match m.woken(a, displays, topology) {
            Ok(after) => names_survive(m.workspaces, after.workspaces),
            Err(_) => true,
        },
{
    reveal(Model::woken);
    lemma_kept_survive(m.workspaces, m.workspaces);
    lemma_calm_orphans_migrated(m, a, displays);
    match m.orphans_migrated(a, displays) {
        Err(_) => {},
        Ok(moved) => {
            let hidden = moved.vanished_hidden(displays);
            lemma_steady_vanished_hidden(moved, displays);
            lemma_kept_survive(m.workspaces, moved.workspaces);
            lemma_kept_survive(moved.workspaces, hidden.workspaces);
            lemma_survive_trans(m.workspaces, moved.workspaces, hidden.workspaces);
            let committed = Model {
                displays,
                topology,
                last_applied_layouts: hidden.last_applied_layouts.restrict(
                    crate::topology::display_ids(displays),
                ),
                ..hidden
            };
            let configured = committed.topology_config();
            lemma_configured_survive(committed);
            lemma_survive_trans(m.workspaces, committed.workspaces, configured.workspaces);
            let filled = configured.displays_filled();
            lemma_steady_displays_filled(configured);
            lemma_kept_survive(configured.workspaces, filled.workspaces);
            lemma_survive_trans(m.workspaces, configured.workspaces, filled.workspaces);
            let mapped = filled.mapping_applied();
            lemma_steady_mapping_applied(filled);
            lemma_kept_survive(filled.workspaces, mapped.workspaces);
            lemma_survive_trans(m.workspaces, filled.workspaces, mapped.workspaces);
        },
    }
}

proof fn lemma_wake_survive(
    m: Model,
    a: Answers,
    displays: Seq<Display>,
    topology: String,
    windows: Option<Seq<Window>>,
)
    ensures
        match m.on_wake(a, displays, topology, windows) {
            Ok(after) => names_survive(m.workspaces, after.workspaces),
            Err(_) => true,
        },
{
    reveal(Model::on_wake);
    lemma_woken_survive(m, a, displays, topology);
    match m.woken(a, displays, topology) {
        Err(_) => {},
        Ok(awake) => {
            let seen = match windows {
                None => Ok(awake),
                Some(windows) => match awake.remembering(windows).observed(a, windows) {
                    Ok((next, _)) => Ok(next),
                    Err(query) => Err(query),
                },
            };
            match windows {
                None => {
                    lemma_kept_survive(awake.workspaces, awake.workspaces);
                },
                Some(windows) => {
                    lemma_calm_observed(awake.remembering(windows), a, windows);
                    match awake.remembering(windows).observed(a, windows) {
                        Ok((next, _)) => {
                            lemma_kept_survive(awake.workspaces, next.workspaces);
                        },
                        Err(_) => {},
                    }
                },
            }
            match seen {
                Ok(next) => {
                    lemma_survive_trans(m.workspaces, awake.workspaces, next.workspaces);
                    lemma_steady_arranged_revised(next, a);
                    match next.arranged_revised(a) {
                        Ok(after) => {
                            lemma_kept_survive(next.workspaces, after.workspaces);
                            lemma_survive_trans(m.workspaces, next.workspaces, after.workspaces);
                        },
                        Err(_) => {},
                    }
                },
                Err(_) => {},
            }
        },
    }
}

proof fn lemma_stored_survive(m: Model, stored: Seq<PersistedWorkspace>, i: int)
    ensures
        names_survive(m.workspaces, m.all_stored(stored, i).workspaces),
    decreases stored.len() - i,
{
    if i < stored.len() {
        let present = m.stored_present(stored[i]);
        let origin = if crate::assign::spelled_in(m.config.workspaces, stored[i].name) {
            WorkspaceOrigin::Configuration
        } else {
            WorkspaceOrigin::Command
        };
        lemma_kept_survive(m.workspaces, m.workspaces);
        lemma_created_survive(m.workspaces, stored[i].name, origin);
        let noted = present.stored_noted(stored[i]);
        lemma_first_index(
            present.workspaces.list.len(),
            present.workspaces.named(stored[i].name.key@),
        );
        assert(names_kept(present.workspaces, noted.workspaces));
        lemma_kept_survive(present.workspaces, noted.workspaces);
        lemma_survive_trans(m.workspaces, present.workspaces, noted.workspaces);
        lemma_stored_survive(noted, stored, i + 1);
        lemma_survive_trans(
            m.workspaces,
            noted.workspaces,
            noted.all_stored(stored, i + 1).workspaces,
        );
    } else {
        lemma_kept_survive(m.workspaces, m.workspaces);
    }
}

proof fn lemma_loaded_survive(m: Model, a: Answers, stored: Seq<PersistedWorkspace>)
    ensures
        match m.on_workspaces_loaded(a, stored) {
            Ok(after) => names_survive(m.workspaces, after.workspaces),
            Err(_) => true,
        },
{
    reveal(Model::on_workspaces_loaded);
    lemma_kept_survive(m.workspaces, m.workspaces);
    let present = m.all_stored(stored, 0);
    lemma_stored_survive(m, stored, 0);
    let n = present.workspaces.list.len() as int;
    let remembered = present.displays_remembered(0, n);
    crate::laws::every_step::lemma_tame_displays_remembered(present, 0, n);
    lemma_kept_survive(present.workspaces, remembered.workspaces);
    lemma_survive_trans(m.workspaces, present.workspaces, remembered.workspaces);
    lemma_reconciled_survive(m, remembered, a);
}

proof fn lemma_create_survive(m: Model, a: Answers, request: RequestedName)
    ensures
        match m.on_create(a, request) {
            Ok(after) => names_survive(m.workspaces, after.workspaces),
            Err(_) => true,
        },
{
    reveal(Model::on_create);
    lemma_kept_survive(m.workspaces, m.workspaces);
    match m.create_plan(request) {
        Err(_) => {},
        Ok(applied) => {
            let created = Model {
                workspaces: m.workspaces.created(applied.name, WorkspaceOrigin::Command),
                ..m
            };
            lemma_created_survive(m.workspaces, applied.name, WorkspaceOrigin::Command);
            lemma_steady_persisted(created, a);
            match created.workspaces_persisted(a, 0) {
                Ok(next) => {
                    lemma_kept_survive(created.workspaces, next.workspaces);
                    lemma_survive_trans(m.workspaces, created.workspaces, next.workspaces);
                },
                Err(_) => {},
            }
        },
    }
}

/// Deletion is never implicit: no event but the request to delete one ever
/// takes a workspace out of the pool, whatever configuration stops declaring
/// and whichever display goes away.
pub proof fn law_deletion_is_never_implicit(before: Model, event: Event, a: Answers)
    requires
        !(event is WorkspaceDeleteRequested),
    ensures
        match step(before, event, a) {
            Ok(after) => names_survive(before.workspaces, after.workspaces),
            Err(_) => true,
        },
{
    let m = Model { undo_scope: None, ..before };
    match event {
        Event::ConfigChanged(set) => lemma_config_survive(m, a, set@),
        Event::DisplayTopologyChanged { displays, topology } => lemma_topology_survive(
            m,
            a,
            displays@,
            topology,
        ),
        Event::WakeReconciliation { displays, topology, windows } => lemma_wake_survive(
            m,
            a,
            displays@,
            topology,
            match windows {
                Some(list) => Some(list@),
                None => None,
            },
        ),
        Event::WorkspacesLoaded(stored) => lemma_loaded_survive(m, a, stored@),
        Event::WorkspaceCreateRequested { name } => lemma_create_survive(m, a, name),
        _ => {
            law_no_workspace_is_invented(before, event, a);
            match step(before, event, a) {
                Ok(after) => lemma_kept_survive(before.workspaces, after.workspaces),
                Err(_) => {},
            }
        },
    }
}

} // verus!
