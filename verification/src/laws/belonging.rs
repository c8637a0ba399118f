//! Which workspace a window belongs to, what a workspace command moves, and
//! what each display is given to show, said of the pool itself.

use vstd::prelude::*;

verus! {

use crate::answers::{Answer, Answers, Query};
use crate::geometry::{DisplayId, WindowId};
use crate::laws::hotplug::{gone, lemma_called};
use crate::name::{NameCheck, RequestedName, WorkspaceName};
use crate::outcome::{WorkspaceFocusApplied, WorkspaceRefusal};
use crate::state::{Listed, Model};
use crate::table::{ascending, lemma_sorted, sorted};
use crate::text::{first_index, lemma_first_index};
use crate::topology::{display_called, id_of};
use crate::window::{Display, WindowLifecycle};
use crate::workspace::{Pool, Workspace, WorkspaceOrigin};

/// Workspace `i` is the one spelled `key`.
pub open spec fn spelled_at(pool: Pool, key: Seq<char>, i: int) -> bool {
    &&& 0 <= i < pool.list.len()
    &&& pool.list[i].name.key@ == key
    &&& forall|k: int| 0 <= k < i ==> (#[trigger] pool.list[k]).name.key@ != key
}

/// Workspace `i` is the one a display shows.
pub open spec fn shown_at(pool: Pool, display_id: DisplayId, i: int) -> bool {
    &&& 0 <= i < pool.list.len()
    &&& pool.list[i].displayed_on == Some(display_id)
    &&& forall|k: int|
        0 <= k < i ==> (#[trigger] pool.list[k]).displayed_on != Some(display_id)
}

/// Whether a display shows nothing.
pub open spec fn blank(pool: Pool, display_id: DisplayId) -> bool {
    forall|k: int|
        0 <= k < pool.list.len() ==> (#[trigger] pool.list[k]).displayed_on != Some(display_id)
}

/// Whether a window belongs to the workspace spelled `key`.
pub open spec fn owns(pool: Pool, key: Seq<char>, window: isize) -> bool {
    pool.members.contains_key(window) && pool.members[window].key@ == key
}

/// `displays[at]` is the first display with the fingerprint.
pub open spec fn fingerprinted(displays: Seq<Display>, fingerprint: Seq<char>, at: int) -> bool {
    &&& 0 <= at < displays.len()
    &&& displays[at].stable_fingerprint@ == fingerprint
    &&& forall|k: int|
        0 <= k < at ==> (#[trigger] displays[k]).stable_fingerprint@ != fingerprint
}

pub proof fn lemma_spelled(pool: Pool, name: WorkspaceName, i: int)
    ensures
        spelled_at(pool, name.key@, i) <==> pool.find(name) == Some(i),
        pool.find(name) is None <==> forall|k: int|
            0 <= k < pool.list.len() ==> (#[trigger] pool.list[k]).name.key@ != name.key@,
{
    let p = pool.named(name.key@);
    lemma_first_index(pool.list.len(), p);
    assert forall|k: int| #[trigger] p(k) == (pool.list[k].name.key@ == name.key@) by {}
    match pool.find(name) {
        Some(found) => {
            assert(p(found));
            if spelled_at(pool, name.key@, i) {
                assert(p(i));
                if found < i {
                    assert(pool.list[found].name.key@ != name.key@);
                }
            }
            if found == i {
                assert forall|k: int| 0 <= k < i implies (#[trigger] pool.list[k]).name.key@
                    != name.key@ by {
                    assert(!p(k));
                }
            }
        },
        None => {
            assert forall|k: int| 0 <= k < pool.list.len() implies (
            #[trigger] pool.list[k]).name.key@ != name.key@ by {
                assert(!p(k));
            }
            if spelled_at(pool, name.key@, i) {
                assert(pool.list[i].name.key@ != name.key@);
            }
        },
    }
}

pub proof fn lemma_shown(pool: Pool, display_id: DisplayId, i: int)
    ensures
        shown_at(pool, display_id, i) <==> pool.displayed_at(display_id) == Some(i),
        blank(pool, display_id) <==> pool.displayed_at(display_id) is None,
{
    let p = pool.shows(display_id);
    lemma_first_index(pool.list.len(), p);
    assert forall|k: int| #[trigger] p(k) == (pool.list[k].displayed_on == Some(display_id)) by {}
    match pool.displayed_at(display_id) {
        Some(found) => {
            assert(p(found));
            assert(pool.list[found].displayed_on == Some(display_id));
            if shown_at(pool, display_id, i) {
                assert(p(i));
                if found < i {
                    assert(pool.list[found].displayed_on != Some(display_id));
                }
            }
            if found == i {
                assert forall|k: int| 0 <= k < i implies (#[trigger] pool.list[k]).displayed_on
                    != Some(display_id) by {
                    assert(!p(k));
                }
            }
        },
        None => {
            assert forall|k: int| 0 <= k < pool.list.len() implies (
            #[trigger] pool.list[k]).displayed_on != Some(display_id) by {
                assert(!p(k));
            }
            if shown_at(pool, display_id, i) {
                assert(pool.list[i].displayed_on != Some(display_id));
            }
        },
    }
}

pub proof fn lemma_fingerprinted(displays: Seq<Display>, fingerprint: Seq<char>, at: int)
    ensures
        fingerprinted(displays, fingerprint, at) ==> id_of(displays, fingerprint) == Some(
            displays[at].id,
        ),
        id_of(displays, fingerprint) is None <==> forall|k: int|
            0 <= k < displays.len() ==> (#[trigger] displays[k]).stable_fingerprint@
                != fingerprint,
        id_of(displays, fingerprint) is Some ==> exists|k: int| #[trigger]
            fingerprinted(displays, fingerprint, k),
{
    let p = display_called(displays, fingerprint);
    lemma_first_index(displays.len(), p);
    assert forall|k: int| #[trigger] p(k) == (displays[k].stable_fingerprint@ == fingerprint) by {}
    match first_index(displays.len(), p) {
        Some(found) => {
            assert(p(found));
            assert forall|k: int| 0 <= k < found implies (
            #[trigger] displays[k]).stable_fingerprint@ != fingerprint by {
                assert(!p(k));
            }
            assert(fingerprinted(displays, fingerprint, found));
            if fingerprinted(displays, fingerprint, at) {
                assert(p(at));
                if found < at {
                    assert(displays[found].stable_fingerprint@ != fingerprint);
                }
            }
        },
        None => {
            assert forall|k: int| 0 <= k < displays.len() implies (
            #[trigger] displays[k]).stable_fingerprint@ != fingerprint by {
                assert(!p(k));
            }
            if fingerprinted(displays, fingerprint, at) {
                assert(p(at));
            }
        },
    }
}

pub proof fn lemma_members_of(pool: Pool, name: WorkspaceName, window: isize)
    requires
        pool.members.dom().finite(),
    ensures
        pool.members_of(name).contains(window) <==> owns(pool, name.key@, window),
        ascending(pool.members_of(name)),
{
    broadcast use vstd::seq_lib::group_filter_ensures;

    let all = sorted(pool.members.dom());
    lemma_sorted(pool.members.dom());
    let pred = pool.belongs(name);
    let left = all.filter(pred);
    if left.contains(window) {
        let k = choose|k: int| 0 <= k < left.len() && left[k] == window;
        all.lemma_filter_pred(pred, k);
    }
    if owns(pool, name.key@, window) {
        assert(all.to_set().contains(window));
        let k = choose|k: int| 0 <= k < all.len() && all[k] == window;
        assert(pred(all[k]));
        assert(left.contains(all[k]));
    }
    lemma_filter_ascending(all, pred);
}

pub proof fn lemma_filter_ascending(all: Seq<isize>, pred: spec_fn(isize) -> bool)
    requires
        ascending(all),
    ensures
        ascending(all.filter(pred)),
    decreases all.len(),
{
    reveal(Seq::filter);
    if all.len() > 0 {
        let rest = all.drop_last();
        assert(ascending(rest));
        lemma_filter_ascending(rest, pred);
        let left = rest.filter(pred);
        if pred(all.last()) {
            let longer = left.push(all.last());
            assert forall|i: int, j: int| 0 <= i < j < longer.len() implies longer[i]
                < longer[j] by {
                if j == left.len() {
                    rest.lemma_filter_contains_rev(pred, left[i]);
                    let k = choose|k: int| 0 <= k < rest.len() && rest[k] == left[i];
                    assert(all[k] < all[all.len() - 1]);
                }
            }
            assert(ascending(longer));
        }
    }
}

// Belonging.

/// A managed window that belongs to no workspace joins the one its display
/// shows, and stays without one where its display shows none. No other
/// membership changes.
pub proof fn law_windows_join_the_workspace_they_are_in(m: Model, id: isize, at: int)
    ensures
        ({
            let after = m.unassigned_assigned().workspaces;
            let home = m.inventory[id].window.display_id;
            &&& after.list == m.workspaces.list
            &&& (m.workspaces.members.contains_key(id) ==> after.members.contains_key(id)
                && after.members[id] == m.workspaces.members[id])
            &&& (!m.workspaces.members.contains_key(id) && m.inventory.contains_key(id) && shown_at(
                m.workspaces,
                home,
                at,
            ) ==> after.members.contains_key(id) && after.members[id]
                == m.workspaces.list[at].name)
            &&& (!m.workspaces.members.contains_key(id) && (!m.inventory.contains_key(id) || blank(
                m.workspaces,
                home,
            )) ==> !after.members.contains_key(id))
        }),
{
    reveal(Model::unassigned_assigned);
    lemma_shown(m.workspaces, m.inventory[id].window.display_id, at);
}

// What each display is given.

/// A hidden workspace that owns no window.
pub open spec fn free(m: Model, i: int) -> bool {
    &&& 0 <= i < m.workspaces.list.len()
    &&& m.workspaces.list[i].displayed_on is None
    &&& forall|w: isize| !#[trigger] owns(m.workspaces, m.workspaces.list[i].name.key@, w)
}

pub proof fn lemma_free(m: Model, i: int)
    requires
        m.workspaces.members.dom().finite(),
        0 <= i < m.workspaces.list.len(),
    ensures
        m.vacant(i) <==> free(m, i),
{
    let name = m.workspaces.list[i].name;
    let members = m.workspaces.members_of(name);
    if members.len() == 0 {
        assert forall|w: isize| !#[trigger] owns(m.workspaces, name.key@, w) by {
            lemma_members_of(m.workspaces, name, w);
        }
    } else {
        lemma_members_of(m.workspaces, name, members[0]);
        assert(members.contains(members[0]));
        assert(owns(m.workspaces, name.key@, members[0]));
    }
}

proof fn lemma_chosen_vacant(m: Model, k: int)
    requires
        m.workspaces.members.dom().finite(),
        0 <= k <= m.config.workspaces.len(),
    ensures
        match m.first_vacant(k) {
            Some(i) => {
                &&& free(m, i)
                &&& forall|j: int, c: int|
                    #![trigger m.workspaces.list[j], m.config.workspaces[c]]
                    free(m, j) && k <= c < m.config.workspaces.len()
                        && m.config.workspaces[c].key@ == m.workspaces.list[j].name.key@
                        ==> exists|e: int|
                        k <= e <= c && (#[trigger] m.config.workspaces[e]).key@
                            == m.workspaces.list[i].name.key@
                &&& ((forall|c: int|
                    k <= c < m.config.workspaces.len() ==> (
                    #[trigger] m.config.workspaces[c]).key@ != m.workspaces.list[i].name.key@)
                    ==> forall|j: int| #[trigger] free(m, j) ==> i <= j)
            },
            None => forall|j: int| !#[trigger] free(m, j),
        },
    decreases m.config.workspaces.len() - k,
{
    let n = m.workspaces.list.len();
    assert forall|j: int| 0 <= j < n implies m.vacant(j) == #[trigger] free(m, j) by {
        lemma_free(m, j);
    }
    if k >= m.config.workspaces.len() {
        let p = m.any_vacant();
        lemma_first_index(n, p);
        assert forall|j: int| 0 <= j < n implies #[trigger] p(j) == free(m, j) by {}
        match m.first_vacant(k) {
            Some(i) => {
                assert(p(i));
                assert forall|j: int| #[trigger] free(m, j) implies i <= j by {
                    if j < i {
                        assert(!p(j));
                    }
                }
            },
            None => {
                assert forall|j: int| !#[trigger] free(m, j) by {
                    if free(m, j) {
                        assert(!p(j));
                    }
                }
            },
        }
    } else {
        let name = m.config.workspaces[k];
        let p = m.vacant_spelled(name);
        lemma_first_index(n, p);
        assert forall|j: int| 0 <= j < n implies #[trigger] p(j) == (free(m, j)
            && m.workspaces.list[j].name.key@ == name.key@) by {}
        match first_index(n, p) {
            Some(i) => {
                assert(p(i));
                assert forall|j: int, c: int|
                    #![trigger m.workspaces.list[j], m.config.workspaces[c]]
                    free(m, j) && k <= c < m.config.workspaces.len()
                        && m.config.workspaces[c].key@ == m.workspaces.list[j].name.key@ implies
                    exists|e: int|
                    k <= e <= c && (#[trigger] m.config.workspaces[e]).key@
                        == m.workspaces.list[i].name.key@ by {
                    assert(m.config.workspaces[k].key@ == m.workspaces.list[i].name.key@);
                }
                assert(m.config.workspaces[k].key@ == m.workspaces.list[i].name.key@);
            },
            None => {
                lemma_chosen_vacant(m, k + 1);
                match m.first_vacant(k + 1) {
                    Some(i) => {
                        assert forall|j: int, c: int|
                            #![trigger m.workspaces.list[j], m.config.workspaces[c]]
                            free(m, j) && k <= c < m.config.workspaces.len()
                                && m.config.workspaces[c].key@
                                == m.workspaces.list[j].name.key@ implies exists|e: int|
                            k <= e <= c && (#[trigger] m.config.workspaces[e]).key@
                                == m.workspaces.list[i].name.key@ by {
                            if c == k {
                                assert(!p(j));
                            } else {
                                let e = choose|e: int|
                                    k + 1 <= e <= c && (
                                    #[trigger] m.config.workspaces[e]).key@
                                        == m.workspaces.list[i].name.key@;
                                assert(k <= e <= c);
                            }
                        }
                    },
                    None => {},
                }
            },
        }
    }
}

/// What a display without a workspace is given: a hidden workspace that was
/// last written as shown there, the first of those by name; and where there is
/// none a hidden one that owns no window, in the order configuration declares
/// them and by name after that. It gets none only where every hidden workspace
/// owns windows.
pub proof fn law_what_an_empty_display_is_given(m: Model, fingerprint: Seq<char>, j: int, c: int)
    requires
        m.workspaces.members.dom().finite(),
    ensures
        ({
            let stored = |k: int|
                0 <= k < m.workspaces.list.len() && m.workspaces.list[k].displayed_on is None && (
                m.workspaces.list[k].pending_display matches Some(text) && text@ == fingerprint);
            match m.chosen_for(fingerprint) {
                Some(i) => {
                    &&& m.workspaces.list[i].displayed_on is None
                    &&& (stored(j) ==> stored(i) && i <= j)
                    &&& (!stored(i) ==> free(m, i))
                    &&& (!stored(i) && free(m, j) && 0 <= c < m.config.workspaces.len()
                        && m.config.workspaces[c].key@ == m.workspaces.list[j].name.key@
                        ==> exists|e: int|
                        0 <= e <= c && (#[trigger] m.config.workspaces[e]).key@
                            == m.workspaces.list[i].name.key@)
                    &&& (!stored(i) && free(m, j) && (forall|e: int|
                        0 <= e < m.config.workspaces.len() ==> (
                        #[trigger] m.config.workspaces[e]).key@
                            != m.workspaces.list[i].name.key@) ==> i <= j)
                },
                None => !stored(j) && !free(m, j),
            }
        }),
{
    let p = m.remembers(fingerprint);
    lemma_first_index(m.workspaces.list.len(), p);
    match first_index(m.workspaces.list.len(), p) {
        Some(i) => {
            assert(p(i));
            if 0 <= j < i {
                assert(!p(j));
            }
        },
        None => {
            if 0 <= j < m.workspaces.list.len() {
                assert(!p(j));
            }
            lemma_chosen_vacant(m, 0);
            match m.first_vacant(0) {
                Some(i) => {
                    assert(!p(i));
                    if free(m, j) && 0 <= c < m.config.workspaces.len() {
                        assert(m.workspaces.list[j] == m.workspaces.list[j]);
                        assert(m.config.workspaces[c] == m.config.workspaces[c]);
                    }
                },
                None => {},
            }
        },
    }
}

// Switching.

proof fn lemma_leaving(
    m: Model,
    name: WorkspaceName,
    members: Seq<isize>,
    i: int,
    done: Seq<WindowId>,
    id: isize,
)
    requires
        0 <= i <= members.len(),
    ensures
        match m.leaving(name, members, i, done) {
            Ok(park) => {
                &&& (park.contains(WindowId(id)) <==> done.contains(WindowId(id)) || (exists|k: int|
                    i <= k < members.len() && #[trigger] members[k] == id)
                    && m.inventory.contains_key(id) && !m.parked_windows.contains_key(id)
                    && m.inventory[id].window.lifecycle != WindowLifecycle::Minimized)
                &&& ((exists|k: int| i <= k < members.len() && #[trigger] members[k] == id)
                    && m.inventory.contains_key(id) && !m.parked_windows.contains_key(id)
                    ==> m.inventory[id].window.lifecycle != WindowLifecycle::Fullscreen)
            },
            Err(refusal) => exists|k: int|
                i <= k < members.len() && m.inventory.contains_key(#[trigger] members[k])
                    && !m.parked_windows.contains_key(members[k])
                    && m.inventory[members[k]].window.lifecycle == WindowLifecycle::Fullscreen
                    && refusal == (WorkspaceRefusal::FullscreenMember {
                    name,
                    window_id: WindowId(members[k]),
                }),
        },
    decreases members.len() - i,
{
    if i < members.len() {
        let at = members[i];
        let more = done.push(WindowId(at));
        assert(more.contains(WindowId(id)) == (done.contains(WindowId(id)) || at == id)) by {
            if done.contains(WindowId(id)) {
                let k = choose|k: int| 0 <= k < done.len() && done[k] == WindowId(id);
                assert(more[k] == WindowId(id));
            }
            if at == id {
                assert(more[done.len() as int] == WindowId(id));
            }
            if more.contains(WindowId(id)) && at != id {
                let k = choose|k: int| 0 <= k < more.len() && more[k] == WindowId(id);
                assert(done[k] == WindowId(id));
            }
        }
        lemma_leaving(m, name, members, i + 1, done, id);
        lemma_leaving(m, name, members, i + 1, more, id);
        if at == id {
            assert(members[i] == id);
        }
        assert((exists|k: int| i <= k < members.len() && #[trigger] members[k] == id) == (at == id
            || exists|k: int| i + 1 <= k < members.len() && #[trigger] members[k] == id)) by {
            if exists|k: int| i <= k < members.len() && #[trigger] members[k] == id {
                let k = choose|k: int| i <= k < members.len() && #[trigger] members[k] == id;
                if k > i {
                    assert(members[k] == id);
                }
            }
        }
        if m.inventory.contains_key(at) && !m.parked_windows.contains_key(at)
            && m.inventory[at].window.lifecycle == WindowLifecycle::Fullscreen {
            assert(m.inventory.contains_key(members[i]));
        }
    }
}

/// What displaying a hidden workspace would move: of the workspace the display
/// shows, every managed window that is neither parked already nor minimized
/// leaves; of the target every window this session parked comes back; no other
/// window moves. It is refused while a switch is under way or windows are
/// stranded, where a window that would leave is full screen, and, if anything
/// would move, unless experimental switching is in effect, the database is
/// healthy and the parking site verified.
pub proof fn law_what_a_switch_moves(
    m: Model,
    display_id: DisplayId,
    request: RequestedName,
    id: isize,
    shown: int,
)
    requires
        m.workspaces.members.dom().finite(),
    ensures
        match m.switch_plan_on(display_id, request) {
            Ok(plan) => {
                &&& plan.display_id == display_id
                &&& !m.paused
                &&& m.switch is None
                &&& m.switch_degraded is None
                &&& !gone(m.displays, display_id)
                &&& (request.name matches NameCheck::Valid(name) && plan.target.key@ == name.key@)
                &&& (shown_at(m.workspaces, display_id, shown) ==> plan.outgoing == Some(
                    m.workspaces.list[shown].name,
                ))
                &&& (blank(m.workspaces, display_id) ==> plan.outgoing is None && plan.park.len()
                    == 0)
                &&& (shown_at(m.workspaces, display_id, shown) ==> (plan.park.contains(
                    WindowId(id),
                ) <==> owns(m.workspaces, m.workspaces.list[shown].name.key@, id)
                    && m.inventory.contains_key(id) && !m.parked_windows.contains_key(id)
                    && m.inventory[id].window.lifecycle != WindowLifecycle::Minimized))
                &&& (plan.park.contains(WindowId(id)) ==> m.inventory[id].window.lifecycle
                    != WindowLifecycle::Fullscreen)
                &&& (plan.restore.contains(WindowId(id)) <==> owns(
                    m.workspaces,
                    plan.target.key@,
                    id,
                ) && m.parked_windows.contains_key(id))
                &&& (plan.park.len() > 0 || plan.restore.len() > 0 ==> {
                    &&& m.persistence_health is Healthy
                    &&& m.parking_capability is Verified
                    &&& m.switching_unavailable is None
                    &&& (m.config.switching matches Some(switching) && switching.experimental)
                })
            },
            Err(_) => true,
        },
{
    broadcast use vstd::seq_lib::group_filter_ensures;

    lemma_called(m.displays, display_id, 0);
    match m.switch_plan_on(display_id, request) {
        Err(_) => {},
        Ok(plan) => {
            let name = request.name->Valid_0;
            lemma_spelled(m.workspaces, name, m.workspaces.find(name)->0);
            lemma_shown(m.workspaces, display_id, shown);
            match m.workspaces.displayed_at(display_id) {
                Some(at) => {
                    lemma_shown(m.workspaces, display_id, at);
                    let outgoing = m.workspaces.list[at].name;
                    let members = m.workspaces.members_of(outgoing);
                    lemma_leaving(m, outgoing, members, 0, Seq::empty(), id);
                    lemma_members_of(m.workspaces, outgoing, id);
                    assert(members.contains(id) == (exists|k: int|
                        0 <= k < members.len() && #[trigger] members[k] == id));
                    assert(!Seq::<WindowId>::empty().contains(WindowId(id)));
                },
                None => {},
            }
            let members = m.workspaces.members_of(plan.target);
            let pred = m.is_parked();
            let back = members.filter(pred);
            lemma_members_of(m.workspaces, plan.target, id);
            if plan.restore.contains(WindowId(id)) {
                let k = choose|k: int|
                    0 <= k < plan.restore.len() && plan.restore[k] == WindowId(id);
                assert(back[k] == id);
                members.lemma_filter_pred(pred, k);
                members.lemma_filter_contains_rev(pred, id);
            }
            if members.contains(id) && pred(id) {
                let k = choose|k: int| 0 <= k < members.len() && members[k] == id;
                assert(back.contains(members[k]));
                let n = choose|n: int| 0 <= n < back.len() && back[n] == id;
                assert(plan.restore[n] == WindowId(id));
            }
        },
    }
}

/// The window a workspace's focus goes to is the one that last had it there,
/// as long as it is managed, and else the member with the smallest handle that
/// is.
pub proof fn law_attention_goes_to_the_last_focused(m: Model, i: int, id: isize)
    requires
        m.workspaces.members.dom().finite(),
        0 <= i < m.workspaces.list.len(),
    ensures
        match m.workspaces.list[i].last_focused {
            Some(window_id) => m.inventory.contains_key(window_id.0) ==> m.attention(i) == Some(
                window_id,
            ),
            None => true,
        },
        !(m.workspaces.list[i].last_focused matches Some(w) && m.inventory.contains_key(w.0))
            ==> match m.attention(i) {
            Some(found) => {
                &&& owns(m.workspaces, m.workspaces.list[i].name.key@, found.0)
                &&& m.inventory.contains_key(found.0)
                &&& (owns(m.workspaces, m.workspaces.list[i].name.key@, id)
                    && m.inventory.contains_key(id) ==> found.0 <= id)
            },
            None => !(owns(m.workspaces, m.workspaces.list[i].name.key@, id)
                && m.inventory.contains_key(id)),
        },
{
    let name = m.workspaces.list[i].name;
    let members = m.workspaces.members_of(name);
    let p = m.live_at(members);
    lemma_first_index(members.len(), p);
    lemma_members_of(m.workspaces, name, id);
    match first_index(members.len(), p) {
        Some(k) => {
            assert(p(k));
            lemma_members_of(m.workspaces, name, members[k]);
            assert(members.contains(members[k]));
            if owns(m.workspaces, name.key@, id) && m.inventory.contains_key(id) {
                let n = choose|n: int| 0 <= n < members.len() && members[n] == id;
                assert(p(n));
                if n < k {
                    assert(!p(n));
                } else if k < n {
                    assert(members[k] < members[n]);
                }
            }
        },
        None => {
            if owns(m.workspaces, name.key@, id) && m.inventory.contains_key(id) {
                let n = choose|n: int| 0 <= n < members.len() && members[n] == id;
                assert(!p(n));
            }
        },
    }
}

/// What focusing a workspace would do. One that is displayed gets the focus
/// where it is; a hidden one is displayed on the focused display.
pub proof fn law_focusing_shows_on_the_focused_display(m: Model, request: RequestedName, i: int)
    requires
        request.name matches NameCheck::Valid(name) && spelled_at(m.workspaces, name.key@, i),
    ensures
        match m.focus_plan(request) {
            Ok(WorkspaceFocusApplied::FocusedExisting { name, display_id, focused_window }) => {
                &&& m.workspaces.list[i].displayed_on == Some(display_id)
                &&& name == m.workspaces.list[i].name
                &&& focused_window == m.attention(i)
            },
            Ok(WorkspaceFocusApplied::Displayed { name, display_id, .. }) => {
                &&& m.workspaces.list[i].displayed_on is None
                &&& m.focused_display == Some(display_id)
                &&& name == m.workspaces.list[i].name
            },
            Ok(WorkspaceFocusApplied::SwitchStarted { name, display_id, .. }) => {
                &&& m.workspaces.list[i].displayed_on is None
                &&& m.focused_display == Some(display_id)
                &&& name == m.workspaces.list[i].name
            },
            Err(_) => m.workspaces.list[i].displayed_on is None,
        },
{
    let name = request.name->Valid_0;
    lemma_spelled(m.workspaces, name, i);
}

/// Moving a workspace is possible exactly where no management is paused, no
/// switch is under way, the workspace is displayed, and the target display is
/// connected and another one; it goes from where it is to there, and what was
/// there comes back.
pub proof fn law_what_a_workspace_move_does(
    m: Model,
    request: RequestedName,
    to: DisplayId,
    i: int,
    there: int,
)
    requires
        request.name matches NameCheck::Valid(name) && spelled_at(m.workspaces, name.key@, i),
    ensures
        match m.move_plan(request, to) {
            Ok(applied) => {
                &&& !m.paused
                &&& m.switch is None
                &&& m.workspaces.list[i].displayed_on == Some(applied.from_display_id)
                &&& applied.to_display_id == to
                &&& applied.from_display_id != to
                &&& !gone(m.displays, to)
                &&& (shown_at(m.workspaces, to, there) ==> applied.swapped_with == Some(
                    m.workspaces.list[there].name,
                ))
                &&& (blank(m.workspaces, to) ==> applied.swapped_with is None)
            },
            Err(_) => m.paused || m.switch is Some || m.workspaces.list[i].displayed_on is None
                || gone(m.displays, to) || m.workspaces.list[i].displayed_on == Some(to),
        },
{
    let name = request.name->Valid_0;
    lemma_spelled(m.workspaces, name, i);
    lemma_shown(m.workspaces, to, there);
    lemma_called(m.displays, to, 0);
}

/// Two displays that exchange what they show exchange their trees too, and
/// every other display keeps its own; what the visual order lists under either
/// is dropped, and nothing else of it.
pub proof fn law_trees_travel_with_their_workspaces(
    m: Model,
    from: DisplayId,
    to: DisplayId,
    d: isize,
    entry: Listed,
)
    requires
        from != to,
    ensures
        ({
            let after = m.trees_exchanged(from, to);
            &&& after.trees.contains_key(to.0) == m.trees.contains_key(from.0)
            &&& (m.trees.contains_key(from.0) ==> after.trees[to.0] == m.trees[from.0])
            &&& after.trees.contains_key(from.0) == m.trees.contains_key(to.0)
            &&& (m.trees.contains_key(to.0) ==> after.trees[from.0] == m.trees[to.0])
            &&& (d != from.0 && d != to.0 ==> after.trees.contains_key(d)
                == m.trees.contains_key(d) && after.trees[d] == m.trees[d])
            &&& (after.order.contains(entry) <==> m.order.contains(entry) && entry.display_id
                != from && entry.display_id != to)
        }),
        forall|j: int|
            0 <= j < m.workspaces.list.len() ==> (#[trigger] m.workspaces.swapped(
                from,
                to,
            ).list[j]) == (Workspace {
                displayed_on: if m.workspaces.list[j].displayed_on == Some(from) {
                    Some(to)
                } else if m.workspaces.list[j].displayed_on == Some(to) {
                    Some(from)
                } else {
                    m.workspaces.list[j].displayed_on
                },
                ..m.workspaces.list[j]
            }),
{
    lemma_kept_by(m.order, Model::off_display(from), entry);
    lemma_kept_by(m.order.filter(Model::off_display(from)), Model::off_display(to), entry);
}

pub proof fn lemma_kept_by(all: Seq<Listed>, pred: spec_fn(Listed) -> bool, entry: Listed)
    ensures
        all.filter(pred).contains(entry) <==> all.contains(entry) && pred(entry),
{
    broadcast use vstd::seq_lib::group_filter_ensures;

    let left = all.filter(pred);
    if left.contains(entry) {
        let k = choose|k: int| 0 <= k < left.len() && left[k] == entry;
        all.lemma_filter_pred(pred, k);
        all.lemma_filter_contains_rev(pred, entry);
    }
    if all.contains(entry) && pred(entry) {
        let k = choose|k: int| 0 <= k < all.len() && all[k] == entry;
        assert(left.contains(all[k]));
    }
}

/// Creating is refused exactly for a name that is invalid or spells a
/// workspace that is there, and what is created is hidden, owned by command
/// and empty, while every other workspace stays as it is.
pub proof fn law_what_is_created(m: Model, request: RequestedName, k: int)
    ensures
        match (m.create_plan(request), request.name) {
            (Ok(applied), NameCheck::Valid(name)) => {
                &&& applied.name == name
                &&& forall|j: int|
                    0 <= j < m.workspaces.list.len() ==> (
                    #[trigger] m.workspaces.list[j]).name.key@ != name.key@
            },
            (Err(WorkspaceRefusal::AlreadyExists { name: existing }), NameCheck::Valid(name)) =>
                existing.key@ == name.key@ && exists|j: int|
                0 <= j < m.workspaces.list.len() && (#[trigger] m.workspaces.list[j]).name
                    == existing,
            (Err(WorkspaceRefusal::InvalidName { reason }), NameCheck::Invalid(given)) => reason
                == given,
            _ => false,
        },
        request.name matches NameCheck::Valid(name) ==> ({
            let after = m.workspaces.created(name, WorkspaceOrigin::Command);
            exists|at: int|
                #![trigger after.list[at]]
                {
                    &&& 0 <= at <= m.workspaces.list.len()
                    &&& after.members == m.workspaces.members
                    &&& after.list == m.workspaces.list.insert(at, after.list[at])
                    &&& after.list[at].name == name
                    &&& after.list[at].origin == WorkspaceOrigin::Command
                    &&& after.list[at].displayed_on is None
                    &&& after.list[at].stashed_tree is None
                    &&& after.list[at].last_focused is None
                    &&& after.list[at].saved is None
                }
        }),
{
    match request.name {
        NameCheck::Valid(name) => {
            let found = m.workspaces.find(name);
            lemma_spelled(m.workspaces, name, found->0);
            lemma_first_index(m.workspaces.list.len(), m.workspaces.follows(name));
            let at = m.workspaces.slot_for(name);
            let after = m.workspaces.created(name, WorkspaceOrigin::Command);
            assert(after.list[at].name == name);
            if found is Some {
                assert(m.workspaces.list[found->0].name.key@ == name.key@);
            }
        },
        NameCheck::Invalid(_) => {},
    }
}

/// Deleting is possible exactly for a hidden workspace that owns neither a
/// window nor a dormant position and that configuration does not declare.
pub proof fn law_what_may_be_deleted(m: Model, a: Answers, request: RequestedName, i: int)
    requires
        m.workspaces.members.dom().finite(),
        request.name matches NameCheck::Valid(name) && spelled_at(m.workspaces, name.key@, i),
    ensures
        match m.delete_plan(a, request) {
            Ok(Ok(applied)) => {
                &&& applied.name == m.workspaces.list[i].name
                &&& free(m, i)
                &&& m.workspaces.list[i].origin == WorkspaceOrigin::Command
                &&& (m.workspaces.list[i].stashed_tree matches Some(tree) ==> (a.look_up(
                    Query::Shape { tree },
                ) matches Some(Answer::Shape(shape)) && shape.dormant@.len() == 0))
            },
            Ok(Err(_)) => {
                ||| !free(m, i)
                ||| m.workspaces.list[i].origin == WorkspaceOrigin::Configuration
                ||| (m.workspaces.list[i].stashed_tree matches Some(tree) && (a.look_up(
                    Query::Shape { tree },
                ) matches Some(Answer::Shape(shape)) && shape.dormant@.len() > 0))
            },
            Err(_) => true,
        },
{
    let name = request.name->Valid_0;
    lemma_spelled(m.workspaces, name, i);
    lemma_free(m, i);
}

} // verus!
