//! What every step keeps: the logs only grow, the pool stays sound, and no
//! window is parked before its entry is durable.

use vstd::prelude::*;

verus! {

use crate::answers::{Answers, Query};
use crate::config::DisplayMapping;
use crate::laws::frame::{
    lemma_arranged, lemma_logs_kept_trans, lemma_workspaces_persisted, logs_kept, only_arranged,
};
use crate::geometry::{DisplayId, Rect, WindowId};
use crate::glance::same_refusal;
use crate::name::{collides, name_before, WorkspaceName};
use crate::ranking::Ranked;
use crate::state::Model;
use crate::table::{lemma_sorted, sorted};
use crate::text::{bytes_before, lemma_first_index};
use crate::topology::display_at;
use crate::window::{same_inventory, Display};
use crate::workspace::{Pool, Workspace, WorkspaceOrigin};

/// No two workspaces share a name.
pub open spec fn names_distinct(pool: Pool) -> bool {
    forall|i: int, j: int|
        0 <= i < j < pool.list.len() ==> !collides(pool.list[i].name, pool.list[j].name)
}

/// No display shows two workspaces.
pub open spec fn displays_distinct(pool: Pool) -> bool {
    forall|i: int, j: int|
        #![trigger pool.list[i], pool.list[j]]
        0 <= i < j < pool.list.len() && pool.list[i].displayed_on is Some
            ==> pool.list[i].displayed_on != pool.list[j].displayed_on
}

/// Every member belongs to a workspace of the pool.
pub open spec fn members_known(pool: Pool) -> bool {
    forall|window: isize| #[trigger]
        pool.members.contains_key(window) ==> pool.find(pool.members[window]) is Some
}

/// The workspaces stand in name order.
pub open spec fn in_name_order(pool: Pool) -> bool {
    forall|i: int, j: int|
        0 <= i < j < pool.list.len() ==> !name_before(pool.list[j].name, pool.list[i].name)
}

pub open spec fn pool_sound(pool: Pool) -> bool {
    &&& names_distinct(pool)
    &&& displays_distinct(pool)
    &&& members_known(pool)
    &&& in_name_order(pool)
}

/// What every part of a step keeps.
pub open spec fn steady(before: Model, after: Model) -> bool {
    &&& logs_kept(before, after)
    &&& (pool_sound(before.workspaces) ==> pool_sound(after.workspaces))
    &&& after.capture_holds == before.capture_holds
    &&& after.capture_suspended == before.capture_suspended
}

/// Nothing a reader of the state could notice is different: what was observed
/// last, how many captures are held and what a command gathers for its undo
/// are the engine's own books.
pub open spec fn unnoticed(before: Model, after: Model) -> bool {
    &&& same_inventory(after.inventory, before.inventory)
    &&& same_refusal(after.last_parking_refusal, before.last_parking_refusal)
    &&& after == (Model {
        revision: after.revision,
        undo_scope: after.undo_scope,
        observed_windows: after.observed_windows,
        capture_holds: after.capture_holds,
        inventory: after.inventory,
        last_parking_refusal: after.last_parking_refusal,
        ..before
    })
}

/// A change that can be noticed was counted, unless the revision is at its
/// limit.
pub open spec fn marked(before: Model, after: Result<Model, Query>) -> bool {
    match after {
        Ok(next) => counted(before, after) || next == before || unnoticed(before, next),
        Err(_) => true,
    }
}

/// Every state looks like itself.
pub proof fn lemma_unnoticed_same(m: Model, after: Model)
    requires
        after == (Model {
            revision: after.revision,
            undo_scope: after.undo_scope,
            observed_windows: after.observed_windows,
            capture_holds: after.capture_holds,
            ..m
        }),
    ensures
        unnoticed(m, after),
{
}

/// The revision was raised, unless it is at its limit.
pub open spec fn counted(before: Model, after: Result<Model, Query>) -> bool {
    match after {
        Ok(next) => next.revision > before.revision || before.revision == u64::MAX,
        Err(_) => true,
    }
}

/// A scope that was not open is not open.
pub open spec fn unscoped(before: Model, after: Model) -> bool {
    before.undo_scope is None ==> after.undo_scope is None
}

/// The same workspaces under the same names.
pub open spec fn names_kept(before: Pool, after: Pool) -> bool {
    &&& after.list.len() == before.list.len()
    &&& forall|i: int|
        0 <= i < before.list.len() ==> (#[trigger] after.list[i]).name == before.list[i].name
}

/// Each workspace where it was.
pub open spec fn displays_kept(before: Pool, after: Pool) -> bool {
    forall|i: int|
        0 <= i < before.list.len() ==> (#[trigger] after.list[i]).displayed_on
            == before.list[i].displayed_on
}

/// The same displays, under the same configuration.
pub open spec fn grounded(before: Model, after: Model) -> bool {
    &&& after.displays == before.displays
    &&& after.topology == before.topology
    &&& after.config == before.config
    &&& after.config_set == before.config_set
}

/// Steady, and no workspace came, went or was renamed.
pub open spec fn named(before: Model, after: Model) -> bool {
    &&& steady(before, after)
    &&& names_kept(before.workspaces, after.workspaces)
    &&& grounded(before, after)
}

/// Steady, with the workspaces and what each display shows as they were.
pub open spec fn kept(before: Model, after: Model) -> bool {
    named(before, after) && displays_kept(before.workspaces, after.workspaces)
}

/// [`steady`], and no scope is left open.
pub open spec fn loose(before: Model, after: Model) -> bool {
    steady(before, after) && unscoped(before, after)
}

/// [`named`], and no scope is left open.
pub open spec fn tame(before: Model, after: Model) -> bool {
    named(before, after) && unscoped(before, after)
}

/// [`kept`], and no scope is left open.
pub open spec fn calm(before: Model, after: Model) -> bool {
    kept(before, after) && unscoped(before, after)
}

pub open spec fn loose_or_asked(before: Model, after: Result<Model, Query>) -> bool {
    match after {
        Ok(next) => loose(before, next),
        Err(_) => true,
    }
}

pub open spec fn tame_or_asked(before: Model, after: Result<Model, Query>) -> bool {
    match after {
        Ok(next) => tame(before, next),
        Err(_) => true,
    }
}

pub open spec fn calm_or_asked(before: Model, after: Result<Model, Query>) -> bool {
    match after {
        Ok(next) => calm(before, next),
        Err(_) => true,
    }
}

/// What two parts of a step both keep, the two together keep.
pub proof fn lemma_trans(a: Model, b: Model, c: Model)
    requires
        steady(a, b),
        steady(b, c),
    ensures
        steady(a, c),
        named(a, b) && named(b, c) ==> named(a, c),
        kept(a, b) && kept(b, c) ==> kept(a, c),
        unscoped(a, b) && unscoped(b, c) ==> unscoped(a, c),
{
    lemma_logs_kept_trans(a, b, c);
    if named(a, b) && named(b, c) {
        assert forall|i: int| 0 <= i < a.workspaces.list.len() implies (
        #[trigger] c.workspaces.list[i]).name == a.workspaces.list[i].name by {
            assert(b.workspaces.list[i].name == a.workspaces.list[i].name);
        }
        if kept(a, b) && kept(b, c) {
            assert forall|i: int| 0 <= i < a.workspaces.list.len() implies (
            #[trigger] c.workspaces.list[i]).displayed_on
                == a.workspaces.list[i].displayed_on by {
                assert(b.workspaces.list[i].displayed_on == a.workspaces.list[i].displayed_on);
            }
        }
    }
}

pub proof fn lemma_then(a: Model, b: Model, c: Result<Model, Query>)
    requires
        loose(a, b),
        loose_or_asked(b, c),
    ensures
        loose_or_asked(a, c),
        tame(a, b) && tame_or_asked(b, c) ==> tame_or_asked(a, c),
        calm(a, b) && calm_or_asked(b, c) ==> calm_or_asked(a, c),
{
    match c {
        Ok(next) => {
            lemma_trans(a, b, next);
        },
        Err(_) => {},
    }
}

/// Only the names of the workspaces decide where a name is found.
pub proof fn lemma_find_same(a: Pool, b: Pool, name: WorkspaceName)
    requires
        a.list.len() == b.list.len(),
        forall|i: int| 0 <= i < a.list.len() ==> (#[trigger] b.list[i]).name == a.list[i].name,
    ensures
        a.find(name) == b.find(name),
{
    lemma_first_index(a.list.len(), a.named(name.key@));
    lemma_first_index(b.list.len(), b.named(name.key@));
    let p = a.named(name.key@);
    let q = b.named(name.key@);
    assert forall|i: int| 0 <= i < a.list.len() implies #[trigger] p(i) == q(i) by {
        assert(b.list[i].name == a.list[i].name);
    }
    match (a.find(name), b.find(name)) {
        (Some(i), Some(j)) => {
            assert(p(i) && q(j));
            assert(q(i) && p(j));
        },
        (Some(i), None) => {
            assert(p(i));
            assert(q(i));
        },
        (None, Some(j)) => {
            assert(q(j));
            assert(p(j));
        },
        (None, None) => {},
    }
}

/// A pool whose names and members are the same, and whose displays are still
/// distinct, is still sound.
pub proof fn lemma_sound_same_names(a: Pool, b: Pool)
    requires
        pool_sound(a),
        a.list.len() == b.list.len(),
        forall|i: int| 0 <= i < a.list.len() ==> (#[trigger] b.list[i]).name == a.list[i].name,
        displays_distinct(b),
        forall|window: isize| #[trigger]
            b.members.contains_key(window) ==> a.members.contains_key(window) && b.members[window]
                == a.members[window],
    ensures
        pool_sound(b),
{
    assert forall|window: isize| #[trigger] b.members.contains_key(window) implies b.find(
        b.members[window],
    ) is Some by {
        assert(a.members.contains_key(window));
        lemma_find_same(a, b, b.members[window]);
    }
    assert forall|i: int, j: int| 0 <= i < j < b.list.len() implies !collides(
        b.list[i].name,
        b.list[j].name,
    ) && !name_before(b.list[j].name, b.list[i].name) by {
        assert(b.list[i].name == a.list[i].name);
        assert(b.list[j].name == a.list[j].name);
    }
}

/// [`lemma_sound_same_names`] for a pool that displays the same.
pub proof fn lemma_sound_same_display(a: Pool, b: Pool)
    requires
        pool_sound(a),
        a.list.len() == b.list.len(),
        forall|i: int|
            0 <= i < a.list.len() ==> (#[trigger] b.list[i]).name == a.list[i].name
                && b.list[i].displayed_on == a.list[i].displayed_on,
        forall|window: isize| #[trigger]
            b.members.contains_key(window) ==> a.members.contains_key(window) && b.members[window]
                == a.members[window],
    ensures
        pool_sound(b),
{
    assert forall|i: int, j: int|
        #![trigger b.list[i], b.list[j]]
        0 <= i < j < b.list.len() && b.list[i].displayed_on is Some implies b.list[i].displayed_on
        != b.list[j].displayed_on by {
        assert(a.list[i].displayed_on == b.list[i].displayed_on);
        assert(a.list[j].displayed_on == b.list[j].displayed_on);
    }
    lemma_sound_same_names(a, b);
}

pub proof fn lemma_bytes_before_trans(a: Seq<u8>, b: Seq<u8>, c: Seq<u8>)
    requires
        bytes_before(a, b),
        bytes_before(b, c),
    ensures
        bytes_before(a, c),
    decreases a.len(),
{
    if a.len() > 0 && b.len() > 0 && c.len() > 0 && a[0] == b[0] && b[0] == c[0] {
        lemma_bytes_before_trans(a.drop_first(), b.drop_first(), c.drop_first());
    }
}

pub proof fn lemma_name_before_trans(a: WorkspaceName, b: WorkspaceName, c: WorkspaceName)
    requires
        name_before(a, b),
        name_before(b, c),
    ensures
        name_before(a, c),
{
    lemma_bytes_before_trans(
        vstd::utf8::encode_utf8(a.text@),
        vstd::utf8::encode_utf8(b.text@),
        vstd::utf8::encode_utf8(c.text@),
    );
}

/// A new name keeps the pool sound.
pub proof fn lemma_sound_created(pool: Pool, name: WorkspaceName, origin: WorkspaceOrigin)
    requires
        pool_sound(pool),
        pool.find(name) is None,
    ensures
        pool_sound(pool.created(name, origin)),
{
    let after = pool.created(name, origin);
    let at = pool.slot_for(name);
    lemma_first_index(pool.list.len(), pool.follows(name));
    lemma_first_index(pool.list.len(), pool.named(name.key@));
    assert forall|k: int| 0 <= k < pool.list.len() implies !collides(
        #[trigger] pool.list[k].name,
        name,
    ) by {
        assert(!pool.named(name.key@)(k));
    }
    assert forall|k: int| 0 <= k < at implies !name_before(name, #[trigger] pool.list[k].name) by {
        assert(!pool.follows(name)(k));
    }
    assert forall|k: int| at <= k < pool.list.len() implies !name_before(
        #[trigger] pool.list[k].name,
        name,
    ) by {
        assert(pool.follows(name)(at));
        assert(name_before(name, pool.list[at].name));
        if name_before(pool.list[k].name, name) {
            lemma_name_before_trans(pool.list[k].name, name, pool.list[at].name);
            if k == at {
                lemma_name_before_irreflexive(pool.list[k].name);
            }
        }
    }
    let from = |j: int|
        if j < at {
            j
        } else {
            j - 1
        };
    assert forall|j: int| 0 <= j < after.list.len() && j != at implies #[trigger] after.list[j]
        == pool.list[from(j)] by {}
    assert forall|i: int, j: int| 0 <= i < j < after.list.len() implies !collides(
        after.list[i].name,
        after.list[j].name,
    ) && !name_before(after.list[j].name, after.list[i].name) by {
        if i == at {
            assert(after.list[j] == pool.list[from(j)]);
        } else if j == at {
            assert(after.list[i] == pool.list[from(i)]);
        } else {
            assert(after.list[i] == pool.list[from(i)]);
            assert(after.list[j] == pool.list[from(j)]);
        }
    }
    assert forall|i: int, j: int|
        #![trigger after.list[i], after.list[j]]
        0 <= i < j < after.list.len() && after.list[i].displayed_on is Some implies after.list[i].displayed_on
        != after.list[j].displayed_on by {
        if i != at {
            assert(after.list[i] == pool.list[from(i)]);
            if j != at {
                assert(after.list[j] == pool.list[from(j)]);
            }
        }
    }
    assert forall|window: isize| #[trigger] after.members.contains_key(window) implies after.find(
        after.members[window],
    ) is Some by {
        let owner = pool.members[window];
        assert(pool.members.contains_key(window));
        lemma_first_index(pool.list.len(), pool.named(owner.key@));
        lemma_first_index(after.list.len(), after.named(owner.key@));
        let i = pool.find(owner)->0;
        let j = if i < at {
            i
        } else {
            i + 1
        };
        assert(after.list[j] == pool.list[from(j)]);
        assert(pool.named(owner.key@)(i));
        assert(after.named(owner.key@)(j));
    }
}

proof fn lemma_bytes_before_irreflexive(a: Seq<u8>)
    ensures
        !bytes_before(a, a),
    decreases a.len(),
{
    if a.len() > 0 {
        lemma_bytes_before_irreflexive(a.drop_first());
    }
}

proof fn lemma_name_before_irreflexive(name: WorkspaceName)
    ensures
        !name_before(name, name),
{
    lemma_bytes_before_irreflexive(vstd::utf8::encode_utf8(name.text@));
}

/// Deleting a workspace without members keeps the pool sound.
pub proof fn lemma_sound_removed(pool: Pool, i: int)
    requires
        pool_sound(pool),
        0 <= i < pool.list.len(),
        forall|window: isize| #[trigger]
            pool.members.contains_key(window) ==> !collides(
                pool.members[window],
                pool.list[i].name,
            ),
    ensures
        pool_sound(pool.removed(i)),
{
    let after = pool.removed(i);
    let from = |j: int|
        if j < i {
            j
        } else {
            j + 1
        };
    assert forall|j: int| 0 <= j < after.list.len() implies #[trigger] after.list[j]
        == pool.list[from(j)] by {}
    assert forall|x: int, y: int| 0 <= x < y < after.list.len() implies !collides(
        after.list[x].name,
        after.list[y].name,
    ) && !name_before(after.list[y].name, after.list[x].name) by {
        assert(after.list[x] == pool.list[from(x)]);
        assert(after.list[y] == pool.list[from(y)]);
    }
    assert forall|x: int, y: int|
        #![trigger after.list[x], after.list[y]]
        0 <= x < y < after.list.len() && after.list[x].displayed_on is Some implies after.list[x].displayed_on
        != after.list[y].displayed_on by {
        assert(after.list[x] == pool.list[from(x)]);
        assert(after.list[y] == pool.list[from(y)]);
    }
    assert forall|window: isize| #[trigger] after.members.contains_key(window) implies after.find(
        after.members[window],
    ) is Some by {
        let owner = pool.members[window];
        assert(pool.members.contains_key(window));
        lemma_first_index(pool.list.len(), pool.named(owner.key@));
        lemma_first_index(after.list.len(), after.named(owner.key@));
        let k = pool.find(owner)->0;
        assert(pool.named(owner.key@)(k));
        assert(k != i);
        let j = if k < i {
            k
        } else {
            k - 1
        };
        assert(after.list[j] == pool.list[from(j)]);
        assert(after.named(owner.key@)(j));
    }
}

/// Displaying a workspace keeps the pool sound.
pub proof fn lemma_sound_displaying(pool: Pool, i: int, display_id: DisplayId)
    requires
        pool_sound(pool),
    ensures
        pool_sound(pool.displaying(i, display_id)),
{
    lemma_sound_same_names(pool, pool.displaying(i, display_id));
}

pub proof fn lemma_sound_hiding(pool: Pool, display_id: DisplayId)
    requires
        pool_sound(pool),
    ensures
        pool_sound(pool.hiding(display_id)),
{
    lemma_sound_same_names(pool, pool.hiding(display_id));
}

pub proof fn lemma_sound_swapped(pool: Pool, a: DisplayId, b: DisplayId)
    requires
        pool_sound(pool),
    ensures
        pool_sound(pool.swapped(a, b)),
{
    lemma_sound_same_names(pool, pool.swapped(a, b));
}

pub proof fn lemma_sound_keeping_displays(pool: Pool, keep: Set<isize>)
    requires
        pool_sound(pool),
    ensures
        pool_sound(pool.keeping_displays(keep)),
{
    lemma_sound_same_names(pool, pool.keeping_displays(keep));
}

pub proof fn lemma_sound_keeping_members(pool: Pool, keep: Set<isize>)
    requires
        pool_sound(pool),
    ensures
        pool_sound(pool.keeping_members(keep)),
{
    lemma_sound_same_display(pool, pool.keeping_members(keep));
}

pub proof fn lemma_sound_focused(pool: Pool, window_id: WindowId)
    requires
        pool_sound(pool),
    ensures
        pool_sound(pool.focused(window_id)),
{
    match pool.workspace_of(window_id.0) {
        Some(name) => {
            lemma_first_index(pool.list.len(), pool.named(name.key@));
        },
        None => {},
    }
    lemma_sound_same_display(pool, pool.focused(window_id));
}

/// A workspace changed in anything but its name and where it is displayed.
pub proof fn lemma_sound_with(pool: Pool, i: int, workspace: Workspace)
    requires
        pool_sound(pool),
        0 <= i < pool.list.len(),
        workspace.name == pool.list[i].name,
        workspace.displayed_on == pool.list[i].displayed_on,
    ensures
        pool_sound(pool.with(i, workspace)),
{
    lemma_sound_same_display(pool, pool.with(i, workspace));
}

/// Assigning a window to a workspace of the pool keeps it sound.
pub proof fn lemma_sound_assigned(pool: Pool, window: isize, i: int)
    requires
        pool_sound(pool),
        0 <= i < pool.list.len(),
    ensures
        pool_sound(pool.assigned(window, pool.list[i].name)),
{
    let name = pool.list[i].name;
    let after = pool.assigned(window, name);
    lemma_first_index(pool.list.len(), pool.named(name.key@));
    assert(pool.named(name.key@)(i));
    assert forall|w: isize| #[trigger] after.members.contains_key(w) implies after.find(
        after.members[w],
    ) is Some by {
        lemma_find_same(pool, after, after.members[w]);
        if w != window {
            assert(pool.members.contains_key(w));
        }
    }
}

/// Arranging is steady.
pub proof fn lemma_steady_arranged_only(a: Model, b: Model)
    requires
        only_arranged(a, b),
    ensures
        calm(a, b),
{
    if pool_sound(a.workspaces) {
        lemma_sound_same_display(a.workspaces, b.workspaces);
    }
}

pub proof fn lemma_steady_arranged(m: Model, a: Answers)
    ensures
        calm_or_asked(m, m.arranged(a)),
{
    lemma_arranged(m, a);
    match m.arranged(a) {
        Ok(after) => {
            lemma_steady_arranged_only(m, after);
        },
        Err(_) => {},
    }
}

pub proof fn lemma_steady_persisted(m: Model, a: Answers)
    ensures
        calm_or_asked(m, m.workspaces_persisted(a, 0)),
{
    lemma_workspaces_persisted(m, a, 0);
    match m.workspaces_persisted(a, 0) {
        Ok(after) => {
            lemma_steady_arranged_only(m, after);
        },
        Err(_) => {},
    }
}

/// Nothing differs that a step keeps.
pub proof fn lemma_calm_same(a: Model, b: Model)
    requires
        a.revision <= b.revision,
        b.effects == a.effects,
        b.intents == a.intents,
        b.workspaces == a.workspaces,
        b.capture_holds == a.capture_holds,
        b.capture_suspended == a.capture_suspended,
        b.undo_scope == a.undo_scope,
        grounded(a, b),
    ensures
        calm(a, b),
{
}

// Placing and gathering.

pub proof fn lemma_steady_placed(
    m: Model,
    window_id: WindowId,
    display_id: DisplayId,
    bounds: Rect,
    cycle: Option<(crate::geometry::HorizontalDirection, crate::geometry::CycleStep)>,
)
    ensures
        calm(m, m.placed(window_id, display_id, bounds, cycle)),
{
    crate::laws::frame::lemma_placed(m, window_id, display_id, bounds, cycle);
    lemma_steady_arranged_only(m, m.placed(window_id, display_id, bounds, cycle));
}

pub proof fn lemma_steady_scope_closed(m: Model, a: Answers)
    ensures
        match m.scope_closed(a) {
            Ok(after) => kept(m, after) && after.undo_scope is None,
            Err(_) => true,
        },
{
    reveal(Model::scope_closed);
}

pub proof fn lemma_steady_arranged_revised(m: Model, a: Answers)
    ensures
        calm_or_asked(m, m.arranged_revised(a)),
        counted(m, m.arranged_revised(a)),
{
    lemma_steady_arranged(m, a);
}

pub proof fn lemma_steady_arranged_closed(m: Model, a: Answers)
    ensures
        match m.arranged_closed(a) {
            Ok(after) => kept(m, after) && after.undo_scope is None,
            Err(_) => true,
        },
        counted(m, m.arranged_closed(a)),
{
    lemma_steady_arranged(m, a);
    match m.arranged(a) {
        Ok(next) => {
            lemma_steady_scope_closed(next.revised(), a);
            match next.revised().scope_closed(a) {
                Ok(after) => {
                    lemma_trans(m, next.revised(), after);
                },
                Err(_) => {},
            }
        },
        Err(_) => {},
    }
}

// Parking.

pub proof fn lemma_steady_park_asked(m: Model, window_id: WindowId, now_unix: i64)
    ensures
        calm(m, m.park_asked(window_id, now_unix)),
{
}

pub proof fn lemma_steady_restore_asked(m: Model, window_id: WindowId)
    ensures
        calm(m, m.restore_asked(window_id)),
{
}

pub proof fn lemma_steady_parks_asked(m: Model, windows: Seq<isize>, i: int, now_unix: i64)
    ensures
        calm(m, m.parks_asked(windows, i, now_unix)),
    decreases windows.len() - i,
{
    if i < windows.len() {
        let next = m.park_asked(WindowId(windows[i]), now_unix);
        lemma_steady_park_asked(m, WindowId(windows[i]), now_unix);
        lemma_steady_parks_asked(next, windows, i + 1, now_unix);
        lemma_trans(m, next, m.parks_asked(windows, i, now_unix));
    }
}

pub proof fn lemma_steady_restores_asked(m: Model, windows: Seq<isize>, i: int)
    ensures
        calm(m, m.restores_asked(windows, i)),
    decreases windows.len() - i,
{
    if i < windows.len() {
        let next = m.restore_asked(WindowId(windows[i]));
        lemma_steady_restore_asked(m, WindowId(windows[i]));
        lemma_steady_restores_asked(next, windows, i + 1);
        lemma_trans(m, next, m.restores_asked(windows, i));
    }
}

pub proof fn lemma_steady_hidden_reconciled(m: Model, now_unix: i64)
    ensures
        calm(m, m.hidden_reconciled(now_unix)),
{
    reveal(Model::hidden_reconciled);
    let managed = sorted(m.inventory.dom());
    let parks = managed.filter(m.must_park());
    let next = m.parks_asked(parks, 0, now_unix);
    lemma_steady_parks_asked(m, parks, 0, now_unix);
    let restores = managed.filter(m.must_restore());
    lemma_steady_restores_asked(next, restores, 0);
    lemma_trans(m, next, next.restores_asked(restores, 0));
}

pub proof fn lemma_steady_owed_asked(m: Model, windows: Seq<WindowId>, i: int, now_unix: i64)
    ensures
        calm(m, m.owed_asked(windows, i, now_unix)),
    decreases windows.len() - i,
{
    if i < windows.len() {
        lemma_steady_restore_asked(m, windows[i]);
        lemma_steady_park_asked(m, windows[i], now_unix);
        let next = match m.stranded_move(windows[i]) {
            Some(crate::parking::StrandedMove::Restore) => m.restore_asked(windows[i]),
            Some(crate::parking::StrandedMove::Park) => m.park_asked(windows[i], now_unix),
            None => m,
        };
        lemma_steady_owed_asked(next, windows, i + 1, now_unix);
        lemma_trans(m, next, m.owed_asked(windows, i, now_unix));
    }
}

// Assignment.

pub proof fn lemma_steady_tree_stashed(m: Model, display_id: DisplayId)
    ensures
        calm(m, m.tree_stashed(display_id)),
        m.tree_stashed(display_id).workspaces.list.len() == m.workspaces.list.len(),
{
    lemma_first_index(m.workspaces.list.len(), m.workspaces.shows(display_id));
    if pool_sound(m.workspaces) {
        lemma_sound_same_display(m.workspaces, m.tree_stashed(display_id).workspaces);
    }
}

pub proof fn lemma_steady_workspace_shown(m: Model, i: int, display_id: DisplayId)
    requires
        0 <= i < m.workspaces.list.len(),
    ensures
        tame(m, m.workspace_shown(i, display_id)),
        m.workspace_shown(i, display_id).workspaces.list.len() == m.workspaces.list.len(),
{
    if pool_sound(m.workspaces) {
        let shown = m.workspaces.displaying(i, display_id);
        lemma_sound_displaying(m.workspaces, i, display_id);
        lemma_sound_with(shown, i, Workspace { stashed_tree: None, ..shown.list[i] });
    }
}

pub proof fn lemma_steady_unassigned_assigned(m: Model)
    ensures
        calm(m, m.unassigned_assigned()),
{
    reveal(Model::unassigned_assigned);
    let after = m.unassigned_assigned();
    if pool_sound(m.workspaces) {
        assert forall|window: isize| #[trigger] after.workspaces.members.contains_key(
            window,
        ) implies after.workspaces.find(after.workspaces.members[window]) is Some by {
            let owner = after.workspaces.members[window];
            lemma_find_same(m.workspaces, after.workspaces, owner);
            if m.workspaces.members.contains_key(window) {
            } else {
                let display_id = m.inventory[window].window.display_id;
                lemma_first_index(m.workspaces.list.len(), m.workspaces.shows(display_id));
                let i = m.workspaces.displayed_at(display_id)->0;
                lemma_first_index(m.workspaces.list.len(), m.workspaces.named(owner.key@));
                assert(m.workspaces.named(owner.key@)(i));
            }
        }
    }
}

pub proof fn lemma_steady_declared_from(m: Model, names: Seq<WorkspaceName>, i: int)
    ensures
        loose(m, m.declared_from(names, i)),
        grounded(m, m.declared_from(names, i)),
    decreases names.len() - i,
{
    if i < names.len() {
        lemma_first_index(m.workspaces.list.len(), m.workspaces.named(names[i].key@));
        let workspaces = match m.workspaces.find(names[i]) {
            Some(at) => m.workspaces.with(
                at,
                Workspace { origin: WorkspaceOrigin::Configuration, ..m.workspaces.list[at] },
            ),
            None => m.workspaces.created(names[i], WorkspaceOrigin::Configuration),
        };
        let next = Model { workspaces, ..m };
        if pool_sound(m.workspaces) {
            match m.workspaces.find(names[i]) {
                Some(at) => {
                    lemma_sound_with(
                        m.workspaces,
                        at,
                        Workspace {
                            origin: WorkspaceOrigin::Configuration,
                            ..m.workspaces.list[at]
                        },
                    );
                },
                None => {
                    lemma_sound_created(m.workspaces, names[i], WorkspaceOrigin::Configuration);
                },
            }
        }
        lemma_steady_declared_from(next, names, i + 1);
        lemma_trans(m, next, m.declared_from(names, i));
    }
}

pub proof fn lemma_steady_pool_synced(m: Model)
    ensures
        loose(m, m.pool_synced()),
        grounded(m, m.pool_synced()),
{
    reveal(Model::pool_synced);
    let next = m.declared_from(m.config.workspaces, 0);
    let after = m.pool_synced();
    lemma_steady_declared_from(m, m.config.workspaces, 0);
    if pool_sound(next.workspaces) {
        lemma_sound_same_display(next.workspaces, after.workspaces);
    }
    lemma_trans(m, next, after);
}

proof fn lemma_first_vacant_in_range(m: Model, k: int)
    ensures
        match m.first_vacant(k) {
            Some(i) => 0 <= i < m.workspaces.list.len(),
            None => true,
        },
    decreases m.config.workspaces.len() - k,
{
    let n = m.workspaces.list.len();
    if k < 0 || k >= m.config.workspaces.len() {
        lemma_first_index(n, m.any_vacant());
    } else {
        lemma_first_index(n, m.vacant_spelled(m.config.workspaces[k]));
        lemma_first_vacant_in_range(m, k + 1);
    }
}

pub proof fn lemma_chosen_in_range(m: Model, fingerprint: Seq<char>)
    ensures
        match m.chosen_for(fingerprint) {
            Some(i) => 0 <= i < m.workspaces.list.len(),
            None => true,
        },
{
    lemma_first_index(m.workspaces.list.len(), m.remembers(fingerprint));
    lemma_first_vacant_in_range(m, 0);
}

pub proof fn lemma_steady_display_filled(m: Model, display: Display)
    ensures
        tame(m, m.display_filled(display)),
{
    lemma_chosen_in_range(m, display.stable_fingerprint@);
    match m.chosen_for(display.stable_fingerprint@) {
        Some(i) => {
            let workspace = Workspace { pending_display: None, ..m.workspaces.list[i] };
            let next = Model { workspaces: m.workspaces.with(i, workspace), ..m };
            if pool_sound(m.workspaces) {
                lemma_sound_with(m.workspaces, i, workspace);
            }
            lemma_steady_workspace_shown(next, i, display.id);
            lemma_trans(m, next, next.workspace_shown(i, display.id));
        },
        None => {},
    }
}

pub proof fn lemma_steady_displays_filled_from(m: Model, line: Seq<Ranked>, i: int)
    ensures
        tame(m, m.displays_filled_from(line, i)),
    decreases line.len() - i,
{
    if i < line.len() {
        let next = match display_at(m.displays, DisplayId(line[i].id)) {
            Some(at) => m.display_filled(m.displays[at]),
            None => m,
        };
        match display_at(m.displays, DisplayId(line[i].id)) {
            Some(at) => {
                lemma_steady_display_filled(m, m.displays[at]);
            },
            None => {},
        }
        lemma_steady_displays_filled_from(next, line, i + 1);
        lemma_trans(m, next, m.displays_filled_from(line, i));
    }
}

pub proof fn lemma_steady_displays_filled(m: Model)
    ensures
        tame(m, m.displays_filled()),
{
    reveal(Model::displays_filled);
    lemma_steady_displays_filled_from(
        m,
        crate::ranking::ordered(m.display_ranks().to_set()),
        0,
    );
}

/// A resolved mapping names workspaces of the pool.
pub proof fn lemma_mapping_in_range(
    m: Model,
    entries: Seq<DisplayMapping>,
    i: int,
    done: Map<isize, int>,
)
    requires
        done.dom().finite(),
        forall|d: isize| #[trigger]
            done.contains_key(d) ==> 0 <= done[d] < m.workspaces.list.len(),
    ensures
        match m.mapping_resolved(entries, i, done) {
            Ok(target) => target.dom().finite() && forall|d: isize| #[trigger]
                target.contains_key(d) ==> 0 <= target[d] < m.workspaces.list.len(),
            Err(_) => true,
        },
    decreases entries.len() - i,
{
    if i < entries.len() {
        match crate::topology::id_of(m.displays, entries[i].display_fingerprint@) {
            Some(display_id) => {
                lemma_first_index(
                    m.workspaces.list.len(),
                    m.workspaces.named(entries[i].workspace.key@),
                );
                match m.workspaces.find(entries[i].workspace) {
                    Some(at) => {
                        lemma_mapping_in_range(
                            m,
                            entries,
                            i + 1,
                            done.insert(display_id.0, at),
                        );
                    },
                    None => {},
                }
            },
            None => {},
        }
    }
}

pub proof fn lemma_steady_displays_cleared(m: Model, displays: Seq<isize>, i: int)
    ensures
        tame(m, m.displays_cleared(displays, i)),
        m.displays_cleared(displays, i).workspaces.list.len() == m.workspaces.list.len(),
    decreases displays.len() - i,
{
    if i < displays.len() {
        let display_id = DisplayId(displays[i]);
        let stashed = m.tree_stashed(display_id);
        let next = if m.workspaces.displayed_at(display_id) is Some {
            Model { workspaces: stashed.workspaces.hiding(display_id), ..stashed }
        } else {
            m
        };
        lemma_steady_tree_stashed(m, display_id);
        if pool_sound(m.workspaces) {
            lemma_sound_hiding(stashed.workspaces, display_id);
        }
        lemma_steady_displays_cleared(next, displays, i + 1);
        lemma_trans(m, next, m.displays_cleared(displays, i));
    }
}

pub proof fn lemma_steady_mapping_shown(
    m: Model,
    target: Map<isize, int>,
    displays: Seq<isize>,
    i: int,
)
    requires
        displays.to_set() == target.dom(),
        forall|d: isize| #[trigger]
            target.contains_key(d) ==> 0 <= target[d] < m.workspaces.list.len(),
        0 <= i,
    ensures
        tame(m, m.mapping_shown(target, displays, i)),
    decreases displays.len() - i,
{
    if i < displays.len() {
        assert(displays.to_set().contains(displays[i]));
        assert(target.contains_key(displays[i]));
        let next = m.workspace_shown(target[displays[i]], DisplayId(displays[i]));
        lemma_steady_workspace_shown(m, target[displays[i]], DisplayId(displays[i]));
        lemma_steady_mapping_shown(next, target, displays, i + 1);
        lemma_trans(m, next, m.mapping_shown(target, displays, i));
    }
}

pub proof fn lemma_steady_mapping_applied(m: Model)
    ensures
        tame(m, m.mapping_applied()),
{
    reveal(Model::mapping_applied);
    let clear = Model { switching_unavailable: None, ..m };
    match m.config.switching {
        None => {},
        Some(switching) => {
            lemma_mapping_in_range(m, switching.displayed, 0, Map::empty());
            match m.mapping_resolved(switching.displayed, 0, Map::empty()) {
                Err(_) => {},
                Ok(target) => {
                    let displays = sorted(target.dom());
                    lemma_sorted(target.dom());
                    let next = clear.displays_cleared(displays, 0);
                    let after = next.mapping_shown(target, displays, 0);
                    lemma_steady_displays_cleared(clear, displays, 0);
                    lemma_steady_mapping_shown(next, target, displays, 0);
                    lemma_trans(clear, next, after);
                },
            }
        },
    }
}

pub proof fn lemma_steady_trees_stashed(m: Model, displays: Seq<Display>, i: int)
    ensures
        calm(m, m.trees_stashed(displays, i)),
    decreases displays.len() - i,
{
    if i < displays.len() {
        let next = m.tree_stashed(displays[i].id);
        lemma_steady_tree_stashed(m, displays[i].id);
        lemma_steady_trees_stashed(next, displays, i + 1);
        lemma_trans(m, next, m.trees_stashed(displays, i));
    }
}

pub proof fn lemma_steady_vanished_hidden(m: Model, survivors: Seq<Display>)
    ensures
        tame(m, m.vanished_hidden(survivors)),
{
    reveal(Model::vanished_hidden);
    let gone = m.displays.filter(Model::vanished(survivors));
    let next = m.trees_stashed(gone, 0);
    lemma_steady_trees_stashed(m, gone, 0);
    if pool_sound(next.workspaces) {
        lemma_sound_keeping_displays(next.workspaces, crate::topology::display_ids(survivors));
    }
    lemma_trans(m, next, m.vanished_hidden(survivors));
}

} // verus!
