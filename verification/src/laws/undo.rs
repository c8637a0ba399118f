//! What the engine promises of undo.

use vstd::prelude::*;

verus! {

use crate::answers::{Answers, Query};
use crate::commands::CommandLabel;
use crate::event::Event;
use crate::geometry::{DisplayId, Rect, WindowId};
use crate::laws::commands::undisturbed;
use crate::reducer::step;
use crate::reversal::{claimed, claiming, collision, contested, placed_in};
use crate::state::{EngineEffect, Intent, Model};
use crate::table::{lemma_sorted, sorted};
use crate::text::lemma_first_index;
use crate::topology::id_of;
use crate::undo::{
    CapturedTree, Reversal, Stored, UndoMember, UndoRestoredWindow, UndoTargetOutcome,
    UndoTreeSnapshot,
};

// Undo.

/// The first capture wins: a window, a display's tree or a display's
/// assignment that a scope already holds is not captured again.
pub proof fn law_first_capture_wins(
    m: Model,
    window_id: WindowId,
    first: Option<(DisplayId, Rect)>,
    second: Option<(DisplayId, Rect)>,
    display_id: DisplayId,
)
    ensures
        m.member_recorded(window_id, first).undo_scope != m.undo_scope ==> m.member_recorded(
            window_id,
            first,
        ).member_recorded(window_id, second) == m.member_recorded(window_id, first),
        m.tree_captured(display_id).tree_captured(display_id) == m.tree_captured(display_id),
        m.assignment_captured(display_id).assignment_captured(display_id)
            == m.assignment_captured(display_id),
{
    match m.undo_scope {
        Some(scope) => {
            let once = m.tree_captured(display_id);
            match once.undo_scope {
                Some(captured) => {
                    if once != m {
                        assert(captured.prior_trees.last().display_id == display_id);
                    }
                },
                None => {},
            }
            let shown = m.assignment_captured(display_id);
            match shown.undo_scope {
                Some(captured) => {
                    if shown != m {
                        assert(captured.prior_assignments.last().display_id == display_id);
                    }
                },
                None => {},
            }
        },
        None => {},
    }
}

/// A command that changed nothing records nothing: a scope that gathered no
/// window, no tree and no assignment closes without a trace.
pub proof fn law_nothing_gathered_nothing_recorded(m: Model, a: Answers, command: CommandLabel)
    ensures
        m.scope_opened(command).scope_closed(a) == Ok::<Model, Query>(undisturbed(m)),
{
    reveal(Model::scope_closed);
    reveal_with_fuel(Model::snapshots, 1);
    reveal_with_fuel(Model::overturned, 1);
}

/// An undo that is refused says why, and changes nothing else.
pub proof fn law_refused_undo_changes_nothing(before: Model, a: Answers)
    requires
        !before.paused,
    ensures
        match undisturbed(before).reversal(a) {
            Ok(reversal) => !(reversal is Applied) ==> step(before, Event::UndoRequested, a) == Ok::<
                Model,
                Query,
            >(Model { last_undo_result: Some(reversal), ..undisturbed(before) }.revised()),
            Err(query) => step(before, Event::UndoRequested, a) == Err::<Model, Query>(query),
        },
{
    reveal(Model::on_undo);
}

/// An undo is used up by being applied: the transaction is gone, the database
/// is told so, and undoing again finds nothing to undo.
pub proof fn law_undo_is_used_up(before: Model, a: Answers, transaction: Stored)
    requires
        !before.paused,
        before.newest_undo == Some(transaction),
    ensures
        match (undisturbed(before).reversal(a), step(before, Event::UndoRequested, a)) {
            (Ok(reversal), Ok(after)) => reversal is Applied ==> {
                &&& after.newest_undo is None
                &&& after.last_undo_result == Some(reversal)
                &&& after.intents.len() > 0
                &&& after.intents.last() == Intent::ConsumeUndoTransaction(transaction.id)
                &&& after.reversal(a) == Ok::<Reversal, Query>(Reversal::NothingToUndo)
            },
            _ => true,
        },
{
    reveal(Model::on_undo);
    reveal(Model::reversed);
    reveal(Model::reversal);
}

/// The effect that puts one window back.
pub open spec fn put_back(restored: UndoRestoredWindow) -> EngineEffect {
    EngineEffect::PlaceWindow {
        window_id: restored.window_id,
        display_id: restored.display_id,
        bounds: restored.placement,
    }
}

/// Putting windows back places each of them where the transaction found it,
/// in order, but for those whose breaker is open.
pub proof fn law_undo_puts_windows_back(m: Model, restored: Seq<UndoRestoredWindow>, i: int)
    requires
        0 <= i <= restored.len(),
        forall|k: int|
            i <= k < restored.len() ==> !m.breaker_open((#[trigger] restored[k]).window_id.0),
    ensures
        m.all_put_back(restored, i).effects == m.effects + restored.skip(i).map_values(
            |window: UndoRestoredWindow| put_back(window),
        ),
    decreases restored.len() - i,
{
    let told = |window: UndoRestoredWindow| put_back(window);
    if i < restored.len() {
        let window = restored[i];
        let next = m.placed(window.window_id, window.display_id, window.placement, None);
        assert forall|k: int| i + 1 <= k < restored.len() implies !next.breaker_open(
            (#[trigger] restored[k]).window_id.0,
        ) by {
            assert(!m.breaker_open(restored[k].window_id.0));
            assert(!m.breaker_open(restored[i].window_id.0));
        }
        law_undo_puts_windows_back(next, restored, i + 1);
        assert(restored.skip(i).map_values(told) =~= seq![put_back(window)] + restored.skip(
            i + 1,
        ).map_values(told));
        assert(m.all_put_back(restored, i).effects =~= m.effects + restored.skip(i).map_values(
            told,
        ));
    } else {
        assert(restored.skip(i).map_values(told) =~= Seq::empty());
        assert(m.effects =~= m.effects + Seq::<EngineEffect>::empty());
    }
}

// What an undo restores.

pub proof fn lemma_members_restored(
    m: Model,
    members: Seq<UndoMember>,
    targets: Seq<UndoTargetOutcome>,
    i: int,
    done: Seq<UndoRestoredWindow>,
)
    requires
        0 <= i <= members.len(),
        done.len() == i,
        forall|k: int|
            0 <= k < i ==> restores(m, members[k], targets[k], #[trigger] done[k]),
    ensures
        match m.members_restored(members, targets, i, done) {
            Some(restored) => restored.len() == members.len() && forall|k: int|
                0 <= k < members.len() ==> restores(
                    m,
                    members[k],
                    targets[k],
                    #[trigger] restored[k],
                ),
            None => true,
        },
    decreases members.len() - i,
{
    if i < members.len() {
        match id_of(m.displays, members[i].prior_display_fingerprint@) {
            Some(display_id) => {
                lemma_members_restored(
                    m,
                    members,
                    targets,
                    i + 1,
                    done.push(
                        UndoRestoredWindow {
                            ordinal: members[i].ordinal,
                            window_id: targets[i].outcome.confident()->0,
                            display_id,
                            placement: members[i].prior_placement,
                        },
                    ),
                );
            },
            None => {},
        }
    }
}

/// `restored` is where `member` was recorded, for the window matched to it.
pub open spec fn restores(
    m: Model,
    member: UndoMember,
    target: UndoTargetOutcome,
    restored: UndoRestoredWindow,
) -> bool {
    &&& restored.ordinal == member.ordinal
    &&& restored.placement == member.prior_placement
    &&& id_of(m.displays, member.prior_display_fingerprint@) == Some(restored.display_id)
    &&& restored.window_id == target.outcome.confident()->0
}

proof fn lemma_claimed_twice(targets: Seq<UndoTargetOutcome>, id: isize, i: int, j: int, n: int)
    requires
        0 <= i < j < n <= targets.len(),
        targets[i].outcome.confident() == Some(WindowId(id)),
        targets[j].outcome.confident() == Some(WindowId(id)),
    ensures
        claiming(targets, id, n).len() >= 2,
    decreases n,
{
    lemma_placed_in_len(claiming(targets, id, n - 1), targets[n - 1].ordinal);
    if n - 1 > j {
        lemma_claimed_twice(targets, id, i, j, n - 1);
    } else {
        lemma_claimed_once(targets, id, i, n - 1);
    }
}

proof fn lemma_claimed_once(targets: Seq<UndoTargetOutcome>, id: isize, i: int, n: int)
    requires
        0 <= i < n <= targets.len(),
        targets[i].outcome.confident() == Some(WindowId(id)),
    ensures
        claiming(targets, id, n).len() >= 1,
        claimed(targets, n).contains(id),
    decreases n,
{
    lemma_placed_in_len(claiming(targets, id, n - 1), targets[n - 1].ordinal);
    if n - 1 > i {
        lemma_claimed_once(targets, id, i, n - 1);
    }
}

proof fn lemma_placed_in_len(ordinals: Seq<u32>, ordinal: u32)
    ensures
        placed_in(ordinals, ordinal).len() == ordinals.len() + 1,
    decreases ordinals.len(),
{
    if ordinals.len() > 0 && ordinals.last() > ordinal {
        lemma_placed_in_len(ordinals.drop_last(), ordinal);
    }
}

proof fn lemma_claimed_finite(targets: Seq<UndoTargetOutcome>, n: int)
    ensures
        claimed(targets, n).finite(),
    decreases n,
{
    if n > 0 {
        lemma_claimed_finite(targets, n - 1);
    }
}

/// Without a collision no two targets claim one window.
pub proof fn law_no_collision_no_shared_window(targets: Seq<UndoTargetOutcome>, i: int, j: int)
    requires
        collision(targets) is None,
        0 <= i < j < targets.len(),
        targets[i].outcome.confident() is Some,
    ensures
        targets[i].outcome.confident() != targets[j].outcome.confident(),
{
    if targets[i].outcome.confident() == targets[j].outcome.confident() {
        let id = (targets[i].outcome.confident()->0).0;
        let n = targets.len() as int;
        lemma_claimed_twice(targets, id, i, j, n);
        lemma_claimed_once(targets, id, i, n);
        lemma_claimed_finite(targets, n);
        let ids = sorted(claimed(targets, n));
        lemma_sorted(claimed(targets, n));
        assert(ids.to_set().contains(id));
        let k = choose|k: int| 0 <= k < ids.len() && ids[k] == id;
        let pred = contested(targets, ids);
        lemma_first_index(ids.len(), pred);
        assert(pred(k));
    }
}

/// An undo that is applied restores every member of its transaction: in order,
/// each at the placement and on the display that were recorded, each in a
/// window of its own.
pub proof fn law_undo_restores_every_member(
    m: Model,
    transaction: Stored,
    targets: Seq<UndoTargetOutcome>,
)
    requires
        targets.len() == transaction.members.len(),
        forall|k: int|
            0 <= k < targets.len() ==> (#[trigger] targets[k]).outcome.confident() is Some,
    ensures
        match m.reversal_of_resolved(transaction, targets) {
            Reversal::Applied { transaction_id, command, restored } => {
                &&& transaction_id == transaction.id
                &&& command == transaction.command
                &&& restored.len() == transaction.members.len()
                &&& forall|k: int|
                    0 <= k < restored.len() ==> restores(
                        m,
                        transaction.members[k],
                        targets[k],
                        #[trigger] restored[k],
                    )
                &&& forall|i: int, j: int|
                    0 <= i < j < restored.len() ==> (#[trigger] restored[i]).window_id != (
                    #[trigger] restored[j]).window_id
            },
            _ => true,
        },
{
    match m.reversal_of_resolved(transaction, targets) {
        Reversal::Applied { restored, .. } => {
            lemma_members_restored(m, transaction.members, targets, 0, Seq::empty());
            assert forall|i: int, j: int| 0 <= i < j < restored.len() implies (
            #[trigger] restored[i]).window_id != (#[trigger] restored[j]).window_id by {
                assert(targets[i].outcome.confident() is Some);
                assert(targets[j].outcome.confident() is Some);
                law_no_collision_no_shared_window(targets, i, j);
                assert(restores(m, transaction.members[i], targets[i], restored[i]));
                assert(restores(m, transaction.members[j], targets[j], restored[j]));
            }
        },
        _ => {},
    }
}

/// A placement inside a command records where the window was, and putting the
/// window back there leaves it where the command found it.
pub proof fn law_putting_back_reverses_a_placement(
    m: Model,
    window_id: WindowId,
    display_id: DisplayId,
    bounds: Rect,
    back: UndoRestoredWindow,
)
    requires
        m.windows.contains_key(window_id.0),
        !m.breaker_open(window_id.0),
        back.window_id == window_id,
        back.display_id == m.windows[window_id.0].display_id,
        back.placement == m.windows[window_id.0].bounds,
    ensures
        ({
            let placed = m.placed(window_id, display_id, bounds, None);
            let after = placed.all_put_back(seq![back], 0);
            &&& after.windows[window_id.0].display_id == m.windows[window_id.0].display_id
            &&& after.windows[window_id.0].bounds == m.windows[window_id.0].bounds
            &&& match (m.undo_scope, placed.undo_scope) {
                (Some(scope), Some(gathered)) => gathered == scope || (gathered.members.len()
                    == scope.members.len() + 1 && gathered.members.last().prior_placement
                    == m.windows[window_id.0].bounds),
                (None, None) => true,
                _ => false,
            }
        }),
{
    reveal_with_fuel(Model::all_put_back, 2);
}

/// Structure a command left as it was is not recorded for undo.
pub proof fn law_unchanged_structure_is_not_recorded(
    m: Model,
    a: Answers,
    trees: Seq<CapturedTree>,
    i: int,
    done: Seq<UndoTreeSnapshot>,
)
    requires
        0 <= i,
        forall|k: int|
            0 <= k < trees.len() ==> m.tree_on((#[trigger] trees[k]).display_id) == trees[k].tree,
    ensures
        m.snapshots(a, trees, i, done) == Ok::<Seq<UndoTreeSnapshot>, Query>(done),
    decreases trees.len() - i,
{
    if i < trees.len() {
        assert(m.tree_on(trees[i].display_id) == trees[i].tree);
        law_unchanged_structure_is_not_recorded(m, a, trees, i + 1, done);
    }
}

} // verus!
