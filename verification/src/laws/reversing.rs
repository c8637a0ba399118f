//! What a command records for its undo and what an undo does with it, said of
//! the windows and displays themselves.

use vstd::prelude::*;

verus! {

use crate::answers::{Answer, Answers, Candidate, ContainerTree, MatchOutcome, Query};
use crate::event::Event;
use crate::geometry::{DisplayId, Rect, WindowId};
use crate::laws::belonging::{fingerprinted, lemma_fingerprinted};
use crate::laws::commands::undisturbed;
use crate::laws::hotplug::{called, gone, lemma_called};
use crate::laws::undo::{law_undo_puts_windows_back, lemma_members_restored, put_back, restores};
use crate::reducer::step;
use crate::state::{EngineEffect, Intent, Model};
use crate::table::{lemma_sorted, sorted};
use crate::text::lemma_first_index;
use crate::undo::{
    CapturedTree, Reversal, Stored, UndoMember, UndoRestoredWindow, UndoTargetOutcome,
    UndoTreeSnapshot,
};
use crate::window::{EligibilityReason, ManageAction};

// What is recorded.

/// A command that moves a window records, once, where the window was before:
/// its bounds then, the fingerprint of the display it was on, what recognises
/// it, and its number among what the command moved.
pub proof fn law_a_moved_window_is_recorded_where_it_was(
    m: Model,
    window_id: WindowId,
    from: DisplayId,
    bounds: Rect,
    at: int,
)
    requires
        m.undo_scope is Some,
        called(m.displays, from, at),
        m.inventory.contains_key(window_id.0),
        !gone(m.displays, m.inventory[window_id.0].window.display_id),
        !(m.undo_scope->0).claimed.contains(window_id.0),
    ensures
        ({
            let scope = m.undo_scope->0;
            let after = m.member_recorded(window_id, Some((from, bounds)));
            &&& after == (Model { undo_scope: after.undo_scope, ..m })
            &&& match after.undo_scope {
                Some(gathered) => {
                    let member = gathered.members.last();
                    &&& gathered.members == scope.members.push(member)
                    &&& gathered.claimed == scope.claimed.insert(window_id.0)
                    &&& gathered.command == scope.command
                    &&& member.ordinal == scope.members.len() as u32
                    &&& member.prior_placement == bounds
                    &&& member.prior_display_fingerprint == m.displays[at].stable_fingerprint
                    &&& Some(member.evidence) == m.evidence(window_id.0)
                },
                None => false,
            }
        }),
{
    lemma_called(m.displays, from, at);
    lemma_called(m.displays, m.inventory[window_id.0].window.display_id, 0);
}

/// A command that moved something is recorded as one transaction: under its
/// name, when, for which topology, at which revision, with every window it
/// moved in order.
pub proof fn law_a_command_is_one_transaction(m: Model, a: Answers)
    requires
        m.undo_scope is Some,
        (m.undo_scope->0).members.len() > 0,
    ensures
        match m.scope_closed(a) {
            Ok(after) => {
                let scope = m.undo_scope->0;
                &&& after.undo_scope is None
                &&& after.windows == m.windows
                &&& after.effects == m.effects
                &&& after.intents.len() == m.intents.len() + 1
                &&& match after.intents.last() {
                    Intent::RecordUndoTransaction(draft) => {
                        &&& draft.command == scope.command.spelled()
                        &&& draft.recorded_at_unix == a.now_unix
                        &&& draft.topology_fingerprint == m.topology
                        &&& draft.durable_revision == m.revision
                        &&& draft.members == scope.members
                        &&& draft.prior_trees.len() <= scope.prior_trees.len()
                        &&& draft.prior_assignments.len() <= scope.prior_assignments.len()
                    },
                    _ => false,
                }
            },
            Err(_) => true,
        },
{
    reveal(Model::scope_closed);
    let scope = m.undo_scope->0;
    lemma_snapshots_fit(m, a, scope.prior_trees, 0, Seq::empty());
    lemma_overturned_fit(m, scope.prior_assignments, 0, Seq::empty());
}

proof fn lemma_snapshots_fit(
    m: Model,
    a: Answers,
    captured: Seq<CapturedTree>,
    i: int,
    done: Seq<UndoTreeSnapshot>,
)
    requires
        0 <= i <= captured.len(),
        done.len() <= i,
    ensures
        match m.snapshots(a, captured, i, done) {
            Ok(all) => all.len() <= captured.len(),
            Err(_) => true,
        },
    decreases captured.len() - i,
{
    if i < captured.len() {
        let prior = captured[i];
        lemma_snapshots_fit(m, a, captured, i + 1, done);
        match (
            crate::topology::fingerprint_of(m.displays, prior.display_id),
            m.durable(a, prior.tree),
        ) {
            (Some(display_fingerprint), Ok(tree)) => {
                lemma_snapshots_fit(
                    m,
                    a,
                    captured,
                    i + 1,
                    done.push(UndoTreeSnapshot { display_fingerprint, tree }),
                );
            },
            _ => {},
        }
    }
}

proof fn lemma_overturned_fit(
    m: Model,
    captured: Seq<crate::undo::CapturedAssignment>,
    i: int,
    done: Seq<crate::undo::UndoAssignment>,
)
    requires
        0 <= i <= captured.len(),
        done.len() <= i,
    ensures
        m.overturned(captured, i, done).len() <= captured.len(),
    decreases captured.len() - i,
{
    if i < captured.len() {
        let prior = captured[i];
        lemma_overturned_fit(m, captured, i + 1, done);
        match crate::topology::fingerprint_of(m.displays, prior.display_id) {
            Some(display_fingerprint) => {
                lemma_overturned_fit(
                    m,
                    captured,
                    i + 1,
                    done.push(
                        crate::undo::UndoAssignment {
                            display_fingerprint,
                            workspace: prior.workspace,
                        },
                    ),
                );
            },
            None => {},
        }
    }
}

/// A tree a command captured is recorded exactly where the display's tree is
/// another now: under the display's fingerprint, as it was when captured.
pub proof fn law_a_reshaped_tree_is_recorded_as_it_was(
    m: Model,
    a: Answers,
    captured: Seq<CapturedTree>,
    i: int,
    done: Seq<UndoTreeSnapshot>,
    at: int,
)
    requires
        0 <= i < captured.len(),
        called(m.displays, captured[i].display_id, at),
    ensures
        match m.snapshots(a, captured, i, done) {
            Ok(result) => {
                let id = captured[i].display_id.0;
                let now = if m.trees.contains_key(id) {
                    m.trees[id]
                } else {
                    ContainerTree::empty()
                };
                if now == captured[i].tree {
                    m.snapshots(a, captured, i + 1, done) == Ok::<Seq<UndoTreeSnapshot>, Query>(
                        result,
                    )
                } else {
                    match a.look_up(Query::Shape { tree: captured[i].tree }) {
                        Some(Answer::Shape(shape)) => match a.look_up(
                            Query::Durable {
                                tree: captured[i].tree,
                                evidence: m.evidence_list(shape.windows@),
                            },
                        ) {
                            Some(Answer::Stored(tree)) => m.snapshots(
                                a,
                                captured,
                                i + 1,
                                done.push(
                                    UndoTreeSnapshot {
                                        display_fingerprint: m.displays[at].stable_fingerprint,
                                        tree,
                                    },
                                ),
                            ) == Ok::<Seq<UndoTreeSnapshot>, Query>(result),
                            _ => false,
                        },
                        _ => false,
                    }
                }
            },
            Err(_) => true,
        },
{
    lemma_called(m.displays, captured[i].display_id, at);
}

/// A tree and an assignment are captured as they are when the command starts.
pub proof fn law_what_a_command_captures(m: Model, display_id: DisplayId, at: int)
    requires
        m.undo_scope is Some,
    ensures
        ({
            let scope = m.undo_scope->0;
            let after = m.tree_captured(display_id).undo_scope->0;
            (forall|k: int|
                0 <= k < scope.prior_trees.len() ==> (#[trigger] scope.prior_trees[k]).display_id
                    != display_id) ==> after.prior_trees == scope.prior_trees.push(
                CapturedTree {
                    display_id,
                    tree: if m.trees.contains_key(display_id.0) {
                        m.trees[display_id.0]
                    } else {
                        ContainerTree::empty()
                    },
                },
            )
        }),
        ({
            let scope = m.undo_scope->0;
            let after = m.assignment_captured(display_id).undo_scope->0;
            (forall|k: int|
                0 <= k < scope.prior_assignments.len() ==> (
                #[trigger] scope.prior_assignments[k]).display_id != display_id)
                ==> after.prior_assignments.len() == scope.prior_assignments.len() + 1
                && after.prior_assignments.last().display_id == display_id && (
            crate::laws::belonging::shown_at(m.workspaces, display_id, at)
                ==> after.prior_assignments.last().workspace == Some(m.workspaces.list[at].name))
                && (crate::laws::belonging::blank(m.workspaces, display_id)
                ==> after.prior_assignments.last().workspace is None)
        }),
{
    crate::laws::belonging::lemma_shown(m.workspaces, display_id, at);
}

// What an undo does.

/// Every managed window is offered for a match, and no other.
pub proof fn law_every_managed_window_is_a_candidate(m: Model, id: isize)
    requires
        m.inventory.dom().finite(),
    ensures
        m.all_managed().contains(WindowId(id)) <==> m.inventory.contains_key(id),
{
    let all = sorted(m.inventory.dom());
    lemma_sorted(m.inventory.dom());
    if m.all_managed().contains(WindowId(id)) {
        let k = choose|k: int|
            0 <= k < m.all_managed().len() && m.all_managed()[k] == WindowId(id);
        assert(all.to_set().contains(all[k]));
    }
    if m.inventory.contains_key(id) {
        assert(all.to_set().contains(id));
        let k = choose|k: int| 0 <= k < all.len() && all[k] == id;
        assert(m.all_managed()[k] == WindowId(id));
    }
}

/// The windows a recorded tree is matched against are those that take part in
/// tiling on the display, are there, and are eligible.
pub proof fn law_who_may_fill_a_recorded_tree(m: Model, display_id: DisplayId, id: isize)
    requires
        m.inventory.dom().finite(),
    ensures
        m.active_tiled(display_id).contains(WindowId(id)) <==> {
            &&& m.inventory.contains_key(id)
            &&& (m.inventory[id].action == ManageAction::Tile || m.session_tiled.contains(id))
            &&& m.inventory[id].window.display_id == display_id
            &&& m.inventory[id].eligibility == EligibilityReason::Eligible
        },
{
    broadcast use vstd::seq_lib::group_filter_ensures;

    let all = sorted(m.inventory.dom());
    lemma_sorted(m.inventory.dom());
    let pred = m.tiled_on(display_id);
    let left = all.filter(pred);
    if m.active_tiled(display_id).contains(WindowId(id)) {
        let k = choose|k: int|
            0 <= k < m.active_tiled(display_id).len() && m.active_tiled(display_id)[k] == WindowId(
                id,
            );
        assert(left[k] == id);
        all.lemma_filter_pred(pred, k);
    }
    if m.inventory.contains_key(id) && pred(id) {
        assert(all.to_set().contains(id));
        let k = choose|k: int| 0 <= k < all.len() && all[k] == id;
        assert(left.contains(all[k]));
        let n = choose|n: int| 0 <= n < left.len() && left[n] == id;
        assert(m.active_tiled(display_id)[n] == WindowId(id));
    }
}

pub proof fn lemma_members_matched(
    m: Model,
    a: Answers,
    members: Seq<UndoMember>,
    open: Seq<Candidate>,
    i: int,
    done: Seq<UndoTargetOutcome>,
    k: int,
)
    requires
        0 <= i <= members.len(),
        done.len() == i,
        0 <= k < members.len(),
        k < i ==> a.look_up(Query::Match { evidence: members[k].evidence, candidates: open })
            == Some(Answer::Outcome(done[k].outcome)) && done[k].ordinal == members[k].ordinal,
    ensures
        match m.members_matched(a, members, open, i, done) {
            Ok(targets) => {
                &&& targets.len() == members.len()
                &&& a.look_up(Query::Match { evidence: members[k].evidence, candidates: open })
                    == Some(Answer::Outcome(targets[k].outcome))
                &&& targets[k].ordinal == members[k].ordinal
            },
            Err(_) => true,
        },
    decreases members.len() - i,
{
    if i < members.len() {
        match a.outcome_spec(members[i].evidence, open) {
            Err(_) => {},
            Ok(outcome) => {
                lemma_members_matched(
                    m,
                    a,
                    members,
                    open,
                    i + 1,
                    done.push(
                        UndoTargetOutcome {
                            ordinal: members[i].ordinal,
                            application: members[i].evidence.application_id.0,
                            outcome,
                        },
                    ),
                    k,
                );
            },
        }
    }
}

pub proof fn lemma_members_matched_length(
    m: Model,
    a: Answers,
    members: Seq<UndoMember>,
    open: Seq<Candidate>,
    i: int,
    done: Seq<UndoTargetOutcome>,
)
    requires
        0 <= i <= members.len(),
        done.len() == i,
    ensures
        match m.members_matched(a, members, open, i, done) {
            Ok(targets) => targets.len() == members.len(),
            Err(_) => true,
        },
    decreases members.len() - i,
{
    if i < members.len() {
        match a.outcome_spec(members[i].evidence, open) {
            Err(_) => {},
            Ok(outcome) => {
                lemma_members_matched_length(
                    m,
                    a,
                    members,
                    open,
                    i + 1,
                    done.push(
                        UndoTargetOutcome {
                            ordinal: members[i].ordinal,
                            application: members[i].evidence.application_id.0,
                            outcome,
                        },
                    ),
                );
            },
        }
    }
}

/// An undo is applied only to the newest transaction, with the database healthy
/// and the topology the one it was recorded under. Each window it recorded goes
/// to the live window that the matcher recognises confidently among all managed
/// ones, back to the recorded bounds on the display of the recorded
/// fingerprint.
pub proof fn law_an_undo_puts_back_what_was_recorded(m: Model, a: Answers, k: int, at: int)
    ensures
        match m.reversal(a) {
            Ok(Reversal::Applied { transaction_id, command, restored }) => {
                let transaction = m.newest_undo->0;
                let member = transaction.members[k];
                &&& m.newest_undo is Some
                &&& m.persistence_health is Healthy
                &&& m.topology@ == transaction.topology_fingerprint@
                &&& transaction_id == transaction.id
                &&& command == transaction.command
                &&& restored.len() == transaction.members.len()
                &&& (0 <= k < restored.len() ==> {
                    &&& a.look_up(
                        Query::Match {
                            evidence: member.evidence,
                            candidates: m.candidates(m.all_managed()),
                        },
                    ) == Some(
                        Answer::Outcome(
                            MatchOutcome::Confident { window_id: restored[k].window_id },
                        ),
                    )
                    &&& restored[k].placement == member.prior_placement
                    &&& restored[k].ordinal == member.ordinal
                    &&& (fingerprinted(m.displays, member.prior_display_fingerprint@, at)
                        ==> restored[k].display_id == m.displays[at].id)
                    &&& exists|there: int| #[trigger]
                        fingerprinted(m.displays, member.prior_display_fingerprint@, there)
                })
            },
            Ok(Reversal::NothingToUndo) => m.newest_undo is None,
            Ok(Reversal::PersistenceDegraded { .. }) => m.persistence_health is Degraded,
            Ok(_) => m.newest_undo is Some && m.persistence_health is Healthy,
            Err(_) => true,
        },
{
    reveal(Model::reversal);
    match m.reversal(a) {
        Ok(Reversal::Applied { restored, .. }) => {
            let transaction = m.newest_undo->0;
            let members = transaction.members;
            let open = m.candidates(m.all_managed());
            lemma_members_matched_length(m, a, members, open, 0, Seq::empty());
            let targets = m.members_matched(a, members, open, 0, Seq::empty())->Ok_0;
            lemma_members_restored(m, members, targets, 0, Seq::empty());
            if 0 <= k < restored.len() {
                lemma_members_matched(m, a, members, open, 0, Seq::empty(), k);
                let p = crate::reversal::unresolved(targets);
                lemma_first_index(targets.len(), p);
                assert(!p(k));
                assert(restores(m, members[k], targets[k], restored[k]));
                lemma_fingerprinted(m.displays, members[k].prior_display_fingerprint@, at);
            }
        },
        _ => {},
    }
}

/// An undo of a command that only moved windows tells the adapter to put each
/// of them back, in order, and nothing else.
pub proof fn law_an_undo_of_moves_puts_windows_back(
    before: Model,
    a: Answers,
    transaction: Stored,
    restored: Seq<UndoRestoredWindow>,
)
    requires
        !before.paused,
        before.newest_undo == Some(transaction),
        transaction.prior_trees.len() == 0,
        transaction.prior_assignments.len() == 0,
        undisturbed(before).reversal(a) == Ok::<Reversal, Query>(
            Reversal::Applied {
                transaction_id: transaction.id,
                command: transaction.command,
                restored,
            },
        ),
        forall|k: int|
            0 <= k < restored.len() ==> !before.breaker_open(
                (#[trigger] restored[k]).window_id.0,
            ),
    ensures
        match step(before, Event::UndoRequested, a) {
            Ok(after) => {
                &&& after.effects.len() == before.effects.len() + restored.len()
                &&& forall|k: int|
                    0 <= k < restored.len() ==> #[trigger] after.effects[before.effects.len() + k]
                        == (EngineEffect::PlaceWindow {
                        window_id: restored[k].window_id,
                        display_id: restored[k].display_id,
                        bounds: restored[k].placement,
                    })
            },
            Err(_) => false,
        },
{
    reveal(Model::on_undo);
    reveal(Model::reversed);
    reveal(Model::windows_reversed);
    let m = undisturbed(before);
    assert forall|k: int| 0 <= k < restored.len() implies !m.breaker_open(
        (#[trigger] restored[k]).window_id.0,
    ) by {
        assert(!before.breaker_open(restored[k].window_id.0));
    }
    law_undo_puts_windows_back(m, restored, 0);
    assert(restored.skip(0) =~= restored);
    match step(before, Event::UndoRequested, a) {
        Ok(after) => {
            assert forall|k: int| 0 <= k < restored.len() implies #[trigger]
                after.effects[before.effects.len() + k] == (EngineEffect::PlaceWindow {
                window_id: restored[k].window_id,
                display_id: restored[k].display_id,
                bounds: restored[k].placement,
            }) by {
                assert(restored.map_values(|r: UndoRestoredWindow| put_back(r))[k] == put_back(
                    restored[k],
                ));
            }
        },
        Err(_) => {},
    }
}

} // verus!
