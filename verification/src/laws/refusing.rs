//! Why an undo is refused, where an undone switch goes back, and what is noted
//! of a placement.

use vstd::prelude::*;

verus! {

use crate::answers::{Answer, Answers, MatchOutcome, Query};
use crate::event::Event;
use crate::geometry::{CycleStep, DisplayId, HorizontalDirection, Rect, WindowId};
use crate::laws::belonging::{
    fingerprinted, lemma_fingerprinted, lemma_shown, lemma_spelled, shown_at,
};
use crate::laws::commands::undisturbed;
use crate::laws::reversing::{lemma_members_matched, lemma_members_matched_length};
use crate::name::{request_for, WorkspaceName};
use crate::outcome::{SwitchPlan, WorkspaceRefusal};
use crate::reducer::step;
use crate::reversal::{claimed, claiming, collision, contested, placed_in};
use crate::state::{EngineEffect, Model};
use crate::table::sorted;
use crate::text::{first_index, lemma_first_index};
use crate::undo::{Reversal, UndoAssignment, UndoMember, UndoTargetOutcome, UndoTransaction};

/// A recorded window that is matched confidently to `window_id`.
pub open spec fn claims(target: UndoTargetOutcome, window_id: WindowId) -> bool {
    target.outcome == (MatchOutcome::Confident { window_id })
}

spec fn rising(ordinals: Seq<u32>) -> bool {
    forall|i: int, j: int| 0 <= i < j < ordinals.len() ==> ordinals[i] <= ordinals[j]
}

proof fn lemma_in_place(ordinals: Seq<u32>, ordinal: u32, x: u32)
    requires
        rising(ordinals),
    ensures
        ({
            let after = placed_in(ordinals, ordinal);
            &&& rising(after)
            &&& after.len() == ordinals.len() + 1
            &&& after.contains(x) <==> ordinals.contains(x) || x == ordinal
            &&& after.last() == if ordinals.len() == 0 || ordinals.last() <= ordinal {
                ordinal
            } else {
                ordinals.last()
            }
        }),
    decreases ordinals.len(),
{
    if ordinals.len() == 0 || ordinals.last() <= ordinal {
        let after = ordinals.push(ordinal);
        assert forall|i: int, j: int| 0 <= i < j < after.len() implies after[i] <= after[j] by {
            if j == ordinals.len() {
                if i < ordinals.len() - 1 {
                    assert(ordinals[i] <= ordinals[ordinals.len() - 1]);
                }
            }
        }
        if ordinals.contains(x) {
            let k = choose|k: int| 0 <= k < ordinals.len() && ordinals[k] == x;
            assert(after[k] == x);
        }
        assert(after[ordinals.len() as int] == ordinal);
        if after.contains(x) && x != ordinal {
            let k = choose|k: int| 0 <= k < after.len() && after[k] == x;
            assert(ordinals[k] == x);
        }
    } else {
        let rest = ordinals.drop_last();
        lemma_in_place(rest, ordinal, x);
        let inner = placed_in(rest, ordinal);
        let after = inner.push(ordinals.last());
        assert(rest.len() > 0 ==> rest.last() == ordinals[ordinals.len() - 2]);
        assert(inner.last() <= ordinals.last());
        assert forall|i: int, j: int| 0 <= i < j < after.len() implies after[i] <= after[j] by {
            if j == inner.len() {
                if i < inner.len() - 1 {
                    assert(inner[i] <= inner[inner.len() - 1]);
                }
            }
        }
        if ordinals.contains(x) {
            let k = choose|k: int| 0 <= k < ordinals.len() && ordinals[k] == x;
            if k < rest.len() {
                assert(rest[k] == x);
                assert(inner.contains(x));
            }
        }
        if inner.contains(x) {
            let k = choose|k: int| 0 <= k < inner.len() && inner[k] == x;
            assert(after[k] == x);
            if rest.contains(x) {
                let r = choose|r: int| 0 <= r < rest.len() && rest[r] == x;
                assert(ordinals[r] == x);
            }
        }
        assert(after[inner.len() as int] == ordinals.last());
        assert(ordinals[ordinals.len() - 1] == ordinals.last());
        if after.contains(x) && x != ordinals.last() {
            let k = choose|k: int| 0 <= k < after.len() && after[k] == x;
            assert(inner[k] == x);
        }
    }
}

proof fn lemma_who_claims(targets: Seq<UndoTargetOutcome>, id: isize, n: int, x: u32)
    requires
        0 <= n <= targets.len(),
    ensures
        rising(claiming(targets, id, n)),
        claiming(targets, id, n).contains(x) <==> exists|i: int|
            0 <= i < n && claims(#[trigger] targets[i], WindowId(id)) && targets[i].ordinal == x,
        claiming(targets, id, n).len() >= 1 ==> exists|i: int|
            0 <= i < n && claims(#[trigger] targets[i], WindowId(id)),
        claiming(targets, id, n).len() >= 2 ==> exists|i: int, j: int|
            0 <= i < j < n && claims(#[trigger] targets[i], WindowId(id)) && claims(
                #[trigger] targets[j],
                WindowId(id),
            ),
    decreases n,
{
    if n > 0 {
        lemma_who_claims(targets, id, n - 1, x);
        let before = claiming(targets, id, n - 1);
        let last = targets[n - 1];
        if claims(last, WindowId(id)) {
            lemma_in_place(before, last.ordinal, x);
            assert(claims(targets[n - 1], WindowId(id)));
            if before.len() >= 1 {
                let i = choose|i: int|
                    0 <= i < n - 1 && claims(#[trigger] targets[i], WindowId(id));
                assert(0 <= i < n - 1 < n);
                assert(claims(targets[i], WindowId(id)) && claims(targets[n - 1], WindowId(id)));
            }
        }
    }
}

/// A collision is two recorded windows that are matched to one: the ordinals it
/// names are those of everyone matched to that window, ascending, and there are
/// at least two.
pub proof fn law_a_collision_is_one_window_for_two(targets: Seq<UndoTargetOutcome>, x: u32)
    ensures
        collision(targets) matches Some((window_id, ordinals)) ==> {
            &&& exists|i: int, j: int|
                0 <= i < j < targets.len() && claims(#[trigger] targets[i], window_id) && claims(
                    #[trigger] targets[j],
                    window_id,
                )
            &&& (ordinals.contains(x) <==> exists|i: int|
                0 <= i < targets.len() && claims(#[trigger] targets[i], window_id)
                    && targets[i].ordinal == x)
            &&& ordinals.len() >= 2
            &&& forall|i: int, j: int|
                0 <= i < j < ordinals.len() ==> ordinals[i] <= ordinals[j]
        },
{
    match collision(targets) {
        Some((window_id, ordinals)) => {
            let n = targets.len() as int;
            let ids = sorted(claimed(targets, n));
            let p = contested(targets, ids);
            lemma_first_index(ids.len(), p);
            let i = first_index(ids.len(), p)->0;
            assert(p(i));
            lemma_who_claims(targets, ids[i], n, x);
        },
        None => {},
    }
}

/// What matching a recorded window against the managed ones concluded.
pub open spec fn matched(m: Model, a: Answers, member: UndoMember, outcome: MatchOutcome) -> bool {
    a.look_up(
        Query::Match { evidence: member.evidence, candidates: m.candidates(m.all_managed()) },
    ) == Some(Answer::Outcome(outcome))
}

/// An undo is refused for a reason that holds: the displays are others than
/// recorded, or one of them is missing; two recorded windows are matched to one
/// window; or a recorded window, or a position of a recorded tree, is matched
/// to none for certain.
pub proof fn law_an_undo_is_refused_for_a_reason(m: Model, a: Answers)
    ensures
        match m.reversal(a) {
            Ok(Reversal::TopologyChanged { recorded_fingerprint, current_fingerprint, .. }) => {
                let transaction = m.newest_undo->0;
                &&& recorded_fingerprint == transaction.topology_fingerprint
                &&& current_fingerprint == m.topology
                &&& (recorded_fingerprint@ != current_fingerprint@ || exists|k: int|
                    #![trigger transaction.members[k]]
                    0 <= k < transaction.members.len() && forall|d: int|
                        0 <= d < m.displays.len() ==> (
                        #[trigger] m.displays[d]).stable_fingerprint@
                            != transaction.members[k].prior_display_fingerprint@)
            },
            Ok(Reversal::TargetsCollide { window_id, ordinals, .. }) => {
                let members = (m.newest_undo->0).members;
                &&& ordinals.len() >= 2
                &&& exists|i: int, j: int|
                    #![trigger members[i], members[j]]
                    0 <= i < j < members.len() && matched(
                        m,
                        a,
                        members[i],
                        MatchOutcome::Confident { window_id },
                    ) && matched(m, a, members[j], MatchOutcome::Confident { window_id })
            },
            Ok(Reversal::TargetsUnresolved { targets, .. }) => {
                let members = (m.newest_undo->0).members;
                &&& targets.len() >= members.len()
                &&& (targets.len() == members.len() ==> exists|k: int|
                    #![trigger members[k]]
                    0 <= k < members.len() && matched(m, a, members[k], targets[k].outcome)
                        && !(targets[k].outcome is Confident))
                &&& (targets.len() > members.len() ==> exists|k: int|
                    members.len() <= k < targets.len() && (
                    #[trigger] targets[k]).outcome is Ambiguous)
            },
            _ => true,
        },
{
    reveal(Model::reversal);
    match m.newest_undo {
        None => {},
        Some(transaction) => {
            let members = transaction.members;
            let open = m.candidates(m.all_managed());
            lemma_members_matched_length(m, a, members, open, 0, Seq::empty());
            match m.members_matched(a, members, open, 0, Seq::empty()) {
                Err(_) => {},
                Ok(targets) => {
                    assert forall|k: int|
                        #![trigger members[k]]
                        0 <= k < members.len() implies matched(
                        m,
                        a,
                        members[k],
                        targets[k].outcome,
                    ) by {
                        lemma_members_matched(m, a, members, open, 0, Seq::empty(), k);
                    }
                    let p = crate::reversal::unresolved(targets);
                    lemma_first_index(targets.len(), p);
                    match first_index(targets.len(), p) {
                        Some(k) => {
                            assert(p(k));
                            assert(matched(m, a, members[k], targets[k].outcome));
                        },
                        None => {
                            match m.structure_matched(
                                a,
                                transaction.prior_trees,
                                targets.len(),
                                0,
                                Seq::empty(),
                            ) {
                                Err(_) => {},
                                Ok(structure) => {
                                    let q = crate::reversal::ambiguous(structure);
                                    lemma_first_index(structure.len(), q);
                                    match first_index(structure.len(), q) {
                                        Some(k) => {
                                            assert(q(k));
                                            let all = targets + structure;
                                            assert(all[targets.len() + k] == structure[k]);
                                        },
                                        None => {
                                            lemma_refused_late(m, a, targets, members);
                                        },
                                    }
                                },
                            }
                        },
                    }
                },
            }
        },
    }
}

proof fn lemma_refused_late(
    m: Model,
    a: Answers,
    targets: Seq<UndoTargetOutcome>,
    members: Seq<UndoMember>,
)
    requires
        targets.len() == members.len(),
        forall|k: int|
            #![trigger members[k]]
            0 <= k < members.len() ==> matched(m, a, members[k], targets[k].outcome),
    ensures
        collision(targets) matches Some((window_id, ordinals)) ==> ordinals.len() >= 2 && exists|
            i: int,
            j: int,
        |
            #![trigger members[i], members[j]]
            0 <= i < j < members.len() && matched(
                m,
                a,
                members[i],
                MatchOutcome::Confident { window_id },
            ) && matched(m, a, members[j], MatchOutcome::Confident { window_id }),
        m.members_restored(members, targets, 0, Seq::empty()) is None ==> exists|k: int|
            #![trigger members[k]]
            0 <= k < members.len() && forall|d: int|
                0 <= d < m.displays.len() ==> (#[trigger] m.displays[d]).stable_fingerprint@
                    != members[k].prior_display_fingerprint@,
{
    law_a_collision_is_one_window_for_two(targets, 0);
    match collision(targets) {
        Some((window_id, _)) => {
            let (i, j) = choose|i: int, j: int|
                0 <= i < j < targets.len() && claims(#[trigger] targets[i], window_id) && claims(
                    #[trigger] targets[j],
                    window_id,
                );
            assert(matched(m, a, members[i], targets[i].outcome));
            assert(matched(m, a, members[j], targets[j].outcome));
        },
        None => {},
    }
    lemma_missing_display(m, members, targets, 0, Seq::empty());
}

proof fn lemma_missing_display(
    m: Model,
    members: Seq<UndoMember>,
    targets: Seq<UndoTargetOutcome>,
    i: int,
    done: Seq<crate::undo::UndoRestoredWindow>,
)
    requires
        0 <= i <= members.len(),
    ensures
        m.members_restored(members, targets, i, done) is None ==> exists|k: int|
            #![trigger members[k]]
            0 <= k < members.len() && forall|d: int|
                0 <= d < m.displays.len() ==> (#[trigger] m.displays[d]).stable_fingerprint@
                    != members[k].prior_display_fingerprint@,
    decreases members.len() - i,
{
    if i < members.len() {
        let fingerprint = members[i].prior_display_fingerprint@;
        lemma_fingerprinted(m.displays, fingerprint, 0);
        match crate::topology::id_of(m.displays, fingerprint) {
            None => {
                assert(members[i].prior_display_fingerprint@ == fingerprint);
            },
            Some(display_id) => {
                lemma_missing_display(
                    m,
                    members,
                    targets,
                    i + 1,
                    done.push(
                        crate::undo::UndoRestoredWindow {
                            ordinal: members[i].ordinal,
                            window_id: targets[i].outcome.confident()->0,
                            display_id,
                            placement: members[i].prior_placement,
                        },
                    ),
                );
            },
        }
    }
}

/// Whether a recorded assignment needs nothing: its display is not there, or
/// shows the recorded workspace.
#[verifier::opaque]
pub open spec fn needs_nothing(m: Model, assignment: UndoAssignment) -> bool {
    (forall|d: int|
        0 <= d < m.displays.len() ==> (#[trigger] m.displays[d]).stable_fingerprint@
            != assignment.display_fingerprint@) || exists|at: int, s: int|
        #![trigger m.displays[at], m.workspaces.list[s]]
        fingerprinted(m.displays, assignment.display_fingerprint@, at) && shown_at(
            m.workspaces,
            m.displays[at].id,
            s,
        ) && (assignment.workspace matches Some(name) && m.workspaces.list[s].name.text@
            == name.text@)
}

/// Whether a switch is the one that puts a recorded assignment back.
#[verifier::opaque]
pub open spec fn goes_back(m: Model, assignment: UndoAssignment, plan: SwitchPlan) -> bool {
    exists|at: int, t: int|
        #![trigger m.displays[at], m.workspaces.list[t]]
        fingerprinted(m.displays, assignment.display_fingerprint@, at) && plan.display_id
            == m.displays[at].id && 0 <= t < m.workspaces.list.len() && plan.target
            == m.workspaces.list[t].name && (assignment.workspace matches Some(name)
            && plan.target.key@ == name.key@)
}

proof fn lemma_stands(m: Model, assignment: UndoAssignment)
    ensures
        needs_nothing(m, assignment) <==> match crate::topology::id_of(
            m.displays,
            assignment.display_fingerprint@,
        ) {
            None => true,
            Some(display_id) => match (
                assignment.workspace,
                m.workspaces.displayed_on(display_id),
            ) {
                (Some(name), Some(displayed)) => displayed.text@ == name.text@,
                _ => false,
            },
        },
{
    reveal(needs_nothing);
    let fingerprint = assignment.display_fingerprint@;
    lemma_fingerprinted(m.displays, fingerprint, 0);
    match crate::topology::id_of(m.displays, fingerprint) {
        None => {},
        Some(display_id) => {
            let here = choose|k: int| #[trigger] fingerprinted(m.displays, fingerprint, k);
            lemma_fingerprinted(m.displays, fingerprint, here);
            match m.workspaces.displayed_at(display_id) {
                Some(s) => {
                    lemma_shown(m.workspaces, display_id, s);
                    assert(m.displays[here].id == display_id);
                    assert(shown_at(m.workspaces, m.displays[here].id, s));
                },
                None => {},
            }
            assert forall|at: int, s: int|
                #![trigger m.displays[at], m.workspaces.list[s]]
                fingerprinted(m.displays, fingerprint, at) && shown_at(
                    m.workspaces,
                    m.displays[at].id,
                    s,
                ) implies m.workspaces.displayed_on(display_id) == Some(
                m.workspaces.list[s].name,
            ) by {
                lemma_fingerprinted(m.displays, fingerprint, at);
                lemma_shown(m.workspaces, display_id, s);
            }
        },
    }
}

/// Putting recorded assignments back asks for the first switch that is needed
/// and for none that is not: nothing where every display shows what was
/// recorded of it, otherwise the recorded workspace on the recorded display.
pub proof fn law_an_undone_switch_goes_back(m: Model, assignments: Seq<UndoAssignment>, i: int)
    requires
        0 <= i <= assignments.len(),
    ensures
        match m.switch_back(assignments, i) {
            Ok(None) => forall|k: int|
                i <= k < assignments.len() ==> needs_nothing(m, #[trigger] assignments[k]),
            Ok(Some(plan)) => exists|k: int|
                {
                    &&& i <= k < assignments.len()
                    &&& goes_back(m, #[trigger] assignments[k], plan)
                    &&& !needs_nothing(m, assignments[k])
                    &&& forall|j: int|
                        i <= j < k ==> needs_nothing(m, #[trigger] assignments[j])
                },
            Err(_) => exists|k: int|
                i <= k < assignments.len() && !needs_nothing(m, #[trigger] assignments[k]),
        },
    decreases assignments.len() - i,
{
    if i < assignments.len() {
        let assignment = assignments[i];
        lemma_stands(m, assignment);
        if needs_nothing(m, assignment) {
            law_an_undone_switch_goes_back(m, assignments, i + 1);
            assert(m.switch_back(assignments, i) == m.switch_back(assignments, i + 1));
            match m.switch_back(assignments, i + 1) {
                Ok(None) => {},
                Ok(Some(plan)) => {
                    let k = choose|k: int|
                        {
                            &&& i + 1 <= k < assignments.len()
                            &&& goes_back(m, #[trigger] assignments[k], plan)
                            &&& !needs_nothing(m, assignments[k])
                            &&& forall|j: int|
                                i + 1 <= j < k ==> needs_nothing(m, #[trigger] assignments[j])
                        };
                    assert forall|j: int| i <= j < k implies needs_nothing(
                        m,
                        #[trigger] assignments[j],
                    ) by {}
                    assert(goes_back(m, assignments[k], plan));
                },
                Err(_) => {
                    let k = choose|k: int|
                        i + 1 <= k < assignments.len() && !needs_nothing(
                            m,
                            #[trigger] assignments[k],
                        );
                    assert(!needs_nothing(m, assignments[k]));
                },
            }
        } else {
            match m.switch_back(assignments, i) {
                Ok(Some(plan)) => {
                    let display_id = crate::topology::id_of(
                        m.displays,
                        assignment.display_fingerprint@,
                    )->0;
                    let name = assignment.workspace->0;
                    assert(m.switch_plan_on(display_id, request_for(name)) == Ok::<
                        SwitchPlan,
                        WorkspaceRefusal,
                    >(plan));
                    lemma_goes_back(m, assignment, display_id, name, plan);
                    assert(goes_back(m, assignments[i], plan));
                },
                _ => {
                    assert(!needs_nothing(m, assignments[i]));
                },
            }
        }
    }
}

proof fn lemma_goes_back(
    m: Model,
    assignment: UndoAssignment,
    display_id: DisplayId,
    name: WorkspaceName,
    plan: SwitchPlan,
)
    requires
        crate::topology::id_of(m.displays, assignment.display_fingerprint@) == Some(display_id),
        assignment.workspace == Some(name),
        m.switch_plan_on(display_id, request_for(name)) == Ok::<
            SwitchPlan,
            WorkspaceRefusal,
        >(plan),
    ensures
        goes_back(m, assignment, plan),
{
    reveal(goes_back);
    lemma_fingerprinted(m.displays, assignment.display_fingerprint@, 0);
    let here = choose|k: int| #[trigger]
        fingerprinted(m.displays, assignment.display_fingerprint@, k);
    lemma_fingerprinted(m.displays, assignment.display_fingerprint@, here);
    let t = m.workspaces.find(name)->0;
    lemma_spelled(m.workspaces, name, t);
    assert(plan.display_id == m.displays[here].id);
    assert(plan.target == m.workspaces.list[t].name);
}

/// What is noted of a placement: where the window goes, where it was, and that
/// it was told; its rejections and the step of its zone stay as they were
/// unless the placement is a step of its own.
pub proof fn law_what_is_noted_of_a_placement(
    m: Model,
    window_id: WindowId,
    display_id: DisplayId,
    bounds: Rect,
    cycle_step: Option<(HorizontalDirection, CycleStep)>,
    id: isize,
)
    requires
        m.windows.contains_key(window_id.0),
        m.windows[window_id.0].rejection_count < 3,
    ensures
        ({
            let after = m.placed(window_id, display_id, bounds, cycle_step);
            let was = m.windows[window_id.0];
            let is = after.windows[window_id.0];
            &&& is.display_id == display_id
            &&& is.bounds == bounds
            &&& is.observed_bounds == bounds
            &&& is.previous_placement == Some((was.display_id, was.bounds))
            &&& is.rejection_count == was.rejection_count
            &&& is.cycle_step == if cycle_step is Some {
                cycle_step
            } else {
                was.cycle_step
            }
            &&& after.effects == m.effects.push(
                EngineEffect::PlaceWindow { window_id, display_id, bounds },
            )
            &&& (m.inventory.contains_key(window_id.0) ==> after.inventory.contains_key(
                window_id.0,
            ) && after.inventory[window_id.0].window.bounds == bounds
                && after.inventory[window_id.0].window.display_id == display_id
                && after.inventory[window_id.0].action == m.inventory[window_id.0].action
                && after.inventory[window_id.0].eligibility
                == m.inventory[window_id.0].eligibility)
            &&& (id != window_id.0 ==> after.windows[id] == m.windows[id]
                && after.inventory[id] == m.inventory[id])
        }),
{
}

/// The history that was loaded is the one an undo goes by.
pub proof fn law_the_loaded_history_is_undone(
    before: Model,
    a: Answers,
    transaction: Option<UndoTransaction>,
    k: int,
)
    ensures
        match step(before, Event::UndoHistoryLoaded(transaction), a) {
            Ok(after) => {
                &&& after.newest_undo is Some <==> transaction is Some
                &&& (transaction matches Some(loaded) ==> {
                    let held = after.newest_undo->0;
                    &&& held.id == loaded.id
                    &&& held.command@ == loaded.command@
                    &&& held.topology_fingerprint@ == loaded.topology_fingerprint@
                    &&& held.members.len() == loaded.members@.len()
                    &&& (0 <= k < loaded.members@.len() ==> held.members[k].ordinal
                        == loaded.members@[k].ordinal && held.members[k].prior_placement
                        == loaded.members@[k].prior_placement
                        && held.members[k].prior_display_fingerprint@
                        == loaded.members@[k].prior_display_fingerprint@)
                })
                &&& after == (Model {
                    newest_undo: after.newest_undo,
                    revision: after.revision,
                    ..undisturbed(before)
                })
            },
            Err(_) => false,
        },
{
    match (before.newest_undo, transaction) {
        (Some(x), Some(y)) => {
            if 0 <= k < y.members@.len() && crate::undo::same_stored(x, y@) {
                assert(crate::undo::same_member(x.members[k], y@.members[k]));
            }
        },
        _ => {},
    }
}

} // verus!
