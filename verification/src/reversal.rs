//! Deciding what undoing the newest transaction would do.
//!
//! Every refusal comes before a single placement is planned, which is what
//! makes undo all-or-nothing.

use vstd::prelude::*;

verus! {

use crate::answers::{Answers, Candidate, MatchOutcome, Occupant, Query, Question};
use crate::geometry::{DisplayId, WindowId};
use crate::name::{request_for, RequestedName};
use crate::outcome::{PersistenceHealth, SwitchPlan, WorkspaceRefusal, WorkspaceSwitchPlan};
use crate::plans::plan_workspace_switch_on;
use crate::state::{EngineState, Model};
use crate::table::{sorted, IdSet};
use crate::text::{first_index, lemma_first_hit, same_text};
use crate::topology::{display_id_of, id_of};
use crate::undo::{
    Reversal, Stored, UndoApplied, UndoAssignment, UndoMember, UndoRefusal, UndoRestoredWindow,
    UndoResult, UndoTargetOutcome, UndoTransaction, UndoTreeSnapshot,
};
use crate::window::EligibilityReason;
use crate::workspace::lemma_filter_step;

/// `ordinals` with `ordinal` in its place.
pub open spec fn placed_in(ordinals: Seq<u32>, ordinal: u32) -> Seq<u32>
    decreases ordinals.len(),
{
    if ordinals.len() == 0 || ordinals.last() <= ordinal {
        ordinals.push(ordinal)
    } else {
        placed_in(ordinals.drop_last(), ordinal).push(ordinals.last())
    }
}

proof fn lemma_placed_in(ordinals: Seq<u32>, ordinal: u32, at: int)
    requires
        0 <= at <= ordinals.len(),
        at > 0 ==> ordinals[at - 1] <= ordinal,
        forall|k: int| at <= k < ordinals.len() ==> ordinals[k] > ordinal,
    ensures
        placed_in(ordinals, ordinal) == ordinals.insert(at, ordinal),
    decreases ordinals.len(),
{
    if at == ordinals.len() {
        assert(ordinals.insert(at, ordinal) =~= ordinals.push(ordinal));
    } else {
        lemma_placed_in(ordinals.drop_last(), ordinal, at);
        assert(ordinals.insert(at, ordinal) =~= ordinals.drop_last().insert(at, ordinal).push(
            ordinals.last(),
        ));
    }
}

/// The ordinals of the first `n` targets that claim a window, in order.
pub open spec fn claiming(targets: Seq<UndoTargetOutcome>, id: isize, n: int) -> Seq<u32>
    decreases n,
{
    if n <= 0 {
        Seq::empty()
    } else if targets[n - 1].outcome.confident() == Some(WindowId(id)) {
        placed_in(claiming(targets, id, n - 1), targets[n - 1].ordinal)
    } else {
        claiming(targets, id, n - 1)
    }
}

/// The windows the first `n` targets claim.
pub open spec fn claimed(targets: Seq<UndoTargetOutcome>, n: int) -> Set<isize>
    decreases n,
{
    if n <= 0 {
        Set::empty()
    } else {
        match targets[n - 1].outcome.confident() {
            Some(window_id) => claimed(targets, n - 1).insert(window_id.0),
            None => claimed(targets, n - 1),
        }
    }
}

pub open spec fn contested(targets: Seq<UndoTargetOutcome>, ids: Seq<isize>) -> spec_fn(int) -> bool {
    |i: int| claiming(targets, ids[i], targets.len() as int).len() > 1
}

/// The least window two targets claim, with the ordinals that do.
pub open spec fn collision(targets: Seq<UndoTargetOutcome>) -> Option<(WindowId, Seq<u32>)> {
    let ids = sorted(claimed(targets, targets.len() as int));
    match first_index(ids.len(), contested(targets, ids)) {
        Some(i) => Some((WindowId(ids[i]), claiming(targets, ids[i], targets.len() as int))),
        None => None,
    }
}

pub open spec fn unresolved(targets: Seq<UndoTargetOutcome>) -> spec_fn(int) -> bool {
    |i: int| !targets[i].resolved()
}

pub open spec fn ambiguous(targets: Seq<UndoTargetOutcome>) -> spec_fn(int) -> bool {
    |i: int| targets[i].outcome is Ambiguous
}

impl Model {
    pub open spec fn all_managed(self) -> Seq<WindowId> {
        sorted(self.inventory.dom()).map_values(|id: isize| WindowId(id))
    }

    pub open spec fn tiled_on(self, display_id: DisplayId) -> spec_fn(isize) -> bool {
        |id: isize|
            self.tiles(id) && self.inventory[id].window.display_id == display_id
                && self.inventory[id].eligibility == EligibilityReason::Eligible
    }

    /// The windows currently eligible to occupy leaves of a display's tree,
    /// by handle.
    pub open spec fn active_tiled(self, display_id: DisplayId) -> Seq<WindowId> {
        sorted(self.inventory.dom()).filter(self.tiled_on(display_id)).map_values(
            |id: isize| WindowId(id),
        )
    }

    /// What matching each member from `i` on concludes.
    pub open spec fn members_matched(
        self,
        a: Answers,
        members: Seq<UndoMember>,
        open: Seq<Candidate>,
        i: int,
        done: Seq<UndoTargetOutcome>,
    ) -> Result<Seq<UndoTargetOutcome>, Query>
        decreases members.len() - i,
    {
        if i >= members.len() {
            Ok(done)
        } else {
            match a.outcome_spec(members[i].evidence, open) {
                Err(query) => Err(query),
                Ok(outcome) => self.members_matched(
                    a,
                    members,
                    open,
                    i + 1,
                    done.push(
                        UndoTargetOutcome {
                            ordinal: members[i].ordinal,
                            application: members[i].evidence.application_id.0,
                            outcome,
                        },
                    ),
                ),
            }
        }
    }

    /// What matching the live leaves from `i` on concludes, numbered after
    /// the `before` members.
    pub open spec fn leaves_matched(
        self,
        a: Answers,
        leaves: Seq<Occupant>,
        open: Seq<Candidate>,
        before: nat,
        i: int,
        done: Seq<UndoTargetOutcome>,
    ) -> Result<Seq<UndoTargetOutcome>, Query>
        decreases leaves.len() - i,
    {
        if i >= leaves.len() {
            Ok(done)
        } else {
            match leaves[i] {
                Occupant::Dormant(_) => self.leaves_matched(a, leaves, open, before, i + 1, done),
                Occupant::Live(evidence) => match a.outcome_spec(evidence, open) {
                    Err(query) => Err(query),
                    Ok(outcome) => self.leaves_matched(
                        a,
                        leaves,
                        open,
                        before,
                        i + 1,
                        done.push(
                            UndoTargetOutcome {
                                ordinal: (before + done.len()) as u32,
                                application: evidence.application_id.0,
                                outcome,
                            },
                        ),
                    ),
                },
            }
        }
    }

    /// What matching the leaves of every snapshot from `i` on concludes.
    pub open spec fn structure_matched(
        self,
        a: Answers,
        snapshots: Seq<UndoTreeSnapshot>,
        before: nat,
        i: int,
        done: Seq<UndoTargetOutcome>,
    ) -> Result<Seq<UndoTargetOutcome>, Query>
        decreases snapshots.len() - i,
    {
        if i >= snapshots.len() {
            Ok(done)
        } else {
            match id_of(self.displays, snapshots[i].display_fingerprint@) {
                None => self.structure_matched(a, snapshots, before, i + 1, done),
                Some(display_id) => match a.leaves_spec(snapshots[i].tree) {
                    Err(query) => Err(query),
                    Ok(leaves) => match self.leaves_matched(
                        a,
                        leaves,
                        self.candidates(self.active_tiled(display_id)),
                        before,
                        0,
                        done,
                    ) {
                        Err(query) => Err(query),
                        Ok(next) => self.structure_matched(a, snapshots, before, i + 1, next),
                    },
                },
            }
        }
    }

    /// Where each member from `i` on goes, or nothing where its display is
    /// not connected.
    pub open spec fn members_restored(
        self,
        members: Seq<UndoMember>,
        targets: Seq<UndoTargetOutcome>,
        i: int,
        done: Seq<UndoRestoredWindow>,
    ) -> Option<Seq<UndoRestoredWindow>>
        decreases members.len() - i,
    {
        if i >= members.len() {
            Some(done)
        } else {
            match id_of(self.displays, members[i].prior_display_fingerprint@) {
                None => None,
                Some(display_id) => self.members_restored(
                    members,
                    targets,
                    i + 1,
                    done.push(
                        UndoRestoredWindow {
                            ordinal: members[i].ordinal,
                            window_id: targets[i].outcome.confident()->0,
                            display_id,
                            placement: members[i].prior_placement,
                        },
                    ),
                ),
            }
        }
    }

    /// The switch that would put the recorded assignments from `i` on back,
    /// or the reason it cannot be made. Nothing where they stand already.
    pub open spec fn switch_back(self, assignments: Seq<UndoAssignment>, i: int) -> Result<
        Option<SwitchPlan>,
        WorkspaceRefusal,
    >
        decreases assignments.len() - i,
    {
        if i >= assignments.len() {
            Ok(None)
        } else {
            match id_of(self.displays, assignments[i].display_fingerprint@) {
                None => self.switch_back(assignments, i + 1),
                Some(display_id) => match assignments[i].workspace {
                    None => Err(
                        WorkspaceRefusal::CannotHideWithoutReplacement {
                            display_fingerprint: assignments[i].display_fingerprint,
                        },
                    ),
                    Some(name) => {
                        let stands = match self.workspaces.displayed_on(display_id) {
                            Some(displayed) => displayed.text@ == name.text@,
                            None => false,
                        };
                        if stands {
                            self.switch_back(assignments, i + 1)
                        } else {
                            match self.switch_plan_on(display_id, request_for(name)) {
                                Ok(plan) => Ok(Some(plan)),
                                Err(refusal) => Err(refusal),
                            }
                        }
                    },
                },
            }
        }
    }

    /// What undoing does once every target is resolved.
    pub open spec fn reversal_of_resolved(
        self,
        transaction: Stored,
        targets: Seq<UndoTargetOutcome>,
    ) -> Reversal {
        let transaction_id = transaction.id;
        match collision(targets) {
            Some((window_id, ordinals)) => Reversal::TargetsCollide {
                transaction_id,
                window_id,
                ordinals,
            },
            None => match self.members_restored(transaction.members, targets, 0, Seq::empty()) {
                None => Reversal::TopologyChanged {
                    transaction_id,
                    recorded_fingerprint: transaction.topology_fingerprint,
                    current_fingerprint: self.topology,
                },
                Some(restored) => match self.switch_back(transaction.prior_assignments, 0) {
                    Err(reason) => Reversal::WorkspaceSwitchRefused { transaction_id, reason },
                    Ok(_) => Reversal::Applied {
                        transaction_id,
                        command: transaction.command,
                        restored,
                    },
                },
            },
        }
    }

    /// What undoing does for a transaction recorded under this topology.
    pub open spec fn reversal_here(self, a: Answers, transaction: Stored) -> Result<
        Reversal,
        Query,
    > {
        let transaction_id = transaction.id;
        match self.members_matched(
            a,
            transaction.members,
            self.candidates(self.all_managed()),
            0,
            Seq::empty(),
        ) {
            Err(query) => Err(query),
            Ok(targets) => if first_index(targets.len(), unresolved(targets)) is Some {
                Ok(Reversal::TargetsUnresolved { transaction_id, targets })
            } else {
                match self.structure_matched(
                    a,
                    transaction.prior_trees,
                    targets.len(),
                    0,
                    Seq::empty(),
                ) {
                    Err(query) => Err(query),
                    Ok(structure) => if first_index(structure.len(), ambiguous(structure)) is Some {
                        Ok(
                            Reversal::TargetsUnresolved {
                                transaction_id,
                                targets: targets + structure,
                            },
                        )
                    } else {
                        Ok(self.reversal_of_resolved(transaction, targets))
                    },
                }
            },
        }
    }

    #[verifier::opaque]
    pub open spec fn reversal(self, a: Answers) -> Result<Reversal, Query> {
        match self.newest_undo {
            None => Ok(Reversal::NothingToUndo),
            Some(transaction) => match self.persistence_health {
                PersistenceHealth::Degraded { reason, .. } => Ok(
                    Reversal::PersistenceDegraded { transaction_id: transaction.id, reason },
                ),
                PersistenceHealth::Healthy { .. } => if self.topology@
                    != transaction.topology_fingerprint@ {
                    Ok(
                        Reversal::TopologyChanged {
                            transaction_id: transaction.id,
                            recorded_fingerprint: transaction.topology_fingerprint,
                            current_fingerprint: self.topology,
                        },
                    )
                } else {
                    self.reversal_here(a, transaction)
                },
            },
        }
    }
}

fn place_in(ordinals: &mut Vec<u32>, ordinal: u32)
    ensures
        final(ordinals)@ == placed_in(old(ordinals)@, ordinal),
{
    let mut at: usize = ordinals.len();
    while at > 0 && ordinals[at - 1] > ordinal
        invariant
            at <= ordinals@.len(),
            *ordinals == *old(ordinals),
            forall|k: int| at <= k < ordinals@.len() ==> ordinals@[k] > ordinal,
        decreases at,
    {
        at -= 1;
    }
    proof {
        lemma_placed_in(ordinals@, ordinal, at as int);
    }
    ordinals.insert(at, ordinal);
}

fn claiming_ordinals(targets: &Vec<UndoTargetOutcome>, id: isize) -> (ordinals: Vec<u32>)
    ensures
        ordinals@ == claiming(targets@, id, targets@.len() as int),
{
    let mut ordinals: Vec<u32> = Vec::new();
    let mut n: usize = 0;
    while n < targets.len()
        invariant
            n <= targets@.len(),
            ordinals@ == claiming(targets@, id, n as int),
        decreases targets@.len() - n,
    {
        match targets[n].outcome.confident_window() {
            Some(window_id) => {
                if window_id.0 == id {
                    place_in(&mut ordinals, targets[n].ordinal);
                }
            },
            None => {},
        }
        n += 1;
    }
    ordinals
}

fn find_collision(targets: &Vec<UndoTargetOutcome>) -> (found: Option<(WindowId, Vec<u32>)>)
    ensures
        match (found, collision(targets@)) {
            (Some((window_id, ordinals)), Some((expected, numbers))) => window_id == expected
                && ordinals@ == numbers,
            (None, None) => true,
            _ => false,
        },
{
    let mut set = IdSet::new();
    let mut n: usize = 0;
    while n < targets.len()
        invariant
            n <= targets@.len(),
            set@ == claimed(targets@, n as int),
        decreases targets@.len() - n,
    {
        match targets[n].outcome.confident_window() {
            Some(window_id) => {
                set.insert(window_id.0);
            },
            None => {},
        }
        n += 1;
    }
    let ids = set.members();
    let ghost p = contested(targets@, ids@);
    let mut i: usize = 0;
    while i < ids.len()
        invariant
            i <= ids@.len(),
            ids@ == sorted(claimed(targets@, targets@.len() as int)),
            p == contested(targets@, ids@),
            first_index(i as nat, p) is None,
        decreases ids@.len() - i,
    {
        let ordinals = claiming_ordinals(targets, ids[i]);
        if ordinals.len() > 1 {
            proof {
                assert(p(i as int));
                lemma_first_hit(ids@.len(), p, i as int);
            }
            return Some((WindowId(ids[i]), ordinals));
        }
        assert(!p(i as int));
        i += 1;
    }
    None
}

fn any_unresolved(targets: &Vec<UndoTargetOutcome>) -> (found: bool)
    ensures
        found == first_index(targets@.len(), unresolved(targets@)) is Some,
{
    let mut i: usize = 0;
    while i < targets.len()
        invariant
            i <= targets@.len(),
            first_index(i as nat, unresolved(targets@)) is None,
        decreases targets@.len() - i,
    {
        if targets[i].outcome.confident_window().is_none() {
            proof {
                assert(unresolved(targets@)(i as int));
                lemma_first_hit(targets@.len(), unresolved(targets@), i as int);
            }
            return true;
        }
        assert(!unresolved(targets@)(i as int));
        i += 1;
    }
    false
}

fn any_ambiguous(targets: &Vec<UndoTargetOutcome>) -> (found: bool)
    ensures
        found == first_index(targets@.len(), ambiguous(targets@)) is Some,
{
    let mut i: usize = 0;
    while i < targets.len()
        invariant
            i <= targets@.len(),
            first_index(i as nat, ambiguous(targets@)) is None,
        decreases targets@.len() - i,
    {
        let unclear = match targets[i].outcome {
            MatchOutcome::Ambiguous { .. } => true,
            _ => false,
        };
        if unclear {
            proof {
                assert(ambiguous(targets@)(i as int));
                lemma_first_hit(targets@.len(), ambiguous(targets@), i as int);
            }
            return true;
        }
        assert(!ambiguous(targets@)(i as int));
        i += 1;
    }
    false
}

impl EngineState {
    fn managed_windows(&self) -> (windows: Vec<WindowId>)
        ensures
            windows@ == self@.all_managed(),
    {
        let keys = self.inventory.keys();
        let mut windows: Vec<WindowId> = Vec::new();
        let mut i: usize = 0;
        while i < keys.len()
            invariant
                i <= keys@.len(),
                keys@ == sorted(self.inventory@.dom()),
                windows@ == self@.all_managed().take(i as int),
            decreases keys@.len() - i,
        {
            windows.push(WindowId(keys[i]));
            i += 1;
        }
        assert(windows@ =~= self@.all_managed());
        windows
    }

    /// The windows currently eligible to occupy leaves of the display's tree.
    pub fn active_tiled_windows_on(&self, display_id: DisplayId) -> (windows: Vec<WindowId>)
        ensures
            windows@ == self@.active_tiled(display_id),
    {
        let keys = self.inventory.keys();
        let ghost all = keys@;
        let ghost pred = self@.tiled_on(display_id);
        let ghost as_window = |id: isize| WindowId(id);
        let mut windows: Vec<WindowId> = Vec::new();
        let mut i: usize = 0;
        while i < keys.len()
            invariant
                i <= keys@.len(),
                keys@ == all,
                keys@.to_set() == self.inventory@.dom(),
                pred == self@.tiled_on(display_id),
                as_window == (|id: isize| WindowId(id)),
                windows@ == all.take(i as int).filter(pred).map_values(as_window),
            decreases keys@.len() - i,
        {
            let id = keys[i];
            assert(keys@.to_set().contains(id));
            proof {
                lemma_filter_step(all, i as int, pred);
            }
            if self.takes_part(WindowId(id)) {
                match self.inventory.get(id) {
                    Some(managed) => {
                        if managed.window.display_id == display_id && managed.eligibility
                            == EligibilityReason::Eligible {
                            windows.push(WindowId(id));
                            proof {
                                let shorter = all.take(i as int).filter(pred);
                                assert(shorter.push(id).map_values(as_window)
                                    =~= shorter.map_values(as_window).push(WindowId(id)));
                            }
                        }
                    },
                    None => {},
                }
            }
            i += 1;
        }
        assert(all.take(all.len() as int) =~= all);
        windows
    }

    fn match_members(&self, a: &Answers, members: &Vec<UndoMember>, open: &Vec<Candidate>)
        -> (reply: Result<Vec<UndoTargetOutcome>, Question>)
        ensures
            match (reply, self@.members_matched(*a, members@, open@, 0, Seq::empty())) {
                (Ok(targets), Ok(expected)) => targets@ == expected,
                (Err(question), Err(query)) => question@ == query,
                _ => false,
            },
    {
        let ghost total = self@.members_matched(*a, members@, open@, 0, Seq::empty());
        let mut targets: Vec<UndoTargetOutcome> = Vec::new();
        let mut i: usize = 0;
        while i < members.len()
            invariant
                i <= members@.len(),
                total == self@.members_matched(*a, members@, open@, 0, Seq::empty()),
                self@.members_matched(*a, members@, open@, i as int, targets@) == total,
            decreases members@.len() - i,
        {
            match a.outcome(&members[i].evidence, open) {
                Ok(outcome) => {
                    targets.push(
                        UndoTargetOutcome {
                            ordinal: members[i].ordinal,
                            application: members[i].evidence.application_id.0.clone(),
                            outcome,
                        },
                    );
                },
                Err(question) => {
                    return Err(question);
                },
            }
            i += 1;
        }
        Ok(targets)
    }

    fn match_leaves(
        &self,
        a: &Answers,
        leaves: &Vec<Occupant>,
        open: &Vec<Candidate>,
        before: usize,
        done: Vec<UndoTargetOutcome>,
    ) -> (reply: Result<Vec<UndoTargetOutcome>, Question>)
        ensures
            match (
                reply,
                self@.leaves_matched(*a, leaves@, open@, before as nat, 0, done@),
            ) {
                (Ok(targets), Ok(expected)) => targets@ == expected,
                (Err(question), Err(query)) => question@ == query,
                _ => false,
            },
    {
        let ghost given = done@;
        let ghost total = self@.leaves_matched(*a, leaves@, open@, before as nat, 0, given);
        let mut matched = done;
        let mut i: usize = 0;
        while i < leaves.len()
            invariant
                i <= leaves@.len(),
                given == done@,
                total == self@.leaves_matched(*a, leaves@, open@, before as nat, 0, given),
                self@.leaves_matched(*a, leaves@, open@, before as nat, i as int, matched@)
                    == total,
            decreases leaves@.len() - i,
        {
            match &leaves[i] {
                Occupant::Live(evidence) => match a.outcome(evidence, open) {
                    Ok(outcome) => {
                        let number: u128 = before as u128 + matched.len() as u128;
                        matched.push(
                            UndoTargetOutcome {
                                ordinal: number as u32,
                                application: evidence.application_id.0.clone(),
                                outcome,
                            },
                        );
                    },
                    Err(question) => {
                        return Err(question);
                    },
                },
                Occupant::Dormant(_) => {},
            }
            i += 1;
        }
        Ok(matched)
    }

    fn match_structure(&self, a: &Answers, snapshots: &Vec<UndoTreeSnapshot>, before: usize)
        -> (reply: Result<Vec<UndoTargetOutcome>, Question>)
        ensures
            match (
                reply,
                self@.structure_matched(*a, snapshots@, before as nat, 0, Seq::empty()),
            ) {
                (Ok(targets), Ok(expected)) => targets@ == expected,
                (Err(question), Err(query)) => question@ == query,
                _ => false,
            },
    {
        let ghost total = self@.structure_matched(*a, snapshots@, before as nat, 0, Seq::empty());
        let mut done: Vec<UndoTargetOutcome> = Vec::new();
        let mut i: usize = 0;
        while i < snapshots.len()
            invariant
                i <= snapshots@.len(),
                total == self@.structure_matched(*a, snapshots@, before as nat, 0, Seq::empty()),
                self@.structure_matched(*a, snapshots@, before as nat, i as int, done@) == total,
            decreases snapshots@.len() - i,
        {
            match display_id_of(&self.displays, &snapshots[i].display_fingerprint) {
                Some(display_id) => {
                    let active = self.active_tiled_windows_on(display_id);
                    let open = self.candidates_among(&active);
                    match a.leaves(snapshots[i].tree) {
                        Ok(leaves) => match self.match_leaves(a, leaves, &open, before, done) {
                            Ok(next) => {
                                done = next;
                            },
                            Err(question) => {
                                return Err(question);
                            },
                        },
                        Err(question) => {
                            return Err(question);
                        },
                    }
                },
                None => {},
            }
            i += 1;
        }
        Ok(done)
    }

    fn restore_members(&self, members: &Vec<UndoMember>, targets: &Vec<UndoTargetOutcome>)
        -> (restored: Option<Vec<UndoRestoredWindow>>)
        requires
            targets@.len() == members@.len(),
            first_index(targets@.len(), unresolved(targets@)) is None,
        ensures
            match (restored, self@.members_restored(members@, targets@, 0, Seq::empty())) {
                (Some(list), Some(expected)) => list@ == expected,
                (None, None) => true,
                _ => false,
            },
    {
        proof {
            crate::text::lemma_first_index(targets@.len(), unresolved(targets@));
        }
        let ghost total = self@.members_restored(members@, targets@, 0, Seq::empty());
        let mut restored: Vec<UndoRestoredWindow> = Vec::new();
        let mut i: usize = 0;
        while i < members.len()
            invariant
                i <= members@.len(),
                targets@.len() == members@.len(),
                forall|k: int| 0 <= k < targets@.len() ==> !#[trigger] unresolved(targets@)(k),
                total == self@.members_restored(members@, targets@, 0, Seq::empty()),
                self@.members_restored(members@, targets@, i as int, restored@) == total,
            decreases members@.len() - i,
        {
            assert(!unresolved(targets@)(i as int));
            match display_id_of(&self.displays, &members[i].prior_display_fingerprint) {
                Some(display_id) => match targets[i].outcome.confident_window() {
                    Some(window_id) => {
                        restored.push(
                            UndoRestoredWindow {
                                ordinal: members[i].ordinal,
                                window_id,
                                display_id,
                                placement: members[i].prior_placement,
                            },
                        );
                    },
                    None => {},
                },
                None => {
                    return None;
                },
            }
            i += 1;
        }
        Some(restored)
    }

    /// The switch that would put the recorded assignments back, or the reason
    /// it cannot be made.
    pub fn plan_undo_switch_back(&self, assignments: &Vec<UndoAssignment>) -> (plan: Result<
        Option<WorkspaceSwitchPlan>,
        WorkspaceRefusal,
    >)
        ensures
            match (plan, self@.switch_back(assignments@, 0)) {
                (Ok(Some(found)), Ok(Some(expected))) => found@ == expected,
                (Ok(None), Ok(None)) => true,
                (Err(refusal), Err(expected)) => refusal == expected,
                _ => false,
            },
    {
        let ghost total = self@.switch_back(assignments@, 0);
        let mut i: usize = 0;
        while i < assignments.len()
            invariant
                i <= assignments@.len(),
                total == self@.switch_back(assignments@, 0),
                self@.switch_back(assignments@, i as int) == total,
            decreases assignments@.len() - i,
        {
            let assignment = &assignments[i];
            match display_id_of(&self.displays, &assignment.display_fingerprint) {
                Some(display_id) => match &assignment.workspace {
                    Some(name) => {
                        let stands = match self.workspaces.displayed_on(display_id) {
                            Some(displayed) => same_text(&displayed.text, &name.text),
                            None => false,
                        };
                        if !stands {
                            let request = RequestedName::for_name(name);
                            return match plan_workspace_switch_on(self, display_id, &request) {
                                Ok(plan) => Ok(Some(plan)),
                                Err(refusal) => Err(refusal),
                            };
                        }
                    },
                    None => {
                        return Err(
                            WorkspaceRefusal::CannotHideWithoutReplacement {
                                display_fingerprint: assignment.display_fingerprint.clone(),
                            },
                        );
                    },
                },
                None => {},
            }
            i += 1;
        }
        Ok(None)
    }

    fn reverse_resolved(&self, transaction: &UndoTransaction, targets: &Vec<UndoTargetOutcome>)
        -> (result: UndoResult)
        requires
            targets@.len() == transaction@.members.len(),
            first_index(targets@.len(), unresolved(targets@)) is None,
        ensures
            result@ == self@.reversal_of_resolved(transaction@, targets@),
    {
        match find_collision(targets) {
            Some((window_id, ordinals)) => {
                return UndoResult::Refused(
                    UndoRefusal::TargetsCollide {
                        transaction_id: transaction.id,
                        window_id,
                        ordinals,
                    },
                );
            },
            None => {},
        }
        let restored = match self.restore_members(&transaction.members, targets) {
            Some(restored) => restored,
            None => {
                return UndoResult::Refused(
                    UndoRefusal::TopologyChanged {
                        transaction_id: transaction.id,
                        recorded_fingerprint: transaction.topology_fingerprint.clone(),
                        current_fingerprint: self.topology.clone(),
                    },
                );
            },
        };
        match self.plan_undo_switch_back(&transaction.prior_assignments) {
            Err(reason) => UndoResult::Refused(
                UndoRefusal::WorkspaceSwitchRefused { transaction_id: transaction.id, reason },
            ),
            Ok(_) => UndoResult::Applied(
                UndoApplied {
                    transaction_id: transaction.id,
                    command: transaction.command.clone(),
                    restored,
                },
            ),
        }
    }

    fn reverse_here(&self, a: &Answers, transaction: &UndoTransaction) -> (reply: Result<
        UndoResult,
        Question,
    >)
        ensures
            match (reply, self@.reversal_here(*a, transaction@)) {
                (Ok(result), Ok(expected)) => result@ == expected,
                (Err(question), Err(query)) => question@ == query,
                _ => false,
            },
    {
        let windows = self.managed_windows();
        let open = self.candidates_among(&windows);
        let mut targets = match self.match_members(a, &transaction.members, &open) {
            Ok(targets) => targets,
            Err(question) => {
                return Err(question);
            },
        };
        proof {
            lemma_matched_len(self@, *a, transaction.members@, open@, 0, Seq::empty());
        }
        if any_unresolved(&targets) {
            return Ok(
                UndoResult::Refused(
                    UndoRefusal::TargetsUnresolved { transaction_id: transaction.id, targets },
                ),
            );
        }
        let mut structure = match self.match_structure(a, &transaction.prior_trees, targets.len()) {
            Ok(structure) => structure,
            Err(question) => {
                return Err(question);
            },
        };
        if any_ambiguous(&structure) {
            targets.append(&mut structure);
            return Ok(
                UndoResult::Refused(
                    UndoRefusal::TargetsUnresolved { transaction_id: transaction.id, targets },
                ),
            );
        }
        Ok(self.reverse_resolved(transaction, &targets))
    }
}

proof fn lemma_matched_len(
    model: Model,
    a: Answers,
    members: Seq<UndoMember>,
    open: Seq<Candidate>,
    i: int,
    done: Seq<UndoTargetOutcome>,
)
    requires
        0 <= i <= members.len(),
        done.len() == i,
    ensures
        match model.members_matched(a, members, open, i, done) {
            Ok(targets) => targets.len() == members.len(),
            Err(_) => true,
        },
    decreases members.len() - i,
{
    if i < members.len() {
        match a.outcome_spec(members[i].evidence, open) {
            Ok(outcome) => {
                lemma_matched_len(
                    model,
                    a,
                    members,
                    open,
                    i + 1,
                    done.push(
                        UndoTargetOutcome {
                            ordinal: members[i].ordinal,
                            application: members[i].evidence.application_id.0,
                            outcome,
                        },
                    ),
                );
            },
            Err(_) => {},
        }
    }
}

/// Decides what undoing the newest transaction would do, without doing it.
pub fn plan_undo(state: &EngineState, a: &Answers) -> (reply: Result<UndoResult, Question>)
    ensures
        match (reply, state@.reversal(*a)) {
            (Ok(result), Ok(expected)) => result@ == expected,
            (Err(question), Err(query)) => question@ == query,
            _ => false,
        },
{
    proof {
        reveal(Model::reversal);
    }
    let transaction = match &state.newest_undo {
        Some(transaction) => transaction,
        None => {
            return Ok(UndoResult::Refused(UndoRefusal::NothingToUndo));
        },
    };
    match state.persistence_health {
        PersistenceHealth::Degraded { reason, .. } => {
            return Ok(
                UndoResult::Refused(
                    UndoRefusal::PersistenceDegraded { transaction_id: transaction.id, reason },
                ),
            );
        },
        PersistenceHealth::Healthy { .. } => {},
    }
    if !same_text(&state.topology, &transaction.topology_fingerprint) {
        return Ok(
            UndoResult::Refused(
                UndoRefusal::TopologyChanged {
                    transaction_id: transaction.id,
                    recorded_fingerprint: transaction.topology_fingerprint.clone(),
                    current_fingerprint: state.topology.clone(),
                },
            ),
        );
    }
    state.reverse_here(a, transaction)
}

} // verus!
