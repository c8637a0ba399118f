//! Undo transactions: what one explicit command moved, as it is gathered,
//! recorded, stored and reversed.

use vstd::prelude::*;

verus! {

use crate::answers::{ContainerTree, MatchOutcome, PersistedTree};
use crate::commands::CommandLabel;
use crate::geometry::{DisplayId, Rect, UndoTransactionId, WindowId};
use crate::name::{copy_name, same_name_option, same_names, WorkspaceName};
use crate::outcome::{PersistenceFailure, WorkspaceRefusal};
use crate::table::IdSet;
use crate::text::same_text;
use crate::window::{same_evidence, WindowEvidence};

/// One window a command moved, and where it was before.
#[derive(Debug, PartialEq)]
pub struct UndoMember {
    pub ordinal: u32,
    pub prior_placement: Rect,
    pub prior_display_fingerprint: String,
    pub evidence: WindowEvidence,
}

pub open spec fn same_member(a: UndoMember, b: UndoMember) -> bool {
    &&& a.ordinal == b.ordinal
    &&& a.prior_placement == b.prior_placement
    &&& a.prior_display_fingerprint@ == b.prior_display_fingerprint@
    &&& same_evidence(a.evidence, b.evidence)
}

impl UndoMember {
    fn same(&self, other: &UndoMember) -> (same: bool)
        ensures
            same == same_member(*self, *other),
    {
        self.ordinal == other.ordinal && self.prior_placement == other.prior_placement && same_text(
            &self.prior_display_fingerprint,
            &other.prior_display_fingerprint,
        ) && self.evidence.same(&other.evidence)
    }
}

impl Clone for UndoMember {
    fn clone(&self) -> (copy: UndoMember)
        ensures
            copy == *self,
    {
        UndoMember {
            ordinal: self.ordinal,
            prior_placement: self.prior_placement,
            prior_display_fingerprint: self.prior_display_fingerprint.clone(),
            evidence: self.evidence.clone(),
        }
    }
}

/// A container tree as it stood before a command reshaped it.
#[derive(Debug, PartialEq)]
pub struct UndoTreeSnapshot {
    pub display_fingerprint: String,
    pub tree: PersistedTree,
}

pub open spec fn same_snapshot(a: UndoTreeSnapshot, b: UndoTreeSnapshot) -> bool {
    a.display_fingerprint@ == b.display_fingerprint@ && a.tree == b.tree
}

impl Clone for UndoTreeSnapshot {
    fn clone(&self) -> (copy: UndoTreeSnapshot)
        ensures
            copy == *self,
    {
        UndoTreeSnapshot {
            display_fingerprint: self.display_fingerprint.clone(),
            tree: self.tree,
        }
    }
}

/// The workspace a display showed before a command changed it.
#[derive(Debug, PartialEq)]
pub struct UndoAssignment {
    pub display_fingerprint: String,
    pub workspace: Option<WorkspaceName>,
}

pub open spec fn same_assignment(a: UndoAssignment, b: UndoAssignment) -> bool {
    a.display_fingerprint@ == b.display_fingerprint@ && same_name_option(a.workspace, b.workspace)
}

impl Clone for UndoAssignment {
    fn clone(&self) -> (copy: UndoAssignment)
        ensures
            copy == *self,
    {
        UndoAssignment {
            display_fingerprint: self.display_fingerprint.clone(),
            workspace: copy_name(&self.workspace),
        }
    }
}

/// One explicit command's reversible changes, ready to be stored.
#[derive(Debug, PartialEq)]
pub struct UndoTransactionDraft {
    pub command: String,
    pub recorded_at_unix: i64,
    pub topology_fingerprint: String,
    pub durable_revision: u64,
    pub members: Vec<UndoMember>,
    pub prior_trees: Vec<UndoTreeSnapshot>,
    pub prior_assignments: Vec<UndoAssignment>,
}

/// An [`UndoTransactionDraft`] with its text and lists as sequences.
#[verifier::ext_equal]
pub ghost struct Draft {
    pub command: Seq<char>,
    pub recorded_at_unix: i64,
    pub topology_fingerprint: String,
    pub durable_revision: u64,
    pub members: Seq<UndoMember>,
    pub prior_trees: Seq<UndoTreeSnapshot>,
    pub prior_assignments: Seq<UndoAssignment>,
}

impl View for UndoTransactionDraft {
    type V = Draft;

    open spec fn view(&self) -> Draft {
        Draft {
            command: self.command@,
            recorded_at_unix: self.recorded_at_unix,
            topology_fingerprint: self.topology_fingerprint,
            durable_revision: self.durable_revision,
            members: self.members@,
            prior_trees: self.prior_trees@,
            prior_assignments: self.prior_assignments@,
        }
    }
}

impl Clone for UndoTransactionDraft {
    fn clone(&self) -> (copy: UndoTransactionDraft)
        ensures
            copy@ == self@,
    {
        let members = self.members.clone();
        let prior_trees = self.prior_trees.clone();
        let prior_assignments = self.prior_assignments.clone();
        assert(members@ =~= self.members@);
        assert(prior_trees@ =~= self.prior_trees@);
        assert(prior_assignments@ =~= self.prior_assignments@);
        UndoTransactionDraft {
            command: self.command.clone(),
            recorded_at_unix: self.recorded_at_unix,
            topology_fingerprint: self.topology_fingerprint.clone(),
            durable_revision: self.durable_revision,
            members,
            prior_trees,
            prior_assignments,
        }
    }
}

/// A stored transaction.
#[derive(Debug, PartialEq)]
pub struct UndoTransaction {
    pub id: UndoTransactionId,
    pub command: String,
    pub recorded_at_unix: i64,
    pub topology_fingerprint: String,
    pub durable_revision: u64,
    pub members: Vec<UndoMember>,
    pub prior_trees: Vec<UndoTreeSnapshot>,
    pub prior_assignments: Vec<UndoAssignment>,
}

/// An [`UndoTransaction`] with its lists as sequences.
#[verifier::ext_equal]
pub ghost struct Stored {
    pub id: UndoTransactionId,
    pub command: String,
    pub recorded_at_unix: i64,
    pub topology_fingerprint: String,
    pub durable_revision: u64,
    pub members: Seq<UndoMember>,
    pub prior_trees: Seq<UndoTreeSnapshot>,
    pub prior_assignments: Seq<UndoAssignment>,
}

impl View for UndoTransaction {
    type V = Stored;

    open spec fn view(&self) -> Stored {
        Stored {
            id: self.id,
            command: self.command,
            recorded_at_unix: self.recorded_at_unix,
            topology_fingerprint: self.topology_fingerprint,
            durable_revision: self.durable_revision,
            members: self.members@,
            prior_trees: self.prior_trees@,
            prior_assignments: self.prior_assignments@,
        }
    }
}

impl Clone for UndoTransaction {
    fn clone(&self) -> (copy: UndoTransaction)
        ensures
            copy@ == self@,
    {
        let members = self.members.clone();
        let prior_trees = self.prior_trees.clone();
        let prior_assignments = self.prior_assignments.clone();
        assert(members@ =~= self.members@);
        assert(prior_trees@ =~= self.prior_trees@);
        assert(prior_assignments@ =~= self.prior_assignments@);
        UndoTransaction {
            id: self.id,
            command: self.command.clone(),
            recorded_at_unix: self.recorded_at_unix,
            topology_fingerprint: self.topology_fingerprint.clone(),
            durable_revision: self.durable_revision,
            members,
            prior_trees,
            prior_assignments,
        }
    }
}

pub open spec fn same_members(a: Seq<UndoMember>, b: Seq<UndoMember>) -> bool {
    a.len() == b.len() && forall|i: int| 0 <= i < a.len() ==> #[trigger] same_member(a[i], b[i])
}

pub open spec fn same_snapshots(a: Seq<UndoTreeSnapshot>, b: Seq<UndoTreeSnapshot>) -> bool {
    a.len() == b.len() && forall|i: int| 0 <= i < a.len() ==> #[trigger] same_snapshot(a[i], b[i])
}

pub open spec fn same_assignments(a: Seq<UndoAssignment>, b: Seq<UndoAssignment>) -> bool {
    a.len() == b.len() && forall|i: int| 0 <= i < a.len() ==> #[trigger] same_assignment(a[i], b[i])
}

/// Two stored transactions that say the same thing.
pub open spec fn same_stored(a: Stored, b: Stored) -> bool {
    &&& a.id == b.id
    &&& a.command@ == b.command@
    &&& a.recorded_at_unix == b.recorded_at_unix
    &&& a.topology_fingerprint@ == b.topology_fingerprint@
    &&& a.durable_revision == b.durable_revision
    &&& same_members(a.members, b.members)
    &&& same_snapshots(a.prior_trees, b.prior_trees)
    &&& same_assignments(a.prior_assignments, b.prior_assignments)
}

pub open spec fn same_history(a: Option<Stored>, b: Option<Stored>) -> bool {
    match (a, b) {
        (Some(x), Some(y)) => same_stored(x, y),
        (None, None) => true,
        _ => false,
    }
}

fn same_member_lists(a: &Vec<UndoMember>, b: &Vec<UndoMember>) -> (same: bool)
    ensures
        same == same_members(a@, b@),
{
    if a.len() != b.len() {
        return false;
    }
    let mut i: usize = 0;
    while i < a.len()
        invariant
            i <= a@.len(),
            a@.len() == b@.len(),
            forall|j: int| 0 <= j < i ==> #[trigger] same_member(a@[j], b@[j]),
        decreases a@.len() - i,
    {
        if !a[i].same(&b[i]) {
            assert(!same_member(a@[i as int], b@[i as int]));
            return false;
        }
        i += 1;
    }
    true
}

fn same_snapshot_lists(a: &Vec<UndoTreeSnapshot>, b: &Vec<UndoTreeSnapshot>) -> (same: bool)
    ensures
        same == same_snapshots(a@, b@),
{
    if a.len() != b.len() {
        return false;
    }
    let mut i: usize = 0;
    while i < a.len()
        invariant
            i <= a@.len(),
            a@.len() == b@.len(),
            forall|j: int| 0 <= j < i ==> #[trigger] same_snapshot(a@[j], b@[j]),
        decreases a@.len() - i,
    {
        if !(same_text(&a[i].display_fingerprint, &b[i].display_fingerprint) && a[i].tree
            == b[i].tree) {
            assert(!same_snapshot(a@[i as int], b@[i as int]));
            return false;
        }
        i += 1;
    }
    true
}

fn same_assignment_lists(a: &Vec<UndoAssignment>, b: &Vec<UndoAssignment>) -> (same: bool)
    ensures
        same == same_assignments(a@, b@),
{
    if a.len() != b.len() {
        return false;
    }
    let mut i: usize = 0;
    while i < a.len()
        invariant
            i <= a@.len(),
            a@.len() == b@.len(),
            forall|j: int| 0 <= j < i ==> #[trigger] same_assignment(a@[j], b@[j]),
        decreases a@.len() - i,
    {
        if !(same_text(&a[i].display_fingerprint, &b[i].display_fingerprint) && same_names(
            &a[i].workspace,
            &b[i].workspace,
        )) {
            assert(!same_assignment(a@[i as int], b@[i as int]));
            return false;
        }
        i += 1;
    }
    true
}

impl UndoTransaction {
    pub fn same(&self, other: &UndoTransaction) -> (same: bool)
        ensures
            same == same_stored(self@, other@),
    {
        self.id == other.id && same_text(&self.command, &other.command) && self.recorded_at_unix
            == other.recorded_at_unix && same_text(
            &self.topology_fingerprint,
            &other.topology_fingerprint,
        ) && self.durable_revision == other.durable_revision && same_member_lists(
            &self.members,
            &other.members,
        ) && same_snapshot_lists(&self.prior_trees, &other.prior_trees) && same_assignment_lists(
            &self.prior_assignments,
            &other.prior_assignments,
        )
    }
}

/// A tree captured when a command started.
#[derive(Debug, Clone, Copy, PartialEq, Eq, Structural)]
pub struct CapturedTree {
    pub display_id: DisplayId,
    pub tree: ContainerTree,
}

/// A displayed workspace captured when a command started.
#[derive(Debug, PartialEq)]
pub struct CapturedAssignment {
    pub display_id: DisplayId,
    pub workspace: Option<WorkspaceName>,
}

impl Clone for CapturedAssignment {
    fn clone(&self) -> (copy: CapturedAssignment)
        ensures
            copy == *self,
    {
        CapturedAssignment { display_id: self.display_id, workspace: copy_name(&self.workspace) }
    }
}

/// Everything one explicit command has moved so far, gathered so it can be
/// reversed as a unit. A window is captured the first time the command moves
/// it, at the position it held beforehand.
#[derive(Debug, PartialEq)]
pub struct UndoScope {
    pub command: CommandLabel,
    pub members: Vec<UndoMember>,
    pub claimed: IdSet,
    pub prior_trees: Vec<CapturedTree>,
    pub prior_assignments: Vec<CapturedAssignment>,
}

#[verifier::ext_equal]
pub ghost struct Scope {
    pub command: CommandLabel,
    pub members: Seq<UndoMember>,
    pub claimed: Set<isize>,
    pub prior_trees: Seq<CapturedTree>,
    pub prior_assignments: Seq<CapturedAssignment>,
}

impl View for UndoScope {
    type V = Scope;

    open spec fn view(&self) -> Scope {
        Scope {
            command: self.command,
            members: self.members@,
            claimed: self.claimed@,
            prior_trees: self.prior_trees@,
            prior_assignments: self.prior_assignments@,
        }
    }
}

impl Clone for UndoScope {
    fn clone(&self) -> (copy: UndoScope)
        ensures
            copy@ == self@,
    {
        let members = self.members.clone();
        let prior_trees = self.prior_trees.clone();
        let prior_assignments = self.prior_assignments.clone();
        assert(members@ =~= self.members@);
        assert(prior_trees@ =~= self.prior_trees@);
        assert(prior_assignments@ =~= self.prior_assignments@);
        UndoScope {
            command: self.command.clone(),
            members,
            claimed: self.claimed.clone(),
            prior_trees,
            prior_assignments,
        }
    }
}

/// What matching one recorded window concluded.
#[derive(Debug, PartialEq)]
pub struct UndoTargetOutcome {
    pub ordinal: u32,
    pub application: String,
    pub outcome: MatchOutcome,
}

impl UndoTargetOutcome {
    pub open spec fn resolved(self) -> bool {
        self.outcome.confident() is Some
    }
}

impl Clone for UndoTargetOutcome {
    fn clone(&self) -> (copy: UndoTargetOutcome)
        ensures
            copy == *self,
    {
        UndoTargetOutcome {
            ordinal: self.ordinal,
            application: self.application.clone(),
            outcome: self.outcome,
        }
    }
}

/// One window undo puts back.
#[derive(Debug, Clone, Copy, PartialEq, Eq, Structural)]
pub struct UndoRestoredWindow {
    pub ordinal: u32,
    pub window_id: WindowId,
    pub display_id: DisplayId,
    pub placement: Rect,
}

#[derive(Debug, PartialEq)]
pub struct UndoApplied {
    pub transaction_id: UndoTransactionId,
    pub command: String,
    pub restored: Vec<UndoRestoredWindow>,
}

/// Why undo changes nothing and keeps the transaction.
#[derive(Debug, PartialEq)]
#[allow(inconsistent_fields)]
pub enum UndoRefusal {
    NothingToUndo,
    PersistenceDegraded { transaction_id: UndoTransactionId, reason: PersistenceFailure },
    TopologyChanged {
        transaction_id: UndoTransactionId,
        recorded_fingerprint: String,
        current_fingerprint: String,
    },
    TargetsUnresolved { transaction_id: UndoTransactionId, targets: Vec<UndoTargetOutcome> },
    TargetsCollide {
        transaction_id: UndoTransactionId,
        window_id: WindowId,
        ordinals: Vec<u32>,
    },
    WorkspaceSwitchRefused { transaction_id: UndoTransactionId, reason: WorkspaceRefusal },
}

/// What an undo request concluded.
#[derive(Debug, PartialEq)]
pub enum UndoResult {
    Applied(UndoApplied),
    Refused(UndoRefusal),
}

/// An [`UndoResult`] with its lists as sequences.
#[allow(inconsistent_fields)]
pub ghost enum Reversal {
    Applied {
        transaction_id: UndoTransactionId,
        command: String,
        restored: Seq<UndoRestoredWindow>,
    },
    NothingToUndo,
    PersistenceDegraded { transaction_id: UndoTransactionId, reason: PersistenceFailure },
    TopologyChanged {
        transaction_id: UndoTransactionId,
        recorded_fingerprint: String,
        current_fingerprint: String,
    },
    TargetsUnresolved { transaction_id: UndoTransactionId, targets: Seq<UndoTargetOutcome> },
    TargetsCollide {
        transaction_id: UndoTransactionId,
        window_id: WindowId,
        ordinals: Seq<u32>,
    },
    WorkspaceSwitchRefused { transaction_id: UndoTransactionId, reason: WorkspaceRefusal },
}

impl View for UndoResult {
    type V = Reversal;

    open spec fn view(&self) -> Reversal {
        match *self {
            UndoResult::Applied(applied) => Reversal::Applied {
                transaction_id: applied.transaction_id,
                command: applied.command,
                restored: applied.restored@,
            },
            UndoResult::Refused(UndoRefusal::NothingToUndo) => Reversal::NothingToUndo,
            UndoResult::Refused(UndoRefusal::PersistenceDegraded { transaction_id, reason }) =>
                Reversal::PersistenceDegraded { transaction_id, reason },
            UndoResult::Refused(
                UndoRefusal::TopologyChanged {
                    transaction_id,
                    recorded_fingerprint,
                    current_fingerprint,
                },
            ) => Reversal::TopologyChanged {
                transaction_id,
                recorded_fingerprint,
                current_fingerprint,
            },
            UndoResult::Refused(UndoRefusal::TargetsUnresolved { transaction_id, targets }) =>
                Reversal::TargetsUnresolved { transaction_id, targets: targets@ },
            UndoResult::Refused(
                UndoRefusal::TargetsCollide { transaction_id, window_id, ordinals },
            ) => Reversal::TargetsCollide { transaction_id, window_id, ordinals: ordinals@ },
            UndoResult::Refused(UndoRefusal::WorkspaceSwitchRefused { transaction_id, reason }) =>
                Reversal::WorkspaceSwitchRefused { transaction_id, reason },
        }
    }
}

impl Clone for UndoResult {
    fn clone(&self) -> (copy: UndoResult)
        ensures
            copy@ == self@,
    {
        match self {
            UndoResult::Applied(applied) => {
                let restored = applied.restored.clone();
                assert(restored@ =~= applied.restored@);
                UndoResult::Applied(
                    UndoApplied {
                        transaction_id: applied.transaction_id,
                        command: applied.command.clone(),
                        restored,
                    },
                )
            },
            UndoResult::Refused(refusal) => {
                let refusal = match refusal {
                    UndoRefusal::NothingToUndo => UndoRefusal::NothingToUndo,
                    UndoRefusal::PersistenceDegraded { transaction_id, reason } =>
                        UndoRefusal::PersistenceDegraded {
                            transaction_id: *transaction_id,
                            reason: *reason,
                        },
                    UndoRefusal::TopologyChanged {
                        transaction_id,
                        recorded_fingerprint,
                        current_fingerprint,
                    } => UndoRefusal::TopologyChanged {
                        transaction_id: *transaction_id,
                        recorded_fingerprint: recorded_fingerprint.clone(),
                        current_fingerprint: current_fingerprint.clone(),
                    },
                    UndoRefusal::TargetsUnresolved { transaction_id, targets } => {
                        let copied = targets.clone();
                        assert(copied@ =~= targets@);
                        UndoRefusal::TargetsUnresolved {
                            transaction_id: *transaction_id,
                            targets: copied,
                        }
                    },
                    UndoRefusal::TargetsCollide { transaction_id, window_id, ordinals } => {
                        let copied = ordinals.clone();
                        assert(copied@ =~= ordinals@);
                        UndoRefusal::TargetsCollide {
                            transaction_id: *transaction_id,
                            window_id: *window_id,
                            ordinals: copied,
                        }
                    },
                    UndoRefusal::WorkspaceSwitchRefused { transaction_id, reason } =>
                        UndoRefusal::WorkspaceSwitchRefused {
                            transaction_id: *transaction_id,
                            reason: reason.clone(),
                        },
                };
                UndoResult::Refused(refusal)
            },
        }
    }
}

} // verus!
