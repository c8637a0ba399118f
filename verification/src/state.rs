//! Everything the engine knows.

use vstd::prelude::*;

verus! {

use crate::answers::{ContainerTree, PersistedTree, RuleBook};
use crate::config::{Config, ConfigSet, ResolvedConfig, ResolvedConfigSet};
use crate::geometry::{
    DisplayId, Rect, RecoveryEntryId, UndoTransactionId, WindowId,
};
use crate::name::WorkspaceName;
use crate::outcome::{
    all_seen, seen, Conclusion, Degraded, ParkingCapability, ParkingFailure, ParkingRefusal,
    PersistenceHealth, RecoveryDraft, RecoveryOutcome, Switching, WorkspaceCommandResult,
    WorkspaceSwitchDegraded, WorkspaceSwitchTransaction, WorkspaceSwitchingUnavailable,
};
use crate::table::{IdSet, Table};
use crate::text::copy_option;
use crate::undo::{
    Draft, Reversal, Scope, Stored, UndoResult, UndoScope, UndoTransaction, UndoTransactionDraft,
};
use crate::window::{Display, ManagedWindow, Window, WindowEvidence, WindowPlacement};
use crate::workspace::{PersistedWorkspace, Pool, WorkspacePool};

/// A platform-neutral operation the engine has committed and an adapter must
/// perform, in reducer order.
#[derive(Debug, Clone, Copy, PartialEq, Eq, Structural)]
pub enum EngineEffect {
    PlaceWindow { window_id: WindowId, display_id: DisplayId, bounds: Rect },
    FocusWindow { window_id: WindowId },
    /// Requests a fresh native display and window observation.
    ReconcileWindows,
    /// Move the window out of visible geometry. Emitted only once the
    /// recovery ledger has acknowledged the entry as durable.
    ParkWindow { window_id: WindowId, entry_id: RecoveryEntryId },
    /// Put the parked window back where the ledger entry recorded it.
    RestoreWindow { window_id: WindowId, entry_id: RecoveryEntryId },
}

/// A durable write the reducer has committed to but does not perform.
#[derive(Debug, PartialEq)]
pub enum PersistenceIntent {
    /// Store one explicit command's reversible placements.
    RecordUndoTransaction(UndoTransactionDraft),
    /// Remove a transaction that has just been undone.
    ConsumeUndoTransaction(UndoTransactionId),
    /// Store one display's container tree under its stable fingerprint.
    SaveContainerTree { display_fingerprint: String, tree: PersistedTree },
    /// Store one logical workspace.
    SaveWorkspace(PersistedWorkspace),
    /// Forget a workspace the user deleted.
    DeleteWorkspace(WorkspaceName),
    /// Record recovery data for a window about to be parked.
    RecordRecovery { token: u64, draft: RecoveryDraft },
    /// The parking effect for this entry was carried out.
    MarkParked(RecoveryEntryId),
    /// The window this entry describes is back in visible geometry.
    MarkRestored(RecoveryEntryId),
}

/// A [`PersistenceIntent`] with its lists as sequences.
#[allow(inconsistent_fields)]
pub ghost enum Intent {
    RecordUndoTransaction(Draft),
    ConsumeUndoTransaction(UndoTransactionId),
    SaveContainerTree { display_fingerprint: String, tree: PersistedTree },
    SaveWorkspace(PersistedWorkspace),
    DeleteWorkspace(WorkspaceName),
    RecordRecovery { token: u64, draft: RecoveryDraft },
    MarkParked(RecoveryEntryId),
    MarkRestored(RecoveryEntryId),
}

impl View for PersistenceIntent {
    type V = Intent;

    open spec fn view(&self) -> Intent {
        match *self {
            PersistenceIntent::RecordUndoTransaction(draft) => Intent::RecordUndoTransaction(
                draft@,
            ),
            PersistenceIntent::ConsumeUndoTransaction(id) => Intent::ConsumeUndoTransaction(id),
            PersistenceIntent::SaveContainerTree { display_fingerprint, tree } =>
                Intent::SaveContainerTree { display_fingerprint, tree },
            PersistenceIntent::SaveWorkspace(workspace) => Intent::SaveWorkspace(workspace),
            PersistenceIntent::DeleteWorkspace(name) => Intent::DeleteWorkspace(name),
            PersistenceIntent::RecordRecovery { token, draft } => Intent::RecordRecovery {
                token,
                draft,
            },
            PersistenceIntent::MarkParked(entry_id) => Intent::MarkParked(entry_id),
            PersistenceIntent::MarkRestored(entry_id) => Intent::MarkRestored(entry_id),
        }
    }
}

impl Clone for PersistenceIntent {
    fn clone(&self) -> (copy: PersistenceIntent)
        ensures
            copy@ == self@,
    {
        match self {
            PersistenceIntent::RecordUndoTransaction(draft) =>
                PersistenceIntent::RecordUndoTransaction(draft.clone()),
            PersistenceIntent::ConsumeUndoTransaction(id) =>
                PersistenceIntent::ConsumeUndoTransaction(*id),
            PersistenceIntent::SaveContainerTree { display_fingerprint, tree } =>
                PersistenceIntent::SaveContainerTree {
                    display_fingerprint: display_fingerprint.clone(),
                    tree: *tree,
                },
            PersistenceIntent::SaveWorkspace(workspace) => PersistenceIntent::SaveWorkspace(
                workspace.clone(),
            ),
            PersistenceIntent::DeleteWorkspace(name) => PersistenceIntent::DeleteWorkspace(
                name.clone(),
            ),
            PersistenceIntent::RecordRecovery { token, draft } =>
                PersistenceIntent::RecordRecovery { token: *token, draft: draft.clone() },
            PersistenceIntent::MarkParked(entry_id) => PersistenceIntent::MarkParked(*entry_id),
            PersistenceIntent::MarkRestored(entry_id) => PersistenceIntent::MarkRestored(*entry_id),
        }
    }
}

/// A window waiting for its recovery entry to become durable before it may
/// be parked.
#[derive(Debug, Clone, Copy, PartialEq, Eq)]
pub struct PendingParking {
    pub token: u64,
    pub window_id: WindowId,
    /// The switch transaction this parking belongs to, when it is part of
    /// one.
    pub transaction: Option<u64>,
}

/// A rule named a workspace the pool does not hold.
#[derive(Debug, PartialEq)]
pub struct RuleWorkspaceRefusal {
    pub window_id: WindowId,
    pub rule_id: Option<String>,
    pub workspace: String,
}

impl Clone for RuleWorkspaceRefusal {
    fn clone(&self) -> (copy: RuleWorkspaceRefusal)
        ensures
            copy == *self,
    {
        RuleWorkspaceRefusal {
            window_id: self.window_id,
            rule_id: copy_option(&self.rule_id),
            workspace: self.workspace.clone(),
        }
    }
}

/// The one native move or resize the pointer currently owns.
#[derive(Debug, Clone, Copy, PartialEq, Eq, Structural)]
pub struct InteractivePlacementSession {
    pub window_id: WindowId,
    pub display_id: DisplayId,
}

/// A window listed under a display.
#[derive(Debug, Clone, Copy, PartialEq, Eq, Structural)]
pub struct Listed {
    pub display_id: DisplayId,
    pub window_id: WindowId,
}

/// A stored tree, by the display it was written for.
#[derive(Debug, PartialEq)]
pub struct StoredTree {
    pub display_fingerprint: String,
    pub tree: PersistedTree,
}

impl Clone for StoredTree {
    fn clone(&self) -> (copy: StoredTree)
        ensures
            copy == *self,
    {
        StoredTree { display_fingerprint: self.display_fingerprint.clone(), tree: self.tree }
    }
}

/// State the reducer owns and is the only writer of.
#[derive(Debug, PartialEq)]
pub struct EngineState {
    /// Bumped on every committed mutation.
    pub revision: u64,
    pub persistence_health: PersistenceHealth,
    /// Durable writes the reducer has committed to. Appended to, never
    /// rewritten.
    pub persistence_intents: Vec<PersistenceIntent>,
    /// The only transaction undo will consider.
    pub newest_undo: Option<UndoTransaction>,
    /// What the last undo request concluded.
    pub last_undo_result: Option<UndoResult>,
    /// The explicit command currently being applied. `None` between events.
    pub undo_scope: Option<UndoScope>,
    /// Each display's container tree, when tree mode is the arrangement.
    pub trees: Table<ContainerTree>,
    /// Stored arrangements waiting for their display to have windows.
    pub pending_trees: Vec<StoredTree>,
    /// Each display's tree as it was last written out.
    pub saved_trees: Table<ContainerTree>,
    /// What would recognise each tiled window if it closed.
    pub leaf_evidence: Table<WindowEvidence>,
    /// The windows each display's tree could not fit at their minimum size.
    pub constraint_overflow: Vec<Listed>,
    pub workspaces: WorkspacePool,
    /// What the last workspace command concluded.
    pub last_workspace_result: Option<WorkspaceCommandResult>,
    /// Rules that named a workspace the pool does not hold.
    pub rule_workspace_refusals: Vec<RuleWorkspaceRefusal>,
    /// Why the matched profile's switching mapping is not in effect.
    pub switching_unavailable: Option<WorkspaceSwitchingUnavailable>,
    pub parking_capability: ParkingCapability,
    /// This agent session's identity in the recovery ledger.
    pub session_id: String,
    /// Windows whose recovery entry has been requested but not yet
    /// acknowledged durable.
    pub pending_parking: Vec<PendingParking>,
    pub next_parking_token: u64,
    /// Every window this session has parked, with its ledger entry.
    pub parked_windows: Table<RecoveryEntryId>,
    /// The workspace switch currently in flight.
    pub switch: Option<WorkspaceSwitchTransaction>,
    pub next_switch_id: u64,
    /// Set when compensation for a failed switch could not put every window
    /// back.
    pub switch_degraded: Option<WorkspaceSwitchDegraded>,
    /// What the last switch transaction concluded.
    pub last_switch_result: Option<WorkspaceCommandResult>,
    /// What the last parking authorisation request concluded.
    pub last_parking_refusal: Option<ParkingRefusal>,
    /// The last native park or restore the adapter could not carry out.
    pub last_parking_failure: Option<ParkingFailure>,
    /// What startup recovery did with the previous session's ledger.
    pub recovery_outcomes: Vec<RecoveryOutcome>,
    pub displays: Vec<Display>,
    /// The fingerprint of `displays` as a whole.
    pub topology: String,
    /// Where each tracked window currently sits.
    pub windows: Table<WindowPlacement>,
    /// Authoritative managed-window inventory.
    pub inventory: Table<ManagedWindow>,
    /// Latest observations, including rule-excluded windows.
    pub observed_windows: Table<Window>,
    /// The rules currently used to resolve the inventory.
    pub rules: RuleBook,
    /// Stable member order of each display's arrangement.
    pub visual_window_order: Vec<Listed>,
    /// Session-only manual-placement overrides.
    pub session_floating: IdSet,
    /// Session-only overrides that let a floating-rule window join the grid.
    pub session_tiled: IdSet,
    pub focused_window: Option<WindowId>,
    /// Last display targeted by focus or an explicit display command.
    pub focused_display: Option<DisplayId>,
    /// The configuration in force.
    pub resolved_config: ResolvedConfig,
    /// The base configuration with every profile.
    pub config_set: ResolvedConfigSet,
    /// Whether window management is paused.
    pub paused: bool,
    /// Whether the matched topology profile currently owns automatic tiling.
    pub automatic_tiling_active: bool,
    /// Session-only override over a tiling-enabled profile.
    pub automatic_tiling_suspended: bool,
    pub interactive_placement: Option<InteractivePlacementSession>,
    /// Displays whose reflow waits for interactive placement to end.
    pub deferred_reflow_displays: IdSet,
    /// Ordered effects emitted by committed placement transitions.
    pub effects: Vec<EngineEffect>,
    /// The saved layout most recently applied to each display.
    pub last_applied_layouts: Table<String>,
    /// Whether a hotkey editor is open and every binding must therefore stay
    /// unregistered.
    pub hotkey_capture_suspended: bool,
    /// How many editors currently hold suspension.
    pub capture_holds: usize,
    /// The bindings the most recent registration pass could not register.
    pub unregistered_bindings: Vec<String>,
}

/// The engine's state as a mathematical value.
#[verifier::ext_equal]
pub ghost struct Model {
    pub revision: u64,
    pub persistence_health: PersistenceHealth,
    pub intents: Seq<Intent>,
    pub newest_undo: Option<Stored>,
    pub last_undo_result: Option<Reversal>,
    pub undo_scope: Option<Scope>,
    pub trees: Map<isize, ContainerTree>,
    pub pending_trees: Seq<StoredTree>,
    pub saved_trees: Map<isize, ContainerTree>,
    pub leaf_evidence: Map<isize, WindowEvidence>,
    pub constraint_overflow: Seq<Listed>,
    pub workspaces: Pool,
    pub last_workspace_result: Option<Conclusion>,
    pub rule_workspace_refusals: Seq<RuleWorkspaceRefusal>,
    pub switching_unavailable: Option<WorkspaceSwitchingUnavailable>,
    pub parking_capability: ParkingCapability,
    pub session_id: String,
    pub pending_parking: Seq<PendingParking>,
    pub next_parking_token: u64,
    pub parked_windows: Map<isize, RecoveryEntryId>,
    pub switch: Option<Switching>,
    pub next_switch_id: u64,
    pub switch_degraded: Option<Degraded>,
    pub last_switch_result: Option<Conclusion>,
    pub last_parking_refusal: Option<ParkingRefusal>,
    pub last_parking_failure: Option<ParkingFailure>,
    pub recovery_outcomes: Seq<RecoveryOutcome>,
    pub displays: Seq<Display>,
    pub topology: String,
    pub windows: Map<isize, WindowPlacement>,
    pub inventory: Map<isize, ManagedWindow>,
    pub observed_windows: Map<isize, Window>,
    pub rules: RuleBook,
    pub order: Seq<Listed>,
    pub session_floating: Set<isize>,
    pub session_tiled: Set<isize>,
    pub focused_window: Option<WindowId>,
    pub focused_display: Option<DisplayId>,
    pub config: Config,
    pub config_set: ConfigSet,
    pub paused: bool,
    pub tiling_active: bool,
    pub tiling_suspended: bool,
    pub interactive: Option<InteractivePlacementSession>,
    pub deferred: Set<isize>,
    pub effects: Seq<EngineEffect>,
    pub last_applied_layouts: Map<isize, String>,
    pub capture_suspended: bool,
    pub capture_holds: usize,
    pub unregistered_bindings: Seq<String>,
}

impl Model {
    /// Every window collection is finite.
    pub open spec fn finite(self) -> bool {
        &&& self.windows.dom().finite()
        &&& self.inventory.dom().finite()
        &&& self.parked_windows.dom().finite()
        &&& self.workspaces.members.dom().finite()
    }
}

impl View for EngineState {
    type V = Model;

    open spec fn view(&self) -> Model {
        Model {
            revision: self.revision,
            persistence_health: self.persistence_health,
            intents: all_seen(self.persistence_intents@),
            newest_undo: seen(self.newest_undo),
            last_undo_result: seen(self.last_undo_result),
            undo_scope: seen(self.undo_scope),
            trees: self.trees@,
            pending_trees: self.pending_trees@,
            saved_trees: self.saved_trees@,
            leaf_evidence: self.leaf_evidence@,
            constraint_overflow: self.constraint_overflow@,
            workspaces: self.workspaces@,
            last_workspace_result: seen(self.last_workspace_result),
            rule_workspace_refusals: self.rule_workspace_refusals@,
            switching_unavailable: self.switching_unavailable,
            parking_capability: self.parking_capability,
            session_id: self.session_id,
            pending_parking: self.pending_parking@,
            next_parking_token: self.next_parking_token,
            parked_windows: self.parked_windows@,
            switch: seen(self.switch),
            next_switch_id: self.next_switch_id,
            switch_degraded: seen(self.switch_degraded),
            last_switch_result: seen(self.last_switch_result),
            last_parking_refusal: self.last_parking_refusal,
            last_parking_failure: self.last_parking_failure,
            recovery_outcomes: self.recovery_outcomes@,
            displays: self.displays@,
            topology: self.topology,
            windows: self.windows@,
            inventory: self.inventory@,
            observed_windows: self.observed_windows@,
            rules: self.rules,
            order: self.visual_window_order@,
            session_floating: self.session_floating@,
            session_tiled: self.session_tiled@,
            focused_window: self.focused_window,
            focused_display: self.focused_display,
            config: self.resolved_config@,
            config_set: self.config_set@,
            paused: self.paused,
            tiling_active: self.automatic_tiling_active,
            tiling_suspended: self.automatic_tiling_suspended,
            interactive: self.interactive_placement,
            deferred: self.deferred_reflow_displays@,
            effects: self.effects@,
            last_applied_layouts: self.last_applied_layouts@,
            capture_suspended: self.hotkey_capture_suspended,
            capture_holds: self.capture_holds,
            unregistered_bindings: self.unregistered_bindings@,
        }
    }
}

/// The next value of a counter. Counters wrap.
pub open spec fn bumped(counter: u64) -> u64 {
    if counter == u64::MAX {
        0
    } else {
        (counter + 1) as u64
    }
}

pub fn bump(counter: u64) -> (next: u64)
    ensures
        next == bumped(counter),
{
    if counter == u64::MAX {
        0
    } else {
        counter + 1
    }
}

/// The revision after a committed mutation. It never goes back, not even at
/// the limit of its type.
pub open spec fn raised(revision: u64) -> u64 {
    if revision == u64::MAX {
        u64::MAX
    } else {
        (revision + 1) as u64
    }
}

impl Model {
    pub open spec fn revised(self) -> Model {
        Model { revision: raised(self.revision), ..self }
    }

    pub open spec fn effect(self, effect: EngineEffect) -> Model {
        Model { effects: self.effects.push(effect), ..self }
    }

    pub open spec fn intent(self, intent: Intent) -> Model {
        Model { intents: self.intents.push(intent), ..self }
    }
}

impl EngineState {
    pub fn revise(&mut self)
        ensures
            final(self)@ == old(self)@.revised(),
    {
        if self.revision < u64::MAX {
            self.revision += 1;
        }
    }

    pub fn emit(&mut self, effect: EngineEffect)
        ensures
            final(self)@ == old(self)@.effect(effect),
    {
        self.effects.push(effect);
    }

    pub fn record(&mut self, intent: PersistenceIntent)
        ensures
            final(self)@ == old(self)@.intent(intent@),
    {
        self.persistence_intents.push(intent);
        assert(self@.intents =~= old(self)@.intents.push(intent@));
    }
}

} // verus!
