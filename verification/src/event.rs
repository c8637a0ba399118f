//! Everything that can happen to the engine.

use vstd::prelude::*;

verus! {

use crate::answers::RuleBook;
use crate::commands::ZoneSnapDirection;
use crate::config::ResolvedConfigSet;
use crate::geometry::{
    CardinalDirection, DisplayDirection, DisplayId, Rect, RecoveryEntryId, WindowId,
};
use crate::name::RequestedName;
use crate::outcome::{ParkingCapability, PersistenceHealth, RecoveryOutcome};
use crate::state::StoredTree;
use crate::undo::UndoTransaction;
use crate::window::{Display, Window};
use crate::workspace::PersistedWorkspace;

/// Where the adapter found a window.
#[derive(Debug, Clone, Copy, PartialEq, Eq, Structural)]
pub struct ObservedPlacement {
    pub window_id: WindowId,
    pub display_id: DisplayId,
    pub bounds: Rect,
}

/// An event the reducer applies to the engine's state.
#[derive(Debug, Clone, PartialEq)]
#[allow(inconsistent_fields)]
pub enum Event {
    /// A fresh display enumeration with the fingerprint of the whole
    /// topology; a hint, which may turn out to change nothing.
    DisplayTopologyChanged { displays: Vec<Display>, topology: String },
    /// Ordered persistence acknowledgement or failure from the worker.
    PersistenceHealthChanged(PersistenceHealth),
    /// The newest stored undo transaction, or `None` for empty history.
    UndoHistoryLoaded(Option<UndoTransaction>),
    /// Reverse the newest transaction, or refuse and keep it.
    UndoRequested,
    /// The container trees the state database holds.
    ContainerTreesLoaded(Vec<StoredTree>),
    /// The logical workspaces the state database holds.
    WorkspacesLoaded(Vec<PersistedWorkspace>),
    /// Create a hidden, empty workspace.
    WorkspaceCreateRequested { name: RequestedName },
    /// Delete a hidden, empty workspace configuration does not declare.
    WorkspaceDeleteRequested { name: RequestedName },
    /// Display the hidden workspace on the focused display, or focus it where
    /// it is already displayed.
    WorkspaceFocusRequested { name: RequestedName },
    /// Move the displayed workspace, exchanging it with what was there.
    WorkspaceMoveRequested { name: RequestedName, display_id: DisplayId },
    /// What the adapter concluded about a recoverable parking site.
    ParkingCapabilityReported(ParkingCapability),
    /// Ask to park a window.
    ParkingAuthorizationRequested { window_id: WindowId },
    /// The ledger made the entry for `token` durable. This, and only this,
    /// authorises the parking effect.
    RecoveryEntryDurable { token: u64, entry_id: RecoveryEntryId },
    /// The ledger could not write the entry for `token`.
    RecoveryEntryRefused { token: u64 },
    /// The adapter carried out the parking effect.
    WindowParked { window_id: WindowId, entry_id: RecoveryEntryId },
    /// The adapter could not carry out the parking effect.
    WindowParkFailed { window_id: WindowId, entry_id: RecoveryEntryId, reason: String },
    /// The parked window is back in visible geometry.
    WindowRestored { window_id: WindowId },
    /// The adapter could not put the parked window back.
    WindowRestoreFailed { window_id: WindowId, entry_id: RecoveryEntryId, reason: String },
    /// Put back every window this session parked.
    RestoreParkedWindowsRequested,
    /// Reconcile the windows a failed compensation left unaccounted for.
    WorkspaceSwitchRestoreRequested,
    /// What startup recovery did with the previous session's ledger.
    RecoveryReported(Vec<RecoveryOutcome>),
    /// A window was placed by an explicit drag or the like.
    WindowPlaced { window_id: WindowId, display_id: DisplayId, bounds: Rect },
    /// Undo the window's most recent placement.
    WindowRestoreRequested { window_id: WindowId },
    /// Move a window to the adjacent display, keeping its ratio.
    WindowThrowToDisplayRequested { window_id: WindowId, direction: DisplayDirection },
    /// A window gained foreground focus.
    WindowFocused { window_id: WindowId, display_id: DisplayId, bounds: Rect },
    /// Focus is on the desktop or another unmanaged surface.
    DesktopFocused,
    /// Selects a display even when it has no managed focused window.
    FocusDisplayRequested { display_id: DisplayId },
    /// A zone-snap hotkey fired.
    ZoneSnapRequested { direction: ZoneSnapDirection },
    /// The adapter reported where a window is.
    WindowBoundsObserved { window_id: WindowId, display_id: DisplayId, bounds: Rect },
    /// A new configuration directory validated.
    ConfigChanged(ResolvedConfigSet),
    /// Pause all window management.
    PauseRequested,
    /// Resume window management after a pause.
    ResumeRequested,
    /// Toggles the session-only automatic-tiling suspension.
    ToggleAutomaticTilingRequested,
    /// Toggles the focused managed window between floating and tiled.
    ToggleFloatingRequested,
    /// Focuses the nearest eligible window in a direction.
    DirectionalFocusRequested { direction: CardinalDirection },
    /// Swaps the focused window with its nearest neighbor in a direction.
    DirectionalSwapRequested { direction: CardinalDirection },
    /// Moves the nearest divider facing a direction.
    TreeResizeRequested { direction: CardinalDirection },
    /// Deletes a dormant slot from a display's tree.
    TreePositionRemoveRequested { display_id: DisplayId, position: u64 },
    /// The pointer started moving or resizing a window.
    InteractivePlacementStarted { window_id: WindowId },
    /// The pointer let go.
    InteractivePlacementEnded { window_id: WindowId, committed_manual_placement: bool },
    /// Every window that was already open when the agent started.
    StartupReconciliation { windows: Vec<ObservedPlacement> },
    /// Displays and windows re-enumerated after the system woke.
    WakeReconciliation {
        displays: Vec<Display>,
        topology: String,
        windows: Option<Vec<Window>>,
    },
    /// A placement was rejected by the window.
    PlacementRejected { window_id: WindowId },
    /// A placement settled within tolerance.
    PlacementAccepted { window_id: WindowId },
    /// Asks for a fresh native observation before recovery.
    RearrangeRequested,
    /// The observations collected for a rearrange.
    RearrangeReconciliationComplete { windows: Vec<Window> },
    /// A complete observation batch.
    WindowsObserved { windows: Vec<Window> },
    /// Replaces the rules. Every observed window is re-evaluated.
    RulesChanged { rules: RuleBook },
    /// Apply a saved layout to the display of the focused managed window, or to
    /// the focused display where no managed window has the focus.
    SavedLayoutApplyRequested { name: String },
    /// A hotkey editor opened.
    HotkeyCaptureStarted,
    /// A hotkey editor is gone.
    HotkeyCaptureEnded,
    /// The bindings the platform refused to register.
    HotkeyRegistrationReported { unregistered: Vec<String> },
}

} // verus!
