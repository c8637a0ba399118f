//! What commands conclude, and the records the engine keeps about work in
//! progress.

use vstd::prelude::*;
use vstd::string::*;

verus! {

use crate::geometry::{DisplayId, RecoveryEntryId, Rect, UndoTransactionId, WindowId};
use crate::name::{copy_name, WorkspaceName, WorkspaceNameError};
use crate::text::copy_option;
use crate::window::{ApplicationId, Window, WindowLifecycle};

/// Why committed state is not durable.
#[derive(Debug, Clone, Copy, PartialEq, Eq, Structural)]
pub enum PersistenceFailure {
    OpenFailed,
    WriteFailed,
    WorkerStopped,
}

/// Whether committed state is currently durable.
#[derive(Debug, Clone, Copy, PartialEq, Eq, Structural)]
pub enum PersistenceHealth {
    Healthy { last_durable_revision: u64 },
    Degraded { last_durable_revision: u64, reason: PersistenceFailure },
}

/// What the adapter concluded about a recoverable parking site.
#[derive(Debug, PartialEq)]
pub enum ParkingCapability {
    Unverified,
    Verified,
    Refused { reason: String },
}

pub open spec fn same_capability(a: ParkingCapability, b: ParkingCapability) -> bool {
    match (a, b) {
        (ParkingCapability::Refused { reason: x }, ParkingCapability::Refused { reason: y }) => x@
            == y@,
        (ParkingCapability::Refused { .. }, _) => false,
        (_, ParkingCapability::Refused { .. }) => false,
        _ => a == b,
    }
}

impl ParkingCapability {
    pub fn same(&self, other: &ParkingCapability) -> (same: bool)
        ensures
            same == same_capability(*self, *other),
    {
        match (self, other) {
            (ParkingCapability::Unverified, ParkingCapability::Unverified) => true,
            (ParkingCapability::Verified, ParkingCapability::Verified) => true,
            (ParkingCapability::Refused { reason: a }, ParkingCapability::Refused { reason: b }) =>
                *a == *b,
            _ => false,
        }
    }
}

impl Clone for ParkingCapability {
    fn clone(&self) -> (copy: ParkingCapability)
        ensures
            copy == *self,
    {
        match self {
            ParkingCapability::Unverified => ParkingCapability::Unverified,
            ParkingCapability::Verified => ParkingCapability::Verified,
            ParkingCapability::Refused { reason } => ParkingCapability::Refused {
                reason: reason.clone(),
            },
        }
    }
}

/// Why a window may not be parked.
#[derive(Debug, PartialEq)]
pub enum ParkingRefusal {
    NotManaged { window_id: WindowId },
    PersistenceDegraded,
    ParkingCapabilityUnverified,
    ParkingRefused { reason: String },
    Fullscreen { window_id: WindowId },
    Minimized { window_id: WindowId },
    AlreadyPending { window_id: WindowId },
    UnknownDisplay { window_id: WindowId },
}

impl Clone for ParkingRefusal {
    fn clone(&self) -> (copy: ParkingRefusal)
        ensures
            copy == *self,
    {
        match self {
            ParkingRefusal::NotManaged { window_id } => ParkingRefusal::NotManaged {
                window_id: *window_id,
            },
            ParkingRefusal::PersistenceDegraded => ParkingRefusal::PersistenceDegraded,
            ParkingRefusal::ParkingCapabilityUnverified =>
                ParkingRefusal::ParkingCapabilityUnverified,
            ParkingRefusal::ParkingRefused { reason } => ParkingRefusal::ParkingRefused {
                reason: reason.clone(),
            },
            ParkingRefusal::Fullscreen { window_id } => ParkingRefusal::Fullscreen {
                window_id: *window_id,
            },
            ParkingRefusal::Minimized { window_id } => ParkingRefusal::Minimized {
                window_id: *window_id,
            },
            ParkingRefusal::AlreadyPending { window_id } => ParkingRefusal::AlreadyPending {
                window_id: *window_id,
            },
            ParkingRefusal::UnknownDisplay { window_id } => ParkingRefusal::UnknownDisplay {
                window_id: *window_id,
            },
        }
    }
}

/// Which native move failed.
#[derive(Debug, Clone, Copy, PartialEq, Eq, Structural)]
pub enum ParkingStage {
    Park,
    Restore,
}

/// A native park or restore the adapter could not carry out.
#[derive(Debug, PartialEq)]
pub struct ParkingFailure {
    pub window_id: WindowId,
    pub entry_id: RecoveryEntryId,
    pub stage: ParkingStage,
    pub reason: String,
}

impl Clone for ParkingFailure {
    fn clone(&self) -> (copy: ParkingFailure)
        ensures
            copy == *self,
    {
        ParkingFailure {
            window_id: self.window_id,
            entry_id: self.entry_id,
            stage: self.stage,
            reason: self.reason.clone(),
        }
    }
}

/// How a window was shown before it was parked.
#[derive(Debug, Clone, Copy, PartialEq, Eq, Structural)]
pub enum ShowState {
    Normal,
    Minimized,
    Maximized,
}

pub open spec fn show_state(lifecycle: WindowLifecycle) -> ShowState {
    match lifecycle {
        WindowLifecycle::Maximized => ShowState::Maximized,
        WindowLifecycle::Minimized => ShowState::Minimized,
        _ => ShowState::Normal,
    }
}

/// What a later session needs to put a parked window back.
#[derive(Debug, PartialEq)]
pub struct RecoveryDraft {
    pub session_id: String,
    pub native_handle: isize,
    pub process_id: u32,
    pub application_id: ApplicationId,
    pub original_display_fingerprint: String,
    pub visible_bounds: Rect,
    pub normal_bounds: Rect,
    pub show_state: ShowState,
    pub recorded_at_unix: i64,
}

/// The recovery data of `window`, on the display called `fingerprint`.
pub open spec fn recovery_data(
    window: Window,
    session_id: String,
    fingerprint: String,
    normal_bounds: Rect,
    now_unix: i64,
) -> RecoveryDraft {
    RecoveryDraft {
        session_id,
        native_handle: window.id.0,
        process_id: window.process_id,
        application_id: window.application_id,
        original_display_fingerprint: fingerprint,
        visible_bounds: window.bounds,
        normal_bounds,
        show_state: show_state(window.lifecycle),
        recorded_at_unix: now_unix,
    }
}

impl RecoveryDraft {
    pub fn capture(
        window: &Window,
        session_id: &String,
        fingerprint: String,
        normal_bounds: Rect,
        now_unix: i64,
    ) -> (draft: RecoveryDraft)
        ensures
            draft == recovery_data(*window, *session_id, fingerprint, normal_bounds, now_unix),
    {
        RecoveryDraft {
            session_id: session_id.clone(),
            native_handle: window.id.0,
            process_id: window.process_id,
            application_id: window.application_id.clone(),
            original_display_fingerprint: fingerprint,
            visible_bounds: window.bounds,
            normal_bounds,
            show_state: match window.lifecycle {
                WindowLifecycle::Maximized => ShowState::Maximized,
                WindowLifecycle::Minimized => ShowState::Minimized,
                _ => ShowState::Normal,
            },
            recorded_at_unix: now_unix,
        }
    }
}

impl Clone for RecoveryDraft {
    fn clone(&self) -> (copy: RecoveryDraft)
        ensures
            copy == *self,
    {
        RecoveryDraft {
            session_id: self.session_id.clone(),
            native_handle: self.native_handle,
            process_id: self.process_id,
            application_id: self.application_id.clone(),
            original_display_fingerprint: self.original_display_fingerprint.clone(),
            visible_bounds: self.visible_bounds,
            normal_bounds: self.normal_bounds,
            show_state: self.show_state,
            recorded_at_unix: self.recorded_at_unix,
        }
    }
}

/// What probing a recorded window handle found.
#[derive(Debug, Clone, Copy, PartialEq, Eq, Structural)]
pub enum HandleVerdict {
    Verified,
    Stale,
    Reused,
}

/// What startup recovery did with one entry of the previous session.
#[derive(Debug, PartialEq)]
pub struct RecoveryOutcome {
    pub entry_id: RecoveryEntryId,
    pub native_handle: isize,
    pub application_id: ApplicationId,
    pub verdict: HandleVerdict,
    pub restored: bool,
    pub failure: Option<String>,
}

impl Clone for RecoveryOutcome {
    fn clone(&self) -> (copy: RecoveryOutcome)
        ensures
            copy == *self,
    {
        RecoveryOutcome {
            entry_id: self.entry_id,
            native_handle: self.native_handle,
            application_id: self.application_id.clone(),
            verdict: self.verdict,
            restored: self.restored,
            failure: copy_option(&self.failure),
        }
    }
}

/// Why a requested switching mapping is not in effect.
#[derive(Debug, PartialEq)]
pub enum WorkspaceSwitchingUnavailable {
    DisplayNotConnected { display_fingerprint: String },
    UnknownWorkspace { name: String },
    MappingIncomplete { display_fingerprint: String },
    ParkingRefused { reason: String },
}

impl Clone for WorkspaceSwitchingUnavailable {
    fn clone(&self) -> (copy: WorkspaceSwitchingUnavailable)
        ensures
            copy == *self,
    {
        match self {
            WorkspaceSwitchingUnavailable::DisplayNotConnected { display_fingerprint } =>
                WorkspaceSwitchingUnavailable::DisplayNotConnected {
                    display_fingerprint: display_fingerprint.clone(),
                },
            WorkspaceSwitchingUnavailable::UnknownWorkspace { name } =>
                WorkspaceSwitchingUnavailable::UnknownWorkspace { name: name.clone() },
            WorkspaceSwitchingUnavailable::MappingIncomplete { display_fingerprint } =>
                WorkspaceSwitchingUnavailable::MappingIncomplete {
                    display_fingerprint: display_fingerprint.clone(),
                },
            WorkspaceSwitchingUnavailable::ParkingRefused { reason } =>
                WorkspaceSwitchingUnavailable::ParkingRefused { reason: reason.clone() },
        }
    }
}

/// What a requested switching mode is still waiting for.
#[derive(Debug, Clone, Copy, PartialEq, Eq, Structural)]
pub enum SwitchingPending {
    PersistenceDegraded,
    ParkingCapabilityUnverified,
}

/// The state of experimental workspace switching for the current topology.
#[derive(Debug, PartialEq)]
pub enum WorkspaceSwitchingStatus {
    Disabled,
    Requested { pending: SwitchingPending },
    Unavailable { reason: WorkspaceSwitchingUnavailable },
    Experimental,
}

impl Clone for WorkspaceSwitchingStatus {
    fn clone(&self) -> (copy: WorkspaceSwitchingStatus)
        ensures
            copy == *self,
    {
        match self {
            WorkspaceSwitchingStatus::Disabled => WorkspaceSwitchingStatus::Disabled,
            WorkspaceSwitchingStatus::Requested { pending } =>
                WorkspaceSwitchingStatus::Requested { pending: *pending },
            WorkspaceSwitchingStatus::Unavailable { reason } =>
                WorkspaceSwitchingStatus::Unavailable { reason: reason.clone() },
            WorkspaceSwitchingStatus::Experimental => WorkspaceSwitchingStatus::Experimental,
        }
    }
}

/// Why switching is not experimental right now.
#[derive(Debug, PartialEq)]
pub enum SwitchingReason {
    /// No matched topology profile requests it, and base config cannot.
    NotRequested,
    Pending(SwitchingPending),
    Unavailable(WorkspaceSwitchingUnavailable),
}

pub open spec fn status_reason(status: WorkspaceSwitchingStatus) -> Option<SwitchingReason> {
    match status {
        WorkspaceSwitchingStatus::Disabled => Some(SwitchingReason::NotRequested),
        WorkspaceSwitchingStatus::Requested { pending } => Some(SwitchingReason::Pending(pending)),
        WorkspaceSwitchingStatus::Unavailable { reason } => Some(
            SwitchingReason::Unavailable(reason),
        ),
        WorkspaceSwitchingStatus::Experimental => None,
    }
}

/// The reason behind a switching status that is not experimental, for a
/// refusal that has to say why.
pub fn switching_status_reason(status: &WorkspaceSwitchingStatus) -> (reason: Option<
    SwitchingReason,
>)
    ensures
        reason == status_reason(*status),
{
    match status {
        WorkspaceSwitchingStatus::Disabled => Some(SwitchingReason::NotRequested),
        WorkspaceSwitchingStatus::Requested { pending } => Some(SwitchingReason::Pending(*pending)),
        WorkspaceSwitchingStatus::Unavailable { reason } => Some(
            SwitchingReason::Unavailable(reason.clone()),
        ),
        WorkspaceSwitchingStatus::Experimental => None,
    }
}

impl SwitchingReason {
    pub open spec fn spelled(self) -> Option<Seq<char>> {
        match self {
            SwitchingReason::NotRequested => Some(
                "no matched topology profile requests it, and base config cannot"@,
            ),
            _ => None,
        }
    }

    /// The reason in words, where it has any of its own.
    pub fn text(&self) -> (text: Option<String>)
        ensures
            match (text, self.spelled()) {
                (Some(found), Some(expected)) => found@ == expected,
                (None, None) => true,
                _ => false,
            },
    {
        match self {
            SwitchingReason::NotRequested => Some(
                "no matched topology profile requests it, and base config cannot".to_owned(),
            ),
            _ => None,
        }
    }
}

/// Why a workspace command changes nothing.
#[derive(Debug, PartialEq)]
#[allow(inconsistent_fields)]
pub enum WorkspaceRefusal {
    InvalidName { reason: WorkspaceNameError },
    AlreadyExists { name: WorkspaceName },
    UnknownWorkspace { name: String },
    Displayed { name: WorkspaceName, display_id: DisplayId },
    NotEmpty { name: WorkspaceName, live_members: usize, dormant_positions: usize },
    DeclaredByConfiguration { name: WorkspaceName },
    NotDisplayed { name: WorkspaceName },
    AlreadyDisplayedThere { name: WorkspaceName, display_id: DisplayId },
    UnknownDisplay { display_id: DisplayId },
    NoFocusedDisplay,
    Paused,
    SwitchDegraded { stranded_windows: usize },
    SwitchInFlight { display_id: DisplayId },
    FullscreenMember { name: WorkspaceName, window_id: WindowId },
    SwitchingNotAuthorised { status: WorkspaceSwitchingStatus },
    PersistenceDegraded,
    MemberNotParkable { name: WorkspaceName, window_id: WindowId, reason: ParkingRefusal },
    CannotHideWithoutReplacement { display_fingerprint: String },
}

impl Clone for WorkspaceRefusal {
    fn clone(&self) -> (copy: WorkspaceRefusal)
        ensures
            copy == *self,
    {
        match self {
            WorkspaceRefusal::InvalidName { reason } => WorkspaceRefusal::InvalidName {
                reason: *reason,
            },
            WorkspaceRefusal::AlreadyExists { name } => WorkspaceRefusal::AlreadyExists {
                name: name.clone(),
            },
            WorkspaceRefusal::UnknownWorkspace { name } => WorkspaceRefusal::UnknownWorkspace {
                name: name.clone(),
            },
            WorkspaceRefusal::Displayed { name, display_id } => WorkspaceRefusal::Displayed {
                name: name.clone(),
                display_id: *display_id,
            },
            WorkspaceRefusal::NotEmpty { name, live_members, dormant_positions } =>
                WorkspaceRefusal::NotEmpty {
                    name: name.clone(),
                    live_members: *live_members,
                    dormant_positions: *dormant_positions,
                },
            WorkspaceRefusal::DeclaredByConfiguration { name } =>
                WorkspaceRefusal::DeclaredByConfiguration { name: name.clone() },
            WorkspaceRefusal::NotDisplayed { name } => WorkspaceRefusal::NotDisplayed {
                name: name.clone(),
            },
            WorkspaceRefusal::AlreadyDisplayedThere { name, display_id } =>
                WorkspaceRefusal::AlreadyDisplayedThere {
                    name: name.clone(),
                    display_id: *display_id,
                },
            WorkspaceRefusal::UnknownDisplay { display_id } => WorkspaceRefusal::UnknownDisplay {
                display_id: *display_id,
            },
            WorkspaceRefusal::NoFocusedDisplay => WorkspaceRefusal::NoFocusedDisplay,
            WorkspaceRefusal::Paused => WorkspaceRefusal::Paused,
            WorkspaceRefusal::SwitchDegraded { stranded_windows } =>
                WorkspaceRefusal::SwitchDegraded { stranded_windows: *stranded_windows },
            WorkspaceRefusal::SwitchInFlight { display_id } => WorkspaceRefusal::SwitchInFlight {
                display_id: *display_id,
            },
            WorkspaceRefusal::FullscreenMember { name, window_id } =>
                WorkspaceRefusal::FullscreenMember { name: name.clone(), window_id: *window_id },
            WorkspaceRefusal::SwitchingNotAuthorised { status } =>
                WorkspaceRefusal::SwitchingNotAuthorised { status: status.clone() },
            WorkspaceRefusal::PersistenceDegraded => WorkspaceRefusal::PersistenceDegraded,
            WorkspaceRefusal::MemberNotParkable { name, window_id, reason } =>
                WorkspaceRefusal::MemberNotParkable {
                    name: name.clone(),
                    window_id: *window_id,
                    reason: reason.clone(),
                },
            WorkspaceRefusal::CannotHideWithoutReplacement { display_fingerprint } =>
                WorkspaceRefusal::CannotHideWithoutReplacement {
                    display_fingerprint: display_fingerprint.clone(),
                },
        }
    }
}

#[derive(Debug, PartialEq)]
pub struct WorkspaceCreateApplied {
    pub name: WorkspaceName,
}

#[derive(Debug, PartialEq)]
pub struct WorkspaceDeleteApplied {
    pub name: WorkspaceName,
}

/// What focusing a workspace did.
#[derive(Debug, PartialEq)]
pub enum WorkspaceFocusApplied {
    /// A hidden workspace is displayed now.
    Displayed { name: WorkspaceName, display_id: DisplayId, replaced: Option<WorkspaceName> },
    /// A switch that has windows to move is under way.
    SwitchStarted {
        name: WorkspaceName,
        display_id: DisplayId,
        replaced: Option<WorkspaceName>,
        parking: usize,
        restoring: usize,
    },
    /// It was displayed already and has the attention now.
    FocusedExisting {
        name: WorkspaceName,
        display_id: DisplayId,
        focused_window: Option<WindowId>,
    },
}

impl Clone for WorkspaceFocusApplied {
    fn clone(&self) -> (copy: WorkspaceFocusApplied)
        ensures
            copy == *self,
    {
        match self {
            WorkspaceFocusApplied::Displayed { name, display_id, replaced } =>
                WorkspaceFocusApplied::Displayed {
                    name: name.clone(),
                    display_id: *display_id,
                    replaced: copy_name(replaced),
                },
            WorkspaceFocusApplied::SwitchStarted {
                name,
                display_id,
                replaced,
                parking,
                restoring,
            } => WorkspaceFocusApplied::SwitchStarted {
                name: name.clone(),
                display_id: *display_id,
                replaced: copy_name(replaced),
                parking: *parking,
                restoring: *restoring,
            },
            WorkspaceFocusApplied::FocusedExisting { name, display_id, focused_window } =>
                WorkspaceFocusApplied::FocusedExisting {
                    name: name.clone(),
                    display_id: *display_id,
                    focused_window: *focused_window,
                },
        }
    }
}

#[derive(Debug, PartialEq)]
pub struct WorkspaceMoveApplied {
    pub name: WorkspaceName,
    pub from_display_id: DisplayId,
    pub to_display_id: DisplayId,
    pub swapped_with: Option<WorkspaceName>,
}

impl Clone for WorkspaceMoveApplied {
    fn clone(&self) -> (copy: WorkspaceMoveApplied)
        ensures
            copy == *self,
    {
        WorkspaceMoveApplied {
            name: self.name.clone(),
            from_display_id: self.from_display_id,
            to_display_id: self.to_display_id,
            swapped_with: copy_name(&self.swapped_with),
        }
    }
}

/// Why a switch was abandoned, or a window could not leave the screen.
#[derive(Debug, PartialEq)]
pub enum SwitchFailure {
    /// Recovery data for a window could not be made durable.
    EntryNotDurable,
    /// A window stopped being parkable under the switch.
    NotParkable(ParkingRefusal),
    /// What the adapter said.
    Reported(String),
    /// The switch was cancelled.
    Cancelled,
}

impl Clone for SwitchFailure {
    fn clone(&self) -> (copy: SwitchFailure)
        ensures
            copy == *self,
    {
        match self {
            SwitchFailure::EntryNotDurable => SwitchFailure::EntryNotDurable,
            SwitchFailure::NotParkable(refusal) => SwitchFailure::NotParkable(refusal.clone()),
            SwitchFailure::Reported(reason) => SwitchFailure::Reported(reason.clone()),
            SwitchFailure::Cancelled => SwitchFailure::Cancelled,
        }
    }
}

impl SwitchFailure {
    /// The reason in words, where it has any of its own. A refusal to park is
    /// put into words by whoever shows refusals.
    pub open spec fn spelled(self) -> Option<Seq<char>> {
        match self {
            SwitchFailure::EntryNotDurable => Some(
                "recovery data for a window could not be made durable"@,
            ),
            SwitchFailure::NotParkable(_) => None,
            SwitchFailure::Reported(reason) => Some(reason@),
            SwitchFailure::Cancelled => Some("the switch was cancelled"@),
        }
    }

    pub fn text(&self) -> (text: Option<String>)
        ensures
            match (text, self.spelled()) {
                (Some(found), Some(expected)) => found@ == expected,
                (None, None) => true,
                _ => false,
            },
    {
        match self {
            SwitchFailure::EntryNotDurable => Some(
                "recovery data for a window could not be made durable".to_owned(),
            ),
            SwitchFailure::NotParkable(_) => None,
            SwitchFailure::Reported(reason) => Some(reason.clone()),
            SwitchFailure::Cancelled => Some("the switch was cancelled".to_owned()),
        }
    }
}

/// A switch that was abandoned.
#[derive(Debug, PartialEq)]
pub struct WorkspaceSwitchFailed {
    pub name: WorkspaceName,
    pub display_id: DisplayId,
    pub reason: SwitchFailure,
    /// Whether every moved window is back.
    pub compensated: bool,
    pub stranded_windows: Vec<WindowId>,
}

/// What a workspace command concluded.
#[derive(Debug, PartialEq)]
pub enum WorkspaceCommandResult {
    Created(WorkspaceCreateApplied),
    Deleted(WorkspaceDeleteApplied),
    Focused(WorkspaceFocusApplied),
    Moved(WorkspaceMoveApplied),
    Refused(WorkspaceRefusal),
    SwitchFailed(WorkspaceSwitchFailed),
}

/// A [`WorkspaceCommandResult`] with its list as a sequence.
pub ghost enum Conclusion {
    Created(WorkspaceCreateApplied),
    Deleted(WorkspaceDeleteApplied),
    Focused(WorkspaceFocusApplied),
    Moved(WorkspaceMoveApplied),
    Refused(WorkspaceRefusal),
    SwitchFailed {
        name: WorkspaceName,
        display_id: DisplayId,
        reason: SwitchFailure,
        compensated: bool,
        stranded: Seq<WindowId>,
    },
}

impl View for WorkspaceCommandResult {
    type V = Conclusion;

    open spec fn view(&self) -> Conclusion {
        match *self {
            WorkspaceCommandResult::Created(applied) => Conclusion::Created(applied),
            WorkspaceCommandResult::Deleted(applied) => Conclusion::Deleted(applied),
            WorkspaceCommandResult::Focused(applied) => Conclusion::Focused(applied),
            WorkspaceCommandResult::Moved(applied) => Conclusion::Moved(applied),
            WorkspaceCommandResult::Refused(refusal) => Conclusion::Refused(refusal),
            WorkspaceCommandResult::SwitchFailed(failed) => Conclusion::SwitchFailed {
                name: failed.name,
                display_id: failed.display_id,
                reason: failed.reason,
                compensated: failed.compensated,
                stranded: failed.stranded_windows@,
            },
        }
    }
}

/// The view of an optional value.
pub open spec fn seen<T: View>(value: Option<T>) -> Option<T::V> {
    match value {
        Some(inner) => Some(inner@),
        None => None,
    }
}

/// The views of a sequence of values.
pub open spec fn all_seen<T: View>(values: Seq<T>) -> Seq<T::V> {
    values.map_values(|value: T| value@)
}

pub fn copy_ids(ids: &Vec<WindowId>) -> (copy: Vec<WindowId>)
    ensures
        copy@ == ids@,
{
    let mut copy: Vec<WindowId> = Vec::new();
    let mut i: usize = 0;
    while i < ids.len()
        invariant
            i <= ids@.len(),
            copy@ == ids@.take(i as int),
        decreases ids@.len() - i,
    {
        copy.push(ids[i]);
        i += 1;
    }
    assert(copy@ =~= ids@);
    copy
}

impl Clone for WorkspaceCommandResult {
    fn clone(&self) -> (copy: WorkspaceCommandResult)
        ensures
            copy@ == self@,
    {
        match self {
            WorkspaceCommandResult::Created(applied) => WorkspaceCommandResult::Created(
                WorkspaceCreateApplied { name: applied.name.clone() },
            ),
            WorkspaceCommandResult::Deleted(applied) => WorkspaceCommandResult::Deleted(
                WorkspaceDeleteApplied { name: applied.name.clone() },
            ),
            WorkspaceCommandResult::Focused(applied) => WorkspaceCommandResult::Focused(
                applied.clone(),
            ),
            WorkspaceCommandResult::Moved(applied) => WorkspaceCommandResult::Moved(
                applied.clone(),
            ),
            WorkspaceCommandResult::Refused(refusal) => WorkspaceCommandResult::Refused(
                refusal.clone(),
            ),
            WorkspaceCommandResult::SwitchFailed(failed) => WorkspaceCommandResult::SwitchFailed(
                WorkspaceSwitchFailed {
                    name: failed.name.clone(),
                    display_id: failed.display_id,
                    reason: failed.reason.clone(),
                    compensated: failed.compensated,
                    stranded_windows: copy_ids(&failed.stranded_windows),
                },
            ),
        }
    }
}

/// The condition a failed compensation leaves behind: switching stays
/// blocked until the stranded windows are reconciled.
#[derive(Debug, PartialEq)]
pub struct WorkspaceSwitchDegraded {
    pub display_id: DisplayId,
    pub target: WorkspaceName,
    pub outgoing: Option<WorkspaceName>,
    pub stranded_windows: Vec<WindowId>,
    pub reason: SwitchFailure,
}

pub ghost struct Degraded {
    pub display_id: DisplayId,
    pub target: WorkspaceName,
    pub outgoing: Option<WorkspaceName>,
    pub stranded: Seq<WindowId>,
    pub reason: SwitchFailure,
}

impl View for WorkspaceSwitchDegraded {
    type V = Degraded;

    open spec fn view(&self) -> Degraded {
        Degraded {
            display_id: self.display_id,
            target: self.target,
            outgoing: self.outgoing,
            stranded: self.stranded_windows@,
            reason: self.reason,
        }
    }
}

impl Clone for WorkspaceSwitchDegraded {
    fn clone(&self) -> (copy: WorkspaceSwitchDegraded)
        ensures
            copy@ == self@,
    {
        WorkspaceSwitchDegraded {
            display_id: self.display_id,
            target: self.target.clone(),
            outgoing: copy_name(&self.outgoing),
            stranded_windows: copy_ids(&self.stranded_windows),
            reason: self.reason.clone(),
        }
    }
}

/// What reconciling a degraded switch would do.
#[derive(Debug, PartialEq)]
pub enum WorkspaceSwitchRestoreResult {
    NotDegraded,
    Reconciled { restored_windows: Vec<WindowId> },
    Requested { windows: Vec<WindowId> },
}

/// How far a switch transaction has got.
#[derive(Debug, Clone, Copy, PartialEq, Eq, Structural)]
pub enum WorkspaceSwitchPhase {
    Recording,
    Parking,
    Restoring,
    CompensatingPark,
    CompensatingRestore,
}

impl WorkspaceSwitchPhase {
    pub open spec fn compensating(self) -> bool {
        self == WorkspaceSwitchPhase::CompensatingPark || self
            == WorkspaceSwitchPhase::CompensatingRestore
    }

    pub fn is_compensating(&self) -> (compensating: bool)
        ensures
            compensating == self.compensating(),
    {
        matches!(
            self,
            WorkspaceSwitchPhase::CompensatingPark | WorkspaceSwitchPhase::CompensatingRestore
        )
    }
}

/// Where a window sat before a switch moved it.
#[derive(Debug, Clone, Copy, PartialEq, Eq, Structural)]
pub struct PriorPlacement {
    pub window_id: WindowId,
    pub display_id: DisplayId,
    pub bounds: Rect,
}

/// One all-or-nothing change of the workspace displayed on one monitor.
///
/// The displayed assignment is not touched until every native move has
/// landed. Until then this record is the whole memory of what the switch has
/// already done, so a failure at any point can put it back.
#[derive(Debug, PartialEq)]
pub struct WorkspaceSwitchTransaction {
    pub id: u64,
    /// The monitor whose displayed workspace is changing.
    pub display_id: DisplayId,
    /// The hidden workspace being displayed.
    pub target: WorkspaceName,
    /// The workspace displayed there now.
    pub outgoing: Option<WorkspaceName>,
    pub phase: WorkspaceSwitchPhase,
    /// Recovery tokens whose entries are not yet acknowledged durable.
    pub recording: Vec<u64>,
    /// Windows the current phase has asked the adapter to move.
    pub in_flight: Vec<WindowId>,
    /// Windows still to be moved once the phase's queue is drained.
    pub queued: Vec<WindowId>,
    /// Windows this transaction has parked, and so must restore to
    /// compensate.
    pub parked: Vec<WindowId>,
    /// Windows this transaction has restored, and so must park again to
    /// compensate.
    pub restored: Vec<WindowId>,
    /// Windows compensation could not put back.
    pub stranded: Vec<WindowId>,
    /// What started compensation.
    pub failure: Option<SwitchFailure>,
    pub prior_placements: Vec<PriorPlacement>,
    /// The undo transaction this switch reverses, if it does.
    pub reverses_undo: Option<UndoTransactionId>,
}

/// A [`WorkspaceSwitchTransaction`] with its lists as sequences.
#[verifier::ext_equal]
pub ghost struct Switching {
    pub id: u64,
    pub display_id: DisplayId,
    pub target: WorkspaceName,
    pub outgoing: Option<WorkspaceName>,
    pub phase: WorkspaceSwitchPhase,
    pub recording: Seq<u64>,
    pub in_flight: Seq<WindowId>,
    pub queued: Seq<WindowId>,
    pub parked: Seq<WindowId>,
    pub restored: Seq<WindowId>,
    pub stranded: Seq<WindowId>,
    pub failure: Option<SwitchFailure>,
    pub prior_placements: Seq<PriorPlacement>,
    pub reverses_undo: Option<UndoTransactionId>,
}

impl View for WorkspaceSwitchTransaction {
    type V = Switching;

    open spec fn view(&self) -> Switching {
        Switching {
            id: self.id,
            display_id: self.display_id,
            target: self.target,
            outgoing: self.outgoing,
            phase: self.phase,
            recording: self.recording@,
            in_flight: self.in_flight@,
            queued: self.queued@,
            parked: self.parked@,
            restored: self.restored@,
            stranded: self.stranded@,
            failure: self.failure,
            prior_placements: self.prior_placements@,
            reverses_undo: self.reverses_undo,
        }
    }
}

impl Switching {
    /// Whether the current phase has heard back about everything it started.
    /// What is queued belongs to the next phase and does not count.
    pub open spec fn settled(self) -> bool {
        self.recording.len() == 0 && self.in_flight.len() == 0
    }
}

impl WorkspaceSwitchTransaction {
    pub fn phase_is_settled(&self) -> (settled: bool)
        ensures
            settled == self@.settled(),
    {
        self.recording.len() == 0 && self.in_flight.len() == 0
    }
}

impl Clone for WorkspaceSwitchTransaction {
    fn clone(&self) -> (copy: WorkspaceSwitchTransaction)
        ensures
            copy@ == self@,
    {
        let recording = self.recording.clone();
        let prior_placements = self.prior_placements.clone();
        assert(recording@ =~= self.recording@);
        assert(prior_placements@ =~= self.prior_placements@);
        WorkspaceSwitchTransaction {
            id: self.id,
            display_id: self.display_id,
            target: self.target.clone(),
            outgoing: copy_name(&self.outgoing),
            phase: self.phase,
            recording,
            in_flight: copy_ids(&self.in_flight),
            queued: copy_ids(&self.queued),
            parked: copy_ids(&self.parked),
            restored: copy_ids(&self.restored),
            stranded: copy_ids(&self.stranded),
            failure: match &self.failure {
                Some(failure) => Some(failure.clone()),
                None => None,
            },
            prior_placements,
            reverses_undo: self.reverses_undo,
        }
    }
}

/// What a workspace switch would move, decided before anything does.
#[derive(Debug, PartialEq)]
pub struct WorkspaceSwitchPlan {
    pub display_id: DisplayId,
    pub target: WorkspaceName,
    pub outgoing: Option<WorkspaceName>,
    /// The outgoing workspace's windows that must leave the screen, in
    /// window-id order.
    pub park: Vec<WindowId>,
    /// The target workspace's parked windows, in window-id order.
    pub restore: Vec<WindowId>,
}

#[verifier::ext_equal]
pub ghost struct SwitchPlan {
    pub display_id: DisplayId,
    pub target: WorkspaceName,
    pub outgoing: Option<WorkspaceName>,
    pub park: Seq<WindowId>,
    pub restore: Seq<WindowId>,
}

impl View for WorkspaceSwitchPlan {
    type V = SwitchPlan;

    open spec fn view(&self) -> SwitchPlan {
        SwitchPlan {
            display_id: self.display_id,
            target: self.target,
            outgoing: self.outgoing,
            park: self.park@,
            restore: self.restore@,
        }
    }
}

impl SwitchPlan {
    pub open spec fn moves(self) -> bool {
        self.park.len() > 0 || self.restore.len() > 0
    }
}

impl WorkspaceSwitchPlan {
    /// Whether carrying this out touches the desktop at all. A switch that
    /// moves nothing is pure bookkeeping and needs no parking site, no
    /// durable recovery data, and no authorised switching.
    pub fn moves_windows(&self) -> (moves: bool)
        ensures
            moves == self@.moves(),
    {
        self.park.len() > 0 || self.restore.len() > 0
    }
}

} // verus!
