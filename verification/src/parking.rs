//! Parking: moving windows of hidden workspaces out of visible geometry, and
//! back, never without a durable way back.

use vstd::prelude::*;

verus! {

use crate::geometry::{Rect, WindowId};
use crate::outcome::{
    recovery_data, Degraded, ParkingCapability, ParkingRefusal, PersistenceHealth, RecoveryDraft,
    SwitchFailure, SwitchingPending, WorkspaceSwitchDegraded, WorkspaceSwitchRestoreResult,
    WorkspaceSwitchingStatus, WorkspaceSwitchingUnavailable,
};
use crate::state::{
    bump, bumped, EngineEffect, EngineState, Intent, Model, PendingParking, PersistenceIntent,
};
use crate::table::sorted;
use crate::topology::{display_fingerprint_of, fingerprint_of};
use crate::window::WindowLifecycle;
use crate::workspace::lemma_filter_step;

impl Model {
    /// Where the engine last meant a managed window to be.
    pub open spec fn intended_bounds(self, id: isize) -> Rect {
        if self.windows.contains_key(id) {
            self.windows[id].bounds
        } else {
            self.inventory[id].window.bounds
        }
    }

    /// The recovery data for a managed window on a connected display.
    pub open spec fn parking_draft(self, id: isize, now_unix: i64) -> Option<RecoveryDraft> {
        if self.inventory.contains_key(id) {
            match fingerprint_of(self.displays, self.inventory[id].window.display_id) {
                Some(fingerprint) => Some(
                    recovery_data(
                        self.inventory[id].window,
                        self.session_id,
                        fingerprint,
                        self.intended_bounds(id),
                        now_unix,
                    ),
                ),
                None => None,
            }
        } else {
            None
        }
    }

    pub open spec fn is_pending(self, window_id: WindowId) -> bool {
        exists|i: int|
            0 <= i < self.pending_parking.len() && (#[trigger] self.pending_parking[i]).window_id
                == window_id
    }

    /// Whether a window may be parked, and with what recovery data.
    pub open spec fn parking(self, window_id: WindowId, now_unix: i64) -> Result<
        RecoveryDraft,
        ParkingRefusal,
    > {
        if !self.inventory.contains_key(window_id.0) {
            Err(ParkingRefusal::NotManaged { window_id })
        } else if self.persistence_health is Degraded {
            Err(ParkingRefusal::PersistenceDegraded)
        } else if self.parking_capability is Unverified {
            Err(ParkingRefusal::ParkingCapabilityUnverified)
        } else if self.parking_capability is Refused {
            Err(
                ParkingRefusal::ParkingRefused {
                    reason: self.parking_capability->Refused_reason,
                },
            )
        } else if self.inventory[window_id.0].window.lifecycle == WindowLifecycle::Fullscreen {
            Err(ParkingRefusal::Fullscreen { window_id })
        } else if self.inventory[window_id.0].window.lifecycle == WindowLifecycle::Minimized {
            Err(ParkingRefusal::Minimized { window_id })
        } else if self.is_pending(window_id) {
            Err(ParkingRefusal::AlreadyPending { window_id })
        } else {
            match self.parking_draft(window_id.0, now_unix) {
                Some(draft) => Ok(draft),
                None => Err(ParkingRefusal::UnknownDisplay { window_id }),
            }
        }
    }

    /// A recovery entry asked for, and the window waiting for it.
    pub open spec fn entry_requested(
        self,
        window_id: WindowId,
        draft: RecoveryDraft,
        transaction: Option<u64>,
    ) -> Model {
        let token = bumped(self.next_parking_token);
        Model {
            next_parking_token: token,
            pending_parking: self.pending_parking.push(
                PendingParking { token, window_id, transaction },
            ),
            ..self
        }.intent(Intent::RecordRecovery { token, draft })
    }

    /// A window asked to leave the screen on its own account: its entry is
    /// requested, or the refusal is published.
    pub open spec fn park_asked(self, window_id: WindowId, now_unix: i64) -> Model {
        match self.parking(window_id, now_unix) {
            Ok(draft) => self.entry_requested(window_id, draft, None),
            Err(refusal) => Model { last_parking_refusal: Some(refusal), ..self },
        }
    }

    /// A parked window asked back on screen.
    pub open spec fn restore_asked(self, window_id: WindowId) -> Model {
        if self.parked_windows.contains_key(window_id.0) {
            self.effect(
                EngineEffect::RestoreWindow {
                    window_id,
                    entry_id: self.parked_windows[window_id.0],
                },
            )
        } else {
            self
        }
    }

    pub open spec fn parks_asked(self, windows: Seq<isize>, i: int, now_unix: i64) -> Model
        decreases windows.len() - i,
    {
        if i >= windows.len() {
            self
        } else {
            self.park_asked(WindowId(windows[i]), now_unix).parks_asked(windows, i + 1, now_unix)
        }
    }

    pub open spec fn restores_asked(self, windows: Seq<isize>, i: int) -> Model
        decreases windows.len() - i,
    {
        if i >= windows.len() {
            self
        } else {
            self.restore_asked(WindowId(windows[i])).restores_asked(windows, i + 1)
        }
    }

    /// Whether a window belongs to a workspace that no display shows.
    pub open spec fn in_hidden_workspace(self, id: isize) -> bool {
        match self.workspaces.workspace_of(id) {
            Some(name) => !self.workspaces.is_displayed(name),
            None => false,
        }
    }

    /// The managed windows that are on screen and should not be. A minimized
    /// window occupies no screen, and a full-screen one is never forced out.
    pub open spec fn must_park(self) -> spec_fn(isize) -> bool {
        |id: isize|
            self.inventory.contains_key(id) && self.in_hidden_workspace(id)
                && !self.parked_windows.contains_key(id) && !self.is_pending(WindowId(id))
                && self.inventory[id].window.lifecycle != WindowLifecycle::Minimized
                && self.inventory[id].window.lifecycle != WindowLifecycle::Fullscreen
    }

    /// The managed windows that are parked and should not be.
    pub open spec fn must_restore(self) -> spec_fn(isize) -> bool {
        |id: isize|
            self.inventory.contains_key(id) && !self.in_hidden_workspace(id)
                && self.parked_windows.contains_key(id)
    }

    /// The parking site brought into agreement with the displayed
    /// assignment. Stands aside while a switch is in flight or a failed one
    /// is unreconciled.
    #[verifier::opaque]
    pub open spec fn hidden_reconciled(self, now_unix: i64) -> Model {
        if self.switch is Some || self.switch_degraded is Some {
            self
        } else {
            let managed = sorted(self.inventory.dom());
            self.parks_asked(managed.filter(self.must_park()), 0, now_unix).restores_asked(
                managed.filter(self.must_restore()),
                0,
            )
        }
    }

    pub open spec fn stranded_move(self, window_id: WindowId) -> Option<StrandedMove> {
        let hidden = self.in_hidden_workspace(window_id.0);
        let parked = self.parked_windows.contains_key(window_id.0);
        if !self.inventory.contains_key(window_id.0) {
            None
        } else if hidden && !parked {
            Some(StrandedMove::Park)
        } else if !hidden && parked {
            Some(StrandedMove::Restore)
        } else {
            None
        }
    }

    pub open spec fn still_owes(self) -> spec_fn(WindowId) -> bool {
        |window_id: WindowId| self.stranded_move(window_id) is Some
    }

    /// The window recorded as stranded, outside any switch.
    pub open spec fn stranded(self, window_id: WindowId, reason: SwitchFailure) -> Model {
        match self.workspaces.workspace_of(window_id.0) {
            None => self,
            Some(name) => if self.workspaces.is_displayed(name) || !self.inventory.contains_key(
                window_id.0,
            ) {
                self
            } else {
                match self.switch_degraded {
                    Some(degraded) => if degraded.stranded.contains(window_id) {
                        self
                    } else {
                        Model {
                            switch_degraded: Some(
                                Degraded { stranded: degraded.stranded.push(window_id), ..degraded },
                            ),
                            ..self
                        }
                    },
                    None => {
                        let display_id = self.inventory[window_id.0].window.display_id;
                        Model {
                            switch_degraded: Some(
                                Degraded {
                                    display_id,
                                    target: name,
                                    outgoing: self.workspaces.displayed_on(display_id),
                                    stranded: seq![window_id],
                                    reason,
                                },
                            ),
                            ..self
                        }
                    },
                }
            },
        }
    }

    /// A stranded window that has reached its place no longer counts, and
    /// nothing left stranded lifts the condition.
    pub open spec fn stranded_settled(self, window_id: WindowId) -> Model {
        match self.switch_degraded {
            Some(degraded) => if !degraded.stranded.contains(window_id) || self.stranded_move(
                window_id,
            ) is Some {
                self
            } else {
                let left = degraded.stranded.filter(other_than(window_id));
                Model {
                    switch_degraded: if left.len() == 0 {
                        None
                    } else {
                        Some(Degraded { stranded: left, ..degraded })
                    },
                    ..self
                }.revised()
            },
            None => self,
        }
    }

    /// The state of experimental switching.
    pub open spec fn switching_status(self) -> WorkspaceSwitchingStatus {
        let requested = match self.config.switching {
            Some(switching) => switching.experimental,
            None => false,
        };
        if !requested {
            WorkspaceSwitchingStatus::Disabled
        } else {
            match self.switching_unavailable {
                Some(reason) => WorkspaceSwitchingStatus::Unavailable { reason },
                None => if self.persistence_health is Degraded {
                    WorkspaceSwitchingStatus::Requested {
                        pending: SwitchingPending::PersistenceDegraded,
                    }
                } else {
                    match self.parking_capability {
                        ParkingCapability::Verified => WorkspaceSwitchingStatus::Experimental,
                        ParkingCapability::Unverified => WorkspaceSwitchingStatus::Requested {
                            pending: SwitchingPending::ParkingCapabilityUnverified,
                        },
                        ParkingCapability::Refused { reason } =>
                            WorkspaceSwitchingStatus::Unavailable {
                                reason: WorkspaceSwitchingUnavailable::ParkingRefused { reason },
                            },
                    }
                },
            }
        }
    }
}

/// Which way a stranded window has to move to reach the place its workspace
/// says it belongs.
#[derive(Debug, Clone, Copy, PartialEq, Eq, Structural)]
pub enum StrandedMove {
    Park,
    Restore,
}

/// Decides whether `window_id` may be parked, and with what recovery data,
/// without recording anything.
pub fn plan_parking_authorization(state: &EngineState, window_id: WindowId, now_unix: i64)
    -> (plan: Result<RecoveryDraft, ParkingRefusal>)
    ensures
        plan == state@.parking(window_id, now_unix),
{
    let managed = match state.inventory.get(window_id.0) {
        Some(managed) => managed,
        None => {
            return Err(ParkingRefusal::NotManaged { window_id });
        },
    };
    match state.persistence_health {
        PersistenceHealth::Degraded { .. } => {
            return Err(ParkingRefusal::PersistenceDegraded);
        },
        PersistenceHealth::Healthy { .. } => {},
    }
    match &state.parking_capability {
        ParkingCapability::Verified => {},
        ParkingCapability::Unverified => {
            return Err(ParkingRefusal::ParkingCapabilityUnverified);
        },
        ParkingCapability::Refused { reason } => {
            return Err(ParkingRefusal::ParkingRefused { reason: reason.clone() });
        },
    }
    if managed.window.lifecycle == WindowLifecycle::Fullscreen {
        return Err(ParkingRefusal::Fullscreen { window_id });
    }
    if managed.window.lifecycle == WindowLifecycle::Minimized {
        return Err(ParkingRefusal::Minimized { window_id });
    }
    if state.waits_for_entry(window_id) {
        return Err(ParkingRefusal::AlreadyPending { window_id });
    }
    match state.parking_draft_for(window_id, now_unix) {
        Some(draft) => Ok(draft),
        None => Err(ParkingRefusal::UnknownDisplay { window_id }),
    }
}

/// Decides what an explicit reconcile would do about a degraded switch,
/// without doing it.
///
/// The answer names every stranded window that is not where its workspace
/// says it belongs, in either direction.
pub fn plan_workspace_switch_restore(state: &EngineState) -> (plan: WorkspaceSwitchRestoreResult)
    ensures
        match state@.switch_degraded {
            None => plan is NotDegraded,
            Some(degraded) => {
                let owed = degraded.stranded.filter(state@.still_owes());
                if owed.len() == 0 {
                    plan matches WorkspaceSwitchRestoreResult::Reconciled { restored_windows }
                        && restored_windows@ == degraded.stranded
                } else {
                    plan matches WorkspaceSwitchRestoreResult::Requested { windows } && windows@
                        == owed
                }
            },
        },
{
    match &state.switch_degraded {
        None => WorkspaceSwitchRestoreResult::NotDegraded,
        Some(degraded) => {
            let stranded = &degraded.stranded_windows;
            let mut windows: Vec<WindowId> = Vec::new();
            let mut i: usize = 0;
            while i < stranded.len()
                invariant
                    i <= stranded@.len(),
                    windows@ == stranded@.take(i as int).filter(state@.still_owes()),
                decreases stranded@.len() - i,
            {
                proof {
                    lemma_filter_step(stranded@, i as int, state@.still_owes());
                }
                if state.stranded_move_for(stranded[i]).is_some() {
                    windows.push(stranded[i]);
                }
                i += 1;
            }
            assert(stranded@.take(stranded@.len() as int) =~= stranded@);
            if windows.len() == 0 {
                WorkspaceSwitchRestoreResult::Reconciled {
                    restored_windows: crate::outcome::copy_ids(stranded),
                }
            } else {
                WorkspaceSwitchRestoreResult::Requested { windows }
            }
        },
    }
}

impl EngineState {
    /// The state of experimental workspace switching for the current
    /// topology, derived rather than stored so it can never disagree with
    /// the facts it summarises.
    pub fn workspace_switching_status(&self) -> (status: WorkspaceSwitchingStatus)
        ensures
            status == self@.switching_status(),
    {
        let requested = match &self.resolved_config.workspace_switching {
            Some(switching) => switching.experimental,
            None => false,
        };
        if !requested {
            return WorkspaceSwitchingStatus::Disabled;
        }
        match &self.switching_unavailable {
            Some(reason) => {
                return WorkspaceSwitchingStatus::Unavailable { reason: reason.clone() };
            },
            None => {},
        }
        match self.persistence_health {
            PersistenceHealth::Degraded { .. } => {
                return WorkspaceSwitchingStatus::Requested {
                    pending: SwitchingPending::PersistenceDegraded,
                };
            },
            PersistenceHealth::Healthy { .. } => {},
        }
        match &self.parking_capability {
            ParkingCapability::Verified => WorkspaceSwitchingStatus::Experimental,
            ParkingCapability::Unverified => WorkspaceSwitchingStatus::Requested {
                pending: SwitchingPending::ParkingCapabilityUnverified,
            },
            ParkingCapability::Refused { reason } => WorkspaceSwitchingStatus::Unavailable {
                reason: WorkspaceSwitchingUnavailable::ParkingRefused { reason: reason.clone() },
            },
        }
    }

    /// Whether the window waits for a recovery entry.
    pub fn waits_for_entry(&self, window_id: WindowId) -> (pending: bool)
        ensures
            pending == self@.is_pending(window_id),
    {
        let mut i: usize = 0;
        while i < self.pending_parking.len()
            invariant
                i <= self.pending_parking@.len(),
                forall|j: int|
                    0 <= j < i ==> (#[trigger] self.pending_parking@[j]).window_id != window_id,
            decreases self.pending_parking@.len() - i,
        {
            if self.pending_parking[i].window_id == window_id {
                assert(self@.pending_parking[i as int].window_id == window_id);
                return true;
            }
            i += 1;
        }
        false
    }

    /// The recovery data for `window_id`, or `None` when the window is
    /// unmanaged or sits on a display that is not connected.
    pub fn parking_draft_for(&self, window_id: WindowId, now_unix: i64) -> (draft: Option<
        RecoveryDraft,
    >)
        ensures
            draft == self@.parking_draft(window_id.0, now_unix),
    {
        match self.inventory.get(window_id.0) {
            Some(managed) => match display_fingerprint_of(
                &self.displays,
                managed.window.display_id,
            ) {
                Some(fingerprint) => {
                    let normal_bounds = match self.windows.get(window_id.0) {
                        Some(placement) => placement.bounds,
                        None => managed.window.bounds,
                    };
                    Some(
                        RecoveryDraft::capture(
                            &managed.window,
                            &self.session_id,
                            fingerprint,
                            normal_bounds,
                            now_unix,
                        ),
                    )
                },
                None => None,
            },
            None => None,
        }
    }

    /// Registers a parking request and returns its token. The single place a
    /// window starts waiting to be parked.
    pub fn request_recovery_entry(
        &mut self,
        window_id: WindowId,
        draft: RecoveryDraft,
        transaction: Option<u64>,
    ) -> (token: u64)
        ensures
            final(self)@ == old(self)@.entry_requested(window_id, draft, transaction),
            token == bumped(old(self)@.next_parking_token),
    {
        self.next_parking_token = bump(self.next_parking_token);
        let token = self.next_parking_token;
        self.pending_parking.push(PendingParking { token, window_id, transaction });
        self.record(PersistenceIntent::RecordRecovery { token, draft });
        token
    }

    /// Asks for the window to leave the screen, or publishes why it cannot.
    pub fn ask_park(&mut self, window_id: WindowId, now_unix: i64)
        ensures
            final(self)@ == old(self)@.park_asked(window_id, now_unix),
    {
        match plan_parking_authorization(self, window_id, now_unix) {
            Ok(draft) => {
                self.request_recovery_entry(window_id, draft, None);
            },
            Err(refusal) => {
                self.last_parking_refusal = Some(refusal);
            },
        }
    }

    /// Asks for a parked window back.
    pub fn ask_restore(&mut self, window_id: WindowId)
        ensures
            final(self)@ == old(self)@.restore_asked(window_id),
    {
        let parked = match self.parked_windows.get(window_id.0) {
            Some(entry_id) => Some(*entry_id),
            None => None,
        };
        match parked {
            Some(entry_id) => {
                self.emit(EngineEffect::RestoreWindow { window_id, entry_id });
            },
            None => {},
        }
    }

    /// Whether the window belongs to a workspace that no display shows.
    pub fn workspace_is_hidden(&self, window_id: WindowId) -> (hidden: bool)
        ensures
            hidden == self@.in_hidden_workspace(window_id.0),
    {
        match self.workspaces.workspace_of(window_id.0) {
            Some(name) => !self.workspaces.is_displayed(name),
            None => false,
        }
    }

    /// Brings the parking site into agreement with the displayed assignment:
    /// a managed window whose workspace is hidden belongs there, and one
    /// whose workspace is displayed does not.
    pub fn reconcile_hidden_workspace_windows(&mut self, now_unix: i64)
        ensures
            final(self)@ == old(self)@.hidden_reconciled(now_unix),
    {
        proof {
            reveal(Model::hidden_reconciled);
        }
        if self.switch.is_some() || self.switch_degraded.is_some() {
            return;
        }
        let keys = self.inventory.keys();
        let ghost all = keys@;
        let ghost park = self@.must_park();
        let ghost restore = self@.must_restore();
        let mut to_park: Vec<isize> = Vec::new();
        let mut to_restore: Vec<isize> = Vec::new();
        let mut i: usize = 0;
        while i < keys.len()
            invariant
                i <= keys@.len(),
                *self == *old(self),
                keys@ == all,
                keys@.to_set() == self.inventory@.dom(),
                park == self@.must_park(),
                restore == self@.must_restore(),
                to_park@ == all.take(i as int).filter(park),
                to_restore@ == all.take(i as int).filter(restore),
            decreases keys@.len() - i,
        {
            let id = keys[i];
            assert(keys@.to_set().contains(id));
            proof {
                lemma_filter_step(all, i as int, park);
                lemma_filter_step(all, i as int, restore);
            }
            match self.inventory.get(id) {
                Some(managed) => {
                    let hidden = self.workspace_is_hidden(WindowId(id));
                    let parked = self.parked_windows.contains_key(id);
                    if hidden && !parked && !self.waits_for_entry(WindowId(id)) {
                        if managed.window.lifecycle != WindowLifecycle::Minimized
                            && managed.window.lifecycle != WindowLifecycle::Fullscreen {
                            to_park.push(id);
                        }
                    } else if !hidden && parked {
                        to_restore.push(id);
                    }
                },
                None => {},
            }
            i += 1;
        }
        assert(all.take(all.len() as int) =~= all);
        let ghost start = self@;
        let mut i: usize = 0;
        while i < to_park.len()
            invariant
                i <= to_park@.len(),
                self@.parks_asked(to_park@, i as int, now_unix) == start.parks_asked(
                    to_park@,
                    0,
                    now_unix,
                ),
            decreases to_park@.len() - i,
        {
            self.ask_park(WindowId(to_park[i]), now_unix);
            i += 1;
        }
        let ghost middle = self@;
        let mut i: usize = 0;
        while i < to_restore.len()
            invariant
                i <= to_restore@.len(),
                self@.restores_asked(to_restore@, i as int) == middle.restores_asked(
                    to_restore@,
                    0,
                ),
            decreases to_restore@.len() - i,
        {
            self.ask_restore(WindowId(to_restore[i]));
            i += 1;
        }
    }

    /// The move `window_id` still owes, or `None` when it is already where
    /// its workspace says it belongs, or is gone.
    pub fn stranded_move_for(&self, window_id: WindowId) -> (owed: Option<StrandedMove>)
        ensures
            owed == self@.stranded_move(window_id),
    {
        if !self.inventory.contains_key(window_id.0) {
            return None;
        }
        let hidden = self.workspace_is_hidden(window_id);
        let parked = self.parked_windows.contains_key(window_id.0);
        match (hidden, parked) {
            (true, false) => Some(StrandedMove::Park),
            (false, true) => Some(StrandedMove::Restore),
            _ => None,
        }
    }

    /// Records that `window_id` could not be moved to the side of the
    /// boundary its workspace requires, outside any switch transaction. A
    /// half-applied assignment is never silent.
    pub fn strand_window(&mut self, window_id: WindowId, reason: SwitchFailure)
        ensures
            final(self)@ == old(self)@.stranded(window_id, reason),
    {
        let name = match self.workspaces.workspace_of(window_id.0) {
            Some(name) => name.clone(),
            None => {
                return;
            },
        };
        if self.workspaces.is_displayed(&name) {
            return;
        }
        let display_id = match self.inventory.get(window_id.0) {
            Some(managed) => managed.window.display_id,
            None => {
                return;
            },
        };
        let outgoing = self.workspaces.displayed_on(display_id);
        match &mut self.switch_degraded {
            Some(degraded) => {
                let known = holds(&degraded.stranded_windows, window_id);
                if !known {
                    degraded.stranded_windows.push(window_id);
                }
            },
            None => {
                let mut stranded_windows: Vec<WindowId> = Vec::new();
                stranded_windows.push(window_id);
                assert(stranded_windows@ =~= seq![window_id]);
                self.switch_degraded = Some(
                    WorkspaceSwitchDegraded {
                        display_id,
                        target: name,
                        outgoing,
                        stranded_windows,
                        reason,
                    },
                );
            },
        }
    }

    /// Drops `window_id` from the degraded condition once it has reached the
    /// place its workspace says it belongs, and clears the condition entirely
    /// when nothing is left stranded.
    pub fn settle_stranded_window(&mut self, window_id: WindowId)
        ensures
            final(self)@ == old(self)@.stranded_settled(window_id),
    {
        let owed = self.stranded_move_for(window_id).is_some();
        let left = match &self.switch_degraded {
            Some(degraded) => {
                if owed || !holds(&degraded.stranded_windows, window_id) {
                    return;
                }
                without(&degraded.stranded_windows, window_id)
            },
            None => {
                return;
            },
        };
        if left.len() == 0 {
            self.switch_degraded = None;
        } else {
            match &mut self.switch_degraded {
                Some(degraded) => {
                    degraded.stranded_windows = left;
                },
                None => {},
            }
        }
        self.revise();
    }
}

pub open spec fn other_than(window_id: WindowId) -> spec_fn(WindowId) -> bool {
    |other: WindowId| other != window_id
}

/// Whether `windows` lists `window_id`.
pub fn holds(windows: &Vec<WindowId>, window_id: WindowId) -> (found: bool)
    ensures
        found == windows@.contains(window_id),
{
    let mut i: usize = 0;
    while i < windows.len()
        invariant
            i <= windows@.len(),
            forall|j: int| 0 <= j < i ==> windows@[j] != window_id,
        decreases windows@.len() - i,
    {
        if windows[i] == window_id {
            return true;
        }
        i += 1;
    }
    false
}

/// `windows` with every mention of `window_id` dropped.
pub fn without(windows: &Vec<WindowId>, window_id: WindowId) -> (left: Vec<WindowId>)
    ensures
        left@ == windows@.filter(other_than(window_id)),
{
    let ghost keep = other_than(window_id);
    let mut left: Vec<WindowId> = Vec::new();
    let mut i: usize = 0;
    while i < windows.len()
        invariant
            i <= windows@.len(),
            keep == other_than(window_id),
            left@ == windows@.take(i as int).filter(keep),
        decreases windows@.len() - i,
    {
        proof {
            lemma_filter_step(windows@, i as int, keep);
        }
        if windows[i] != window_id {
            left.push(windows[i]);
        }
        i += 1;
    }
    assert(windows@.take(windows@.len() as int) =~= windows@);
    left
}

} // verus!
