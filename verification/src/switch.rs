//! The workspace switch transaction.
//!
//! A switch is all-or-nothing across native moves that each answer
//! separately, so it is a small state machine: `begin_workspace_switch` opens
//! it, every park and restore outcome feeds `advance_switch`, and exactly one
//! of `commit_switch` or `finish_compensation` closes it. The displayed
//! assignment changes only in `commit_switch`.

use vstd::prelude::*;

verus! {

use crate::answers::{Answers, Query, Question};
use crate::commands::CommandLabel;
use crate::geometry::{DisplayId, UndoTransactionId, WindowId};
use crate::name::WorkspaceName;
use crate::outcome::{
    copy_ids, Conclusion, Degraded, ParkingRefusal, PriorPlacement, SwitchFailure, SwitchPlan,
    Switching, WorkspaceCommandResult, WorkspaceFocusApplied, WorkspaceSwitchDegraded,
    WorkspaceSwitchFailed, WorkspaceSwitchPhase, WorkspaceSwitchPlan, WorkspaceSwitchTransaction,
};
use crate::parking::{holds, other_than, plan_parking_authorization, without};
use crate::placement::reached;
use crate::state::{bump, bumped, EngineEffect, EngineState, Model, PendingParking};
use crate::workspace::lemma_filter_step;

impl Switching {
    /// The window's move answered, in the given phase.
    pub open spec fn heard(self, window_id: WindowId) -> Switching {
        Switching { in_flight: self.in_flight.filter(other_than(window_id)), ..self }
    }

    /// Whether a move of the window was under way when the switch failed, and
    /// compensation has not taken the window up since.
    pub open spec fn overtaken(self, window_id: WindowId) -> bool {
        self.phase == WorkspaceSwitchPhase::CompensatingPark && !self.restored.contains(window_id)
    }

    /// A move that failed while compensating. A window whose forward move
    /// failed is where it belongs; any other could not be put back.
    pub open spec fn given_up(self, window_id: WindowId) -> Switching {
        if self.overtaken(window_id) {
            self.heard(window_id)
        } else {
            self.heard(window_id).with_stranded(window_id)
        }
    }

    /// A window compensation could not put back.
    pub open spec fn with_stranded(self, window_id: WindowId) -> Switching {
        Switching {
            stranded: if self.stranded.contains(window_id) {
                self.stranded
            } else {
                self.stranded.push(window_id)
            },
            restored: self.restored.filter(other_than(window_id)),
            parked: self.parked.filter(other_than(window_id)),
            ..self
        }
    }
}

impl Model {
    pub open spec fn unswitched(self) -> Model {
        Model { switch: None, ..self }
    }

    pub open spec fn switching(self, switch: Switching) -> Model {
        Model { switch: Some(switch), ..self }
    }

    pub open spec fn at_parking_site(self) -> spec_fn(WindowId) -> bool {
        |window_id: WindowId| self.parked_windows.contains_key(window_id.0)
    }

    pub open spec fn off_parking_site(self) -> spec_fn(WindowId) -> bool {
        |window_id: WindowId| !self.parked_windows.contains_key(window_id.0)
    }

    /// A restore effect for each window from `i` on.
    pub open spec fn restores_emitted(self, windows: Seq<WindowId>, i: int) -> Model
        decreases windows.len() - i,
    {
        if i >= windows.len() {
            self
        } else {
            self.restore_asked(windows[i]).restores_emitted(windows, i + 1)
        }
    }

    /// Both results published, and the state revised.
    pub open spec fn concluded(self, conclusion: Conclusion) -> Model {
        Model {
            last_switch_result: Some(conclusion),
            last_workspace_result: Some(conclusion),
            ..self
        }.revised()
    }

    /// The switch closed without having changed the displayed assignment,
    /// cleanly or as a degraded one.
    pub open spec fn compensation_finished(self, switch: Switching) -> Model {
        let reason = match switch.failure {
            Some(failure) => failure,
            None => SwitchFailure::Cancelled,
        };
        let closed = Model { switch: None, ..self };
        let marked = if switch.stranded.len() == 0 {
            closed
        } else {
            Model {
                switch_degraded: Some(
                    Degraded {
                        display_id: switch.display_id,
                        target: switch.target,
                        outgoing: switch.outgoing,
                        stranded: switch.stranded,
                        reason,
                    },
                ),
                ..closed
            }
        };
        marked.concluded(
            Conclusion::SwitchFailed {
                name: switch.target,
                display_id: switch.display_id,
                reason,
                compensated: switch.stranded.len() == 0,
                stranded: switch.stranded,
            },
        )
    }

    /// A settled compensating phase moved on: what the switch had restored is
    /// back at the parking site, so what it had parked comes back on screen.
    pub open spec fn compensation_advanced(self, switch: Switching) -> Model {
        let owed = switch.parked.filter(self.at_parking_site());
        if switch.phase == WorkspaceSwitchPhase::CompensatingRestore || owed.len() == 0 {
            self.compensation_finished(switch)
        } else {
            self.switching(
                Switching {
                    phase: WorkspaceSwitchPhase::CompensatingRestore,
                    in_flight: owed,
                    parked: owed,
                    ..switch
                },
            ).restores_emitted(owed, 0)
        }
    }

    /// One window compensation must park again: its entry asked for, or the
    /// window stranded.
    pub open spec fn repark_asked(self, switch: Switching, window_id: WindowId, now_unix: i64) -> (
        Model,
        Switching,
    ) {
        match self.parking(window_id, now_unix) {
            Ok(draft) => (
                self.entry_requested(window_id, draft, Some(switch.id)),
                Switching {
                    recording: switch.recording.push(bumped(self.next_parking_token)),
                    ..switch
                },
            ),
            Err(_) => (self, switch.heard(window_id).with_stranded(window_id)),
        }
    }

    pub open spec fn reparks_asked(
        self,
        switch: Switching,
        windows: Seq<WindowId>,
        i: int,
        now_unix: i64,
    ) -> (Model, Switching)
        decreases windows.len() - i,
    {
        if i >= windows.len() {
            (self, switch)
        } else {
            let (next, moved) = self.repark_asked(switch, windows[i], now_unix);
            next.reparks_asked(moved, windows, i + 1, now_unix)
        }
    }

    pub open spec fn on_its_own() -> spec_fn(PendingParking) -> bool {
        |pending: PendingParking| pending.transaction is None
    }

    /// The switch abandoned, and everything it has moved started on its way
    /// back. What was queued but never started is simply dropped. A move the
    /// adapter has not answered stays in flight: it may still land, and has to
    /// be put back if it does.
    pub open spec fn compensating(
        self,
        switch: Switching,
        reason: SwitchFailure,
        now_unix: i64,
    ) -> Model {
        let dropped = Model {
            pending_parking: self.pending_parking.filter(Model::on_its_own()),
            ..self
        };
        let (asked, moved) = dropped.reparks_asked(
            Switching {
                failure: Some(reason),
                phase: WorkspaceSwitchPhase::CompensatingPark,
                queued: Seq::empty(),
                recording: Seq::empty(),
                in_flight: switch.in_flight + switch.restored,
                ..switch
            },
            switch.restored,
            0,
            now_unix,
        );
        if moved.settled() {
            asked.compensation_advanced(moved)
        } else {
            asked.switching(moved)
        }
    }

    /// [`Model::compensating`], unless it is already.
    pub open spec fn compensation_begun(self, reason: SwitchFailure, now_unix: i64) -> Model {
        match self.switch {
            Some(switch) => if switch.phase.compensating() {
                self
            } else {
                self.unswitched().compensating(switch, reason, now_unix)
            },
            None => self,
        }
    }

    /// The workspace called `name` displayed on `display_id`, with its tree.
    pub open spec fn name_shown(self, name: WorkspaceName, display_id: DisplayId) -> Model {
        match self.workspaces.find(name) {
            Some(i) => self.workspace_shown(i, display_id),
            None => Model {
                saved_trees: self.saved_trees.remove(display_id.0),
                constraint_overflow: self.constraint_overflow.filter(
                    Model::off_display(display_id),
                ),
                trees: self.trees.remove(display_id.0),
                ..self
            },
        }
    }

    /// The displayed assignment changed, and everything that follows from it.
    #[verifier::opaque]
    pub open spec fn displayed_now(
        self,
        a: Answers,
        name: WorkspaceName,
        display_id: DisplayId,
        replaces: bool,
    ) -> Result<Model, Query> {
        let stashed = if replaces {
            self.tree_stashed(display_id)
        } else {
            self
        };
        let shown = Model {
            focused_display: Some(display_id),
            ..stashed.name_shown(name, display_id)
        };
        match shown.arranged(a) {
            Ok(next) => next.workspaces_persisted(a, 0),
            Err(query) => Err(query),
        }
    }

    pub open spec fn priors_recorded(self, priors: Seq<PriorPlacement>, i: int) -> Model
        decreases priors.len() - i,
    {
        if i >= priors.len() {
            self
        } else {
            self.member_recorded(
                priors[i].window_id,
                Some((priors[i].display_id, priors[i].bounds)),
            ).priors_recorded(priors, i + 1)
        }
    }

    /// The attention given to the workspace called `name`.
    pub open spec fn attention_given(self, name: WorkspaceName) -> Model {
        match self.workspaces.find(name) {
            Some(i) => match self.attention(i) {
                Some(window_id) => self.effect(EngineEffect::FocusWindow { window_id }),
                None => self,
            },
            None => self,
        }
    }

    /// The undo scope of a committing switch: what the display showed, and
    /// where each window sat. A switch that is itself an undo has none.
    #[verifier::opaque]
    pub open spec fn commit_scoped(self, switch: Switching) -> Model {
        if switch.reverses_undo is None {
            self.scope_opened(CommandLabel::WorkspaceFocus(switch.target)).assignment_captured(
                switch.display_id,
            ).priors_recorded(switch.prior_placements, 0)
        } else {
            self
        }
    }

    #[verifier::opaque]
    pub open spec fn commit_closed(self, a: Answers, switch: Switching) -> Result<Model, Query> {
        if switch.reverses_undo is None {
            self.scope_closed(a)
        } else {
            Ok(self)
        }
    }

    /// The attention comes back with the workspace, and the result is
    /// published.
    #[verifier::opaque]
    pub open spec fn commit_concluded(self, switch: Switching) -> Model {
        self.attention_given(switch.target).concluded(
            Conclusion::Focused(
                WorkspaceFocusApplied::Displayed {
                    name: switch.target,
                    display_id: switch.display_id,
                    replaced: switch.outgoing,
                },
            ),
        )
    }

    /// The switch committed: the assignment changes, the trees are exchanged,
    /// and the whole thing becomes one reversible transaction, unless it is
    /// itself an undo.
    pub open spec fn committed(self, a: Answers, switch: Switching) -> Result<Model, Query> {
        match self.unswitched().commit_scoped(switch).displayed_now(
            a,
            switch.target,
            switch.display_id,
            switch.outgoing is Some,
        ) {
            Err(query) => Err(query),
            Ok(shown) => match shown.commit_closed(a, switch) {
                Err(query) => Err(query),
                Ok(done) => Ok(done.commit_concluded(switch)),
            },
        }
    }

    /// The transaction moved on, if the current phase has drained.
    pub open spec fn switch_advanced(self, a: Answers) -> Result<Model, Query> {
        match self.switch {
            None => Ok(self),
            Some(switch) => if !switch.settled() {
                Ok(self)
            } else if switch.phase.compensating() {
                Ok(self.unswitched().compensation_advanced(switch))
            } else if switch.phase == WorkspaceSwitchPhase::Restoring {
                self.unswitched().committed(a, switch)
            } else {
                let closed = self.unswitched();
                let owed = switch.queued.filter(closed.at_parking_site());
                if owed.len() == 0 {
                    closed.committed(a, switch)
                } else {
                    Ok(
                        closed.switching(
                            Switching {
                                phase: WorkspaceSwitchPhase::Restoring,
                                queued: Seq::empty(),
                                in_flight: owed,
                                restored: switch.restored + switch.queued.filter(
                                    closed.off_parking_site(),
                                ),
                                ..switch
                            },
                        ).restores_emitted(owed, 0),
                    )
                }
            },
        }
    }

    /// A move that was under way when the switch failed landed after all. A
    /// window that reached the parking site comes back with the others the
    /// switch parked; one that came on screen is parked again.
    pub open spec fn landed_late(
        self,
        heard: Switching,
        window_id: WindowId,
        now_unix: i64,
    ) -> Model {
        if self.parked_windows.contains_key(window_id.0) {
            self.switching(Switching { parked: heard.parked.push(window_id), ..heard })
        } else {
            let (asked, moved) = self.repark_asked(
                Switching {
                    restored: heard.restored.push(window_id),
                    in_flight: heard.in_flight.push(window_id),
                    ..heard
                },
                window_id,
                now_unix,
            );
            asked.switching(moved)
        }
    }

    /// The adapter has answered for a window the switch asked to move.
    #[verifier::opaque]
    pub open spec fn window_settled(
        self,
        a: Answers,
        window_id: WindowId,
        failure: Option<SwitchFailure>,
    ) -> Result<Model, Query> {
        match self.switch {
            None => Ok(self),
            Some(switch) => if !switch.in_flight.contains(window_id) {
                Ok(self)
            } else {
                let heard = switch.heard(window_id);
                match failure {
                    Some(reason) => if switch.phase.compensating() {
                        self.unswitched().switching(
                            switch.given_up(window_id),
                        ).switch_advanced(a)
                    } else {
                        Ok(self.unswitched().compensating(heard, reason, a.now_unix))
                    },
                    None => if switch.overtaken(window_id) {
                        self.unswitched().landed_late(
                            heard,
                            window_id,
                            a.now_unix,
                        ).switch_advanced(a)
                    } else {
                        let moved = match switch.phase {
                            WorkspaceSwitchPhase::Recording => Switching {
                                parked: heard.parked.push(window_id),
                                ..heard
                            },
                            WorkspaceSwitchPhase::Parking => Switching {
                                parked: heard.parked.push(window_id),
                                ..heard
                            },
                            WorkspaceSwitchPhase::Restoring => Switching {
                                restored: heard.restored.push(window_id),
                                ..heard
                            },
                            WorkspaceSwitchPhase::CompensatingPark => Switching {
                                restored: heard.restored.filter(other_than(window_id)),
                                ..heard
                            },
                            WorkspaceSwitchPhase::CompensatingRestore => Switching {
                                parked: heard.parked.filter(other_than(window_id)),
                                ..heard
                            },
                        };
                        self.unswitched().switching(moved).switch_advanced(a)
                    },
                }
            },
        }
    }

    pub open spec fn prior_placement(self) -> spec_fn(WindowId) -> PriorPlacement {
        |window_id: WindowId|
            PriorPlacement {
                window_id,
                display_id: self.inventory[window_id.0].window.display_id,
                bounds: self.intended_bounds(window_id.0),
            }
    }

    /// Recovery entries asked for, for every window from `i` on that the
    /// switch parks. One that left management or whose display went away is
    /// simply not parked; one that stopped being parkable cancels the switch.
    pub open spec fn switch_parks_asked(
        self,
        windows: Seq<WindowId>,
        i: int,
        now_unix: i64,
    ) -> Model
        decreases windows.len() - i,
    {
        match self.switch {
            None => self,
            Some(switch) => if i >= windows.len() {
                self
            } else if !self.inventory.contains_key(windows[i].0) {
                self.switch_parks_asked(windows, i + 1, now_unix)
            } else {
                match self.parking(windows[i], now_unix) {
                    Err(ParkingRefusal::UnknownDisplay { .. }) => self.switch_parks_asked(
                        windows,
                        i + 1,
                        now_unix,
                    ),
                    Err(refusal) => self.compensation_begun(
                        SwitchFailure::NotParkable(refusal),
                        now_unix,
                    ),
                    Ok(draft) => self.entry_requested(
                        windows[i],
                        draft,
                        Some(switch.id),
                    ).switching(
                        Switching {
                            recording: switch.recording.push(bumped(self.next_parking_token)),
                            ..switch
                        },
                    ).switch_parks_asked(windows, i + 1, now_unix),
                }
            },
        }
    }

    /// A switch opened for `plan`. Nothing moves yet.
    #[verifier::opaque]
    pub open spec fn switch_begun(
        self,
        a: Answers,
        plan: SwitchPlan,
        reverses_undo: Option<UndoTransactionId>,
    ) -> Result<Model, Query> {
        let id = bumped(self.next_switch_id);
        let opened = Model {
            next_switch_id: id,
            switch: Some(
                Switching {
                    id,
                    display_id: plan.display_id,
                    target: plan.target,
                    outgoing: plan.outgoing,
                    phase: WorkspaceSwitchPhase::Recording,
                    recording: Seq::empty(),
                    in_flight: Seq::empty(),
                    queued: plan.restore,
                    parked: Seq::empty(),
                    restored: Seq::empty(),
                    stranded: Seq::empty(),
                    failure: None,
                    prior_placements: plan.park.filter(self.managed()).map_values(
                        self.prior_placement(),
                    ),
                    reverses_undo,
                },
            ),
            ..self
        };
        opened.switch_parks_asked(plan.park, 0, a.now_unix).switch_advanced(a)
    }
}

impl EngineState {
    fn conclude(&mut self, result: WorkspaceCommandResult)
        ensures
            final(self)@ == old(self)@.concluded(result@),
    {
        self.last_switch_result = Some(result.clone());
        self.last_workspace_result = Some(result);
        self.revise();
    }

    /// Emits one restore effect per window, in order.
    fn emit_switch_restores(&mut self, windows: &Vec<WindowId>)
        ensures
            final(self)@ == old(self)@.restores_emitted(windows@, 0),
    {
        let ghost total = self@.restores_emitted(windows@, 0);
        let mut i: usize = 0;
        while i < windows.len()
            invariant
                i <= windows@.len(),
                self@.restores_emitted(windows@, i as int) == total,
            decreases windows@.len() - i,
        {
            self.ask_restore(windows[i]);
            i += 1;
        }
    }

    /// Those of `windows` that are at the parking site, and those that are
    /// not.
    fn split_by_site(&self, windows: &Vec<WindowId>) -> (sides: (Vec<WindowId>, Vec<WindowId>))
        ensures
            sides.0@ == windows@.filter(self@.at_parking_site()),
            sides.1@ == windows@.filter(self@.off_parking_site()),
    {
        let mut there: Vec<WindowId> = Vec::new();
        let mut elsewhere: Vec<WindowId> = Vec::new();
        let mut i: usize = 0;
        while i < windows.len()
            invariant
                i <= windows@.len(),
                there@ == windows@.take(i as int).filter(self@.at_parking_site()),
                elsewhere@ == windows@.take(i as int).filter(self@.off_parking_site()),
            decreases windows@.len() - i,
        {
            proof {
                lemma_filter_step(windows@, i as int, self@.at_parking_site());
                lemma_filter_step(windows@, i as int, self@.off_parking_site());
            }
            if self.parked_windows.contains_key(windows[i].0) {
                there.push(windows[i]);
            } else {
                elsewhere.push(windows[i]);
            }
            i += 1;
        }
        assert(windows@.take(windows@.len() as int) =~= windows@);
        (there, elsewhere)
    }

    /// Closes a compensated switch, either cleanly or as a degraded one.
    fn finish_compensation(&mut self, switch: WorkspaceSwitchTransaction)
        requires
            old(self)@.switch is None,
        ensures
            final(self)@ == old(self)@.compensation_finished(switch@),
    {
        let reason = match &switch.failure {
            Some(failure) => failure.clone(),
            None => SwitchFailure::Cancelled,
        };
        let failed = WorkspaceSwitchFailed {
            name: switch.target.clone(),
            display_id: switch.display_id,
            reason: reason.clone(),
            compensated: switch.stranded.len() == 0,
            stranded_windows: copy_ids(&switch.stranded),
        };
        if switch.stranded.len() > 0 {
            self.switch_degraded = Some(
                WorkspaceSwitchDegraded {
                    display_id: switch.display_id,
                    target: switch.target,
                    outgoing: switch.outgoing,
                    stranded_windows: switch.stranded,
                    reason,
                },
            );
        }
        self.conclude(WorkspaceCommandResult::SwitchFailed(failed));
    }

    pub(crate) fn advance_compensation(&mut self, switch: WorkspaceSwitchTransaction)
        requires
            old(self)@.switch is None,
        ensures
            final(self)@ == old(self)@.compensation_advanced(switch@),
    {
        let mut switch = switch;
        let (owed, _) = self.split_by_site(&switch.parked);
        if switch.phase == WorkspaceSwitchPhase::CompensatingRestore || owed.len() == 0 {
            self.finish_compensation(switch);
            return;
        }
        switch.phase = WorkspaceSwitchPhase::CompensatingRestore;
        switch.in_flight = copy_ids(&owed);
        switch.parked = copy_ids(&owed);
        self.switch = Some(switch);
        self.emit_switch_restores(&owed);
    }

    /// Records fresh recovery data for a window compensation must park again.
    /// A window whose entry cannot be recorded is stranded rather than moved
    /// without a way back.
    fn request_switch_repark(
        &mut self,
        switch: WorkspaceSwitchTransaction,
        window_id: WindowId,
        now_unix: i64,
    ) -> (moved: WorkspaceSwitchTransaction)
        ensures
            (final(self)@, moved@) == old(self)@.repark_asked(switch@, window_id, now_unix),
    {
        let ghost before = switch@;
        let mut moved = switch;
        match plan_parking_authorization(self, window_id, now_unix) {
            Ok(draft) => {
                let token = self.request_recovery_entry(window_id, draft, Some(moved.id));
                moved.recording.push(token);
                assert(moved@ =~= Switching { recording: before.recording.push(token), ..before });
            },
            Err(_) => {
                moved.in_flight = without(&moved.in_flight, window_id);
                strand_in(&mut moved, window_id);
            },
        }
        moved
    }

    /// [`EngineState::request_switch_repark`] for each of `windows`, in order.
    fn request_switch_reparks(
        &mut self,
        switch: WorkspaceSwitchTransaction,
        windows: &Vec<WindowId>,
        now_unix: i64,
    ) -> (moved: WorkspaceSwitchTransaction)
        ensures
            (final(self)@, moved@) == old(self)@.reparks_asked(switch@, windows@, 0, now_unix),
    {
        let ghost total = self@.reparks_asked(switch@, windows@, 0, now_unix);
        let mut moved = switch;
        let mut i: usize = 0;
        while i < windows.len()
            invariant
                i <= windows@.len(),
                self@.reparks_asked(moved@, windows@, i as int, now_unix) == total,
            decreases windows@.len() - i,
        {
            moved = self.request_switch_repark(moved, windows[i], now_unix);
            i += 1;
        }
        moved
    }

    /// Abandons the switch and starts putting back everything it has moved.
    ///
    /// Windows this transaction restored go back to the parking site before
    /// windows it parked come back on screen, so the outgoing and target
    /// workspaces are never on the monitor at once.
    fn compensate(
        &mut self,
        switch: WorkspaceSwitchTransaction,
        reason: SwitchFailure,
        now_unix: i64,
    )
        requires
            old(self)@.switch is None,
        ensures
            final(self)@ == old(self)@.compensating(switch@, reason, now_unix),
    {
        let ghost given = switch@;
        let mut switch = switch;
        let to_repark = copy_ids(&switch.restored);
        switch.failure = Some(reason);
        switch.phase = WorkspaceSwitchPhase::CompensatingPark;
        switch.queued = Vec::new();
        switch.recording = Vec::new();
        let mut reparked = copy_ids(&to_repark);
        switch.in_flight.append(&mut reparked);
        self.drop_switch_entries();
        assert(switch@ =~= Switching {
            failure: Some(reason),
            phase: WorkspaceSwitchPhase::CompensatingPark,
            queued: Seq::empty(),
            recording: Seq::empty(),
            in_flight: given.in_flight + given.restored,
            ..given
        });
        let moved = self.request_switch_reparks(switch, &to_repark, now_unix);
        proof {
            lemma_reparks_keep_switch(
                Model {
                    pending_parking: old(self)@.pending_parking.filter(Model::on_its_own()),
                    ..old(self)@
                },
                switch@,
                to_repark@,
                0,
                now_unix,
            );
        }
        if moved.phase_is_settled() {
            self.advance_compensation(moved);
        } else {
            self.switch = Some(moved);
        }
    }

    fn drop_switch_entries(&mut self)
        ensures
            final(self)@ == (Model {
                pending_parking: old(self)@.pending_parking.filter(Model::on_its_own()),
                ..old(self)@
            }),
    {
        let ghost pred = Model::on_its_own();
        let ghost all = self.pending_parking@;
        let mut left: Vec<PendingParking> = Vec::new();
        let mut i: usize = 0;
        while i < self.pending_parking.len()
            invariant
                i <= self.pending_parking@.len(),
                *self == *old(self),
                all == self.pending_parking@,
                pred == Model::on_its_own(),
                left@ == all.take(i as int).filter(pred),
            decreases self.pending_parking@.len() - i,
        {
            proof {
                lemma_filter_step(all, i as int, pred);
            }
            if self.pending_parking[i].transaction.is_none() {
                left.push(self.pending_parking[i]);
            }
            i += 1;
        }
        assert(all.take(all.len() as int) =~= all);
        self.pending_parking = left;
    }

    /// Starts compensation, unless there is no switch or it is compensating
    /// already.
    pub fn begin_switch_compensation(&mut self, reason: SwitchFailure, now_unix: i64)
        ensures
            final(self)@ == old(self)@.compensation_begun(reason, now_unix),
    {
        match self.switch.take() {
            Some(switch) => {
                if switch.phase.is_compensating() {
                    self.switch = Some(switch);
                } else {
                    self.compensate(switch, reason, now_unix);
                }
            },
            None => {},
        }
    }

    fn show_name(&mut self, name: &WorkspaceName, display_id: DisplayId)
        ensures
            final(self)@ == old(self)@.name_shown(*name, display_id),
    {
        match self.workspaces.find(name) {
            Some(i) => {
                self.show_workspace(i, display_id);
            },
            None => {
                self.saved_trees.remove(display_id.0);
                let left = crate::assign::off_display_only(&self.constraint_overflow, display_id);
                self.constraint_overflow = left;
                self.trees.remove(display_id.0);
            },
        }
    }

    /// Displays the workspace called `name`, and does everything that follows
    /// from it.
    pub fn display_now(
        &mut self,
        a: &Answers,
        name: &WorkspaceName,
        display_id: DisplayId,
        replaces: bool,
    ) -> (reply: Result<(), Question>)
        ensures
            reached(reply, final(self)@, old(self)@.displayed_now(*a, *name, display_id, replaces)),
    {
        proof {
            reveal(Model::displayed_now);
        }
        if replaces {
            self.stash_display_tree(display_id);
        }
        self.show_name(name, display_id);
        self.focused_display = Some(display_id);
        match self.reconcile_arrangements(a) {
            Ok(_) => self.persist_workspaces(a),
            Err(question) => Err(question),
        }
    }

    fn record_priors(&mut self, priors: &Vec<PriorPlacement>)
        ensures
            final(self)@ == old(self)@.priors_recorded(priors@, 0),
    {
        let ghost total = self@.priors_recorded(priors@, 0);
        let mut i: usize = 0;
        while i < priors.len()
            invariant
                i <= priors@.len(),
                self@.priors_recorded(priors@, i as int) == total,
            decreases priors@.len() - i,
        {
            self.record_undo_member(
                priors[i].window_id,
                Some((priors[i].display_id, priors[i].bounds)),
            );
            i += 1;
        }
    }

    fn give_attention(&mut self, name: &WorkspaceName)
        ensures
            final(self)@ == old(self)@.attention_given(*name),
    {
        match self.workspaces.find(name) {
            Some(i) => match self.attention_of(i) {
                Some(window_id) => {
                    self.emit(EngineEffect::FocusWindow { window_id });
                },
                None => {},
            },
            None => {},
        }
    }

    fn open_commit_scope(&mut self, switch: &WorkspaceSwitchTransaction)
        ensures
            final(self)@ == old(self)@.commit_scoped(switch@),
    {
        proof {
            reveal(Model::commit_scoped);
        }
        if switch.reverses_undo.is_none() {
            self.open_undo_scope(CommandLabel::WorkspaceFocus(switch.target.clone()));
            self.capture_assignment_for_undo(switch.display_id);
            self.record_priors(&switch.prior_placements);
        }
    }

    fn close_commit_scope(&mut self, a: &Answers, switch: &WorkspaceSwitchTransaction) -> (reply:
        Result<(), Question>)
        ensures
            reached(reply, final(self)@, old(self)@.commit_closed(*a, switch@)),
    {
        proof {
            reveal(Model::commit_closed);
        }
        if switch.reverses_undo.is_none() {
            self.close_undo_scope(a)
        } else {
            Ok(())
        }
    }

    fn conclude_commit(&mut self, switch: WorkspaceSwitchTransaction)
        ensures
            final(self)@ == old(self)@.commit_concluded(switch@),
    {
        proof {
            reveal(Model::commit_concluded);
        }
        self.give_attention(&switch.target);
        self.conclude(
            WorkspaceCommandResult::Focused(
                WorkspaceFocusApplied::Displayed {
                    name: switch.target,
                    display_id: switch.display_id,
                    replaced: switch.outgoing,
                },
            ),
        );
    }

    /// Commits the switch. This is the only place a switch moves the
    /// displayed assignment, and it runs only once every native move has
    /// landed.
    fn commit_switch(&mut self, a: &Answers, switch: WorkspaceSwitchTransaction) -> (reply: Result<
        (),
        Question,
    >)
        requires
            old(self)@.switch is None,
        ensures
            reached(reply, final(self)@, old(self)@.committed(*a, switch@)),
    {
        assert(self@ == self@.unswitched());
        self.open_commit_scope(&switch);
        match self.display_now(a, &switch.target, switch.display_id, switch.outgoing.is_some()) {
            Ok(_) => {},
            Err(question) => {
                return Err(question);
            },
        }
        match self.close_commit_scope(a, &switch) {
            Ok(_) => {},
            Err(question) => {
                return Err(question);
            },
        }
        self.conclude_commit(switch);
        Ok(())
    }

    /// Moves the transaction on when the current phase has drained. The one
    /// place that decides what a settled phase means and what follows it.
    pub fn advance_switch(&mut self, a: &Answers) -> (reply: Result<(), Question>)
        ensures
            reached(reply, final(self)@, old(self)@.switch_advanced(*a)),
    {
        let mut switch = match self.switch.take() {
            Some(switch) => switch,
            None => {
                return Ok(());
            },
        };
        if !switch.phase_is_settled() {
            self.switch = Some(switch);
            return Ok(());
        }
        if switch.phase.is_compensating() {
            self.advance_compensation(switch);
            return Ok(());
        }
        if switch.phase == WorkspaceSwitchPhase::Restoring {
            return self.commit_switch(a, switch);
        }
        let (owed, elsewhere) = self.split_by_site(&switch.queued);
        if owed.len() == 0 {
            return self.commit_switch(a, switch);
        }
        let ghost before = switch@;
        let mut elsewhere = elsewhere;
        let ghost landed = elsewhere@;
        switch.phase = WorkspaceSwitchPhase::Restoring;
        switch.queued = Vec::new();
        switch.in_flight = copy_ids(&owed);
        switch.restored.append(&mut elsewhere);
        assert(switch@ =~= Switching {
            phase: WorkspaceSwitchPhase::Restoring,
            queued: Seq::empty(),
            in_flight: owed@,
            restored: before.restored + landed,
            ..before
        });
        self.switch = Some(switch);
        self.emit_switch_restores(&owed);
        Ok(())
    }

    /// Takes up a window whose move landed after the switch had failed.
    fn take_up_late(
        &mut self,
        switch: WorkspaceSwitchTransaction,
        window_id: WindowId,
        now_unix: i64,
    )
        requires
            old(self)@.switch is None,
        ensures
            final(self)@ == old(self)@.landed_late(switch@, window_id, now_unix),
    {
        let mut switch = switch;
        if self.parked_windows.contains_key(window_id.0) {
            switch.parked.push(window_id);
            self.switch = Some(switch);
            return;
        }
        switch.restored.push(window_id);
        switch.in_flight.push(window_id);
        let moved = self.request_switch_repark(switch, window_id, now_unix);
        self.switch = Some(moved);
    }

    /// Records that the adapter has answered for `window_id`, and whether it
    /// could not carry the move out.
    pub fn switch_window_settled(
        &mut self,
        a: &Answers,
        window_id: WindowId,
        failure: Option<SwitchFailure>,
    ) -> (reply: Result<(), Question>)
        ensures
            reached(reply, final(self)@, old(self)@.window_settled(*a, window_id, failure)),
    {
        proof {
            reveal(Model::window_settled);
        }
        let mut switch = match self.switch.take() {
            Some(switch) => switch,
            None => {
                return Ok(());
            },
        };
        if !holds(&switch.in_flight, window_id) {
            self.switch = Some(switch);
            return Ok(());
        }
        switch.in_flight = without(&switch.in_flight, window_id);
        let overtaken = switch.phase == WorkspaceSwitchPhase::CompensatingPark && !holds(
            &switch.restored,
            window_id,
        );
        match failure {
            Some(reason) => {
                if switch.phase.is_compensating() {
                    if !overtaken {
                        strand_in(&mut switch, window_id);
                    }
                } else {
                    self.compensate(switch, reason, a.now_unix);
                    return Ok(());
                }
            },
            None => match switch.phase {
                WorkspaceSwitchPhase::Recording | WorkspaceSwitchPhase::Parking => {
                    switch.parked.push(window_id);
                },
                WorkspaceSwitchPhase::Restoring => {
                    switch.restored.push(window_id);
                },
                WorkspaceSwitchPhase::CompensatingPark => {
                    if overtaken {
                        self.take_up_late(switch, window_id, a.now_unix);
                        return self.advance_switch(a);
                    }
                    switch.restored = without(&switch.restored, window_id);
                },
                WorkspaceSwitchPhase::CompensatingRestore => {
                    switch.parked = without(&switch.parked, window_id);
                },
            },
        }
        self.switch = Some(switch);
        self.advance_switch(a)
    }

    fn prior_placements_of(&self, park: &Vec<WindowId>) -> (priors: Vec<PriorPlacement>)
        ensures
            priors@ == park@.filter(self@.managed()).map_values(self@.prior_placement()),
    {
        let ghost pred = self@.managed();
        let ghost prior = self@.prior_placement();
        let mut priors: Vec<PriorPlacement> = Vec::new();
        let mut i: usize = 0;
        while i < park.len()
            invariant
                i <= park@.len(),
                pred == self@.managed(),
                prior == self@.prior_placement(),
                priors@ == park@.take(i as int).filter(pred).map_values(prior),
            decreases park@.len() - i,
        {
            let window_id = park[i];
            proof {
                lemma_filter_step(park@, i as int, pred);
            }
            match self.inventory.get(window_id.0) {
                Some(managed) => {
                    let bounds = match self.windows.get(window_id.0) {
                        Some(placement) => placement.bounds,
                        None => managed.window.bounds,
                    };
                    priors.push(
                        PriorPlacement { window_id, display_id: managed.window.display_id, bounds },
                    );
                    proof {
                        let shorter = park@.take(i as int).filter(pred);
                        assert(shorter.push(window_id).map_values(prior) =~= shorter.map_values(
                            prior,
                        ).push(prior(window_id)));
                    }
                },
                None => {},
            }
            i += 1;
        }
        assert(park@.take(park@.len() as int) =~= park@);
        priors
    }

    /// Records recovery data for every window the switch is about to park. A
    /// window that left management or whose display went away is simply not
    /// parked; one that stopped being parkable cancels the switch.
    #[verifier::loop_isolation(false)]
    fn request_switch_parks(&mut self, windows: &Vec<WindowId>, now_unix: i64)
        ensures
            final(self)@ == old(self)@.switch_parks_asked(windows@, 0, now_unix),
    {
        let ghost total = self@.switch_parks_asked(windows@, 0, now_unix);
        let mut i: usize = 0;
        while i < windows.len()
            invariant
                i <= windows@.len(),
                self@.switch_parks_asked(windows@, i as int, now_unix) == total,
            decreases windows@.len() - i,
        {
            let window_id = windows[i];
            let transaction = match &self.switch {
                Some(switch) => switch.id,
                None => {
                    return;
                },
            };
            if self.inventory.contains_key(window_id.0) {
                match plan_parking_authorization(self, window_id, now_unix) {
                    Ok(draft) => {
                        let token = self.request_recovery_entry(
                            window_id,
                            draft,
                            Some(transaction),
                        );
                        match &mut self.switch {
                            Some(switch) => {
                                switch.recording.push(token);
                            },
                            None => {},
                        }
                    },
                    Err(ParkingRefusal::UnknownDisplay { .. }) => {},
                    Err(refusal) => {
                        self.begin_switch_compensation(
                            SwitchFailure::NotParkable(refusal),
                            now_unix,
                        );
                        return;
                    },
                }
            }
            i += 1;
        }
    }

    /// Opens a switch transaction for `plan` and starts recording recovery
    /// data for everything it will park.
    ///
    /// Nothing moves here. The windows leave the screen only as their ledger
    /// entries are acknowledged durable.
    pub fn begin_workspace_switch(
        &mut self,
        a: &Answers,
        plan: WorkspaceSwitchPlan,
        reverses_undo: Option<UndoTransactionId>,
    ) -> (reply: Result<(), Question>)
        ensures
            reached(reply, final(self)@, old(self)@.switch_begun(*a, plan@, reverses_undo)),
    {
        proof {
            reveal(Model::switch_begun);
        }
        let id = bump(self.next_switch_id);
        let prior_placements = self.prior_placements_of(&plan.park);
        self.next_switch_id = id;
        let switch = WorkspaceSwitchTransaction {
            id,
            display_id: plan.display_id,
            target: plan.target,
            outgoing: plan.outgoing,
            phase: WorkspaceSwitchPhase::Recording,
            recording: Vec::new(),
            in_flight: Vec::new(),
            queued: plan.restore,
            parked: Vec::new(),
            restored: Vec::new(),
            stranded: Vec::new(),
            failure: None,
            prior_placements,
            reverses_undo,
        };
        assert(switch@ =~= Switching {
            id,
            display_id: plan.display_id,
            target: plan.target,
            outgoing: plan.outgoing,
            phase: WorkspaceSwitchPhase::Recording,
            recording: Seq::empty(),
            in_flight: Seq::empty(),
            queued: plan@.restore,
            parked: Seq::empty(),
            restored: Seq::empty(),
            stranded: Seq::empty(),
            failure: None,
            prior_placements: prior_placements@,
            reverses_undo,
        });
        self.switch = Some(switch);
        self.request_switch_parks(&plan.park, a.now_unix);
        self.advance_switch(a)
    }
}

/// Marks a window compensation could not put back.
pub(crate) fn strand_in(switch: &mut WorkspaceSwitchTransaction, window_id: WindowId)
    ensures
        final(switch)@ == old(switch)@.with_stranded(window_id),
{
    if !holds(&switch.stranded, window_id) {
        switch.stranded.push(window_id);
    }
    switch.restored = without(&switch.restored, window_id);
    switch.parked = without(&switch.parked, window_id);
}

/// Asking for entries does not touch the switch record itself.
proof fn lemma_reparks_keep_switch(
    model: Model,
    switch: Switching,
    windows: Seq<WindowId>,
    i: int,
    now_unix: i64,
)
    ensures
        model.reparks_asked(switch, windows, i, now_unix).0.switch == model.switch,
    decreases windows.len() - i,
{
    if i < windows.len() {
        let (next, moved) = model.repark_asked(switch, windows[i], now_unix);
        lemma_reparks_keep_switch(next, moved, windows, i + 1, now_unix);
    }
}

} // verus!
