//! Workspace lifecycle, parking and undo events.

use vstd::prelude::*;

verus! {

use crate::answers::{Answers, Query, Question};
use crate::assign::{spelled_in, spells};
use crate::commands::CommandLabel;
use crate::geometry::{DisplayId, RecoveryEntryId, WindowId};
use crate::name::{RequestedName, WorkspaceName};
use crate::outcome::{
    seen, Conclusion, ParkingCapability, ParkingFailure, ParkingStage, SwitchFailure, Switching,
    WorkspaceCommandResult, WorkspaceFocusApplied, WorkspaceSwitchPhase,
    WorkspaceSwitchRestoreResult, WorkspaceSwitchTransaction,
};
use crate::parking::{
    holds, plan_parking_authorization, plan_workspace_switch_restore, without, StrandedMove,
};
use crate::placement::reached;
use crate::plans::{
    plan_workspace_create, plan_workspace_delete, plan_workspace_focus, plan_workspace_move,
    plan_workspace_switch,
};
use crate::reversal::plan_undo;
use crate::state::{
    EngineEffect, EngineState, Intent, Model, PendingParking, PersistenceIntent, StoredTree,
};
use crate::switch::strand_in;
use crate::table::sorted;
use crate::text::{first_index, lemma_first_hit};
use crate::topology::{display_id_of, id_of};
use crate::undo::{
    same_history, Reversal, Stored, UndoRestoredWindow, UndoResult, UndoTransaction,
    UndoTreeSnapshot,
};
use crate::workspace::{lemma_filter_step, PersistedWorkspace, Workspace, WorkspaceOrigin};

impl Model {
    #[verifier::opaque]
    pub open spec fn on_trees_loaded(self, a: Answers, trees: Seq<StoredTree>) -> Result<Model, Query> {
        if trees.len() == 0 {
            Ok(self)
        } else {
            (Model { pending_trees: trees, ..self }).arranged_revised(a)
        }
    }

    pub open spec fn on_history_loaded(self, transaction: Option<Stored>) -> Model {
        if same_history(self.newest_undo, transaction) {
            self
        } else {
            Model { newest_undo: transaction, ..self }.revised()
        }
    }

    /// The pool with a stored workspace in it: as it is where the pool already
    /// knows the name, and created otherwise.
    pub open spec fn stored_present(self, stored: PersistedWorkspace) -> Model {
        match self.workspaces.find(stored.name) {
            Some(_) => self,
            None => Model {
                workspaces: self.workspaces.created(
                    stored.name,
                    if spelled_in(self.config.workspaces, stored.name) {
                        WorkspaceOrigin::Configuration
                    } else {
                        WorkspaceOrigin::Command
                    },
                ),
                ..self
            },
        }
    }

    /// What the database holds of a workspace, waiting to be taken up.
    pub open spec fn stored_noted(self, stored: PersistedWorkspace) -> Model {
        match self.workspaces.find(stored.name) {
            None => self,
            Some(i) => {
                let workspace = self.workspaces.list[i];
                Model {
                    workspaces: self.workspaces.with(
                        i,
                        Workspace {
                            pending_tree: match stored.tree {
                                Some(tree) => Some(tree),
                                None => workspace.pending_tree,
                            },
                            pending_display: match stored.displayed_fingerprint {
                                Some(fingerprint) => Some(fingerprint),
                                None => workspace.pending_display,
                            },
                            saved: Some(
                                PersistedWorkspace {
                                    name: workspace.name,
                                    origin: stored.origin,
                                    displayed_fingerprint: None,
                                    tree: None,
                                },
                            ),
                            ..workspace
                        },
                    ),
                    ..self
                }
            },
        }
    }

    pub open spec fn all_stored(self, stored: Seq<PersistedWorkspace>, i: int) -> Model
        decreases stored.len() - i,
    {
        if i >= stored.len() {
            self
        } else {
            self.stored_present(stored[i]).stored_noted(stored[i]).all_stored(stored, i + 1)
        }
    }

    pub open spec fn pending_display_dropped(self, i: int) -> Model {
        Model {
            workspaces: self.workspaces.with(
                i,
                Workspace { pending_display: None, ..self.workspaces.list[i] },
            ),
            ..self
        }
    }

    /// Whether nothing would be lost by showing something else there.
    pub open spec fn gives_way(self, display_id: DisplayId) -> bool {
        match self.workspaces.displayed_at(display_id) {
            Some(j) => self.workspaces.members_of(self.workspaces.list[j].name).len() == 0,
            None => true,
        }
    }

    /// Workspace `i` back on the display it was on, where that display is
    /// here and shows nothing that has windows.
    pub open spec fn display_remembered(self, i: int) -> Model {
        match self.workspaces.list[i].pending_display {
            None => self,
            Some(fingerprint) => match id_of(self.displays, fingerprint@) {
                None => self,
                Some(display_id) => if self.workspaces.list[i].displayed_on is Some {
                    self.pending_display_dropped(i)
                } else if !self.gives_way(display_id) {
                    self
                } else {
                    self.tree_stashed(display_id).workspace_shown(
                        i,
                        display_id,
                    ).pending_display_dropped(i)
                },
            },
        }
    }

    /// Workspaces `i` to `n` back on the displays they were on.
    pub open spec fn displays_remembered(self, i: int, n: int) -> Model
        decreases n - i,
    {
        if i >= n {
            self
        } else {
            self.display_remembered(i).displays_remembered(i + 1, n)
        }
    }

    #[verifier::opaque]
    pub open spec fn on_workspaces_loaded(self, a: Answers, stored: Seq<PersistedWorkspace>) -> Result<
        Model,
        Query,
    > {
        if stored.len() == 0 {
            Ok(self)
        } else {
            let present = self.all_stored(stored, 0);
            present.displays_remembered(
                0,
                present.workspaces.list.len() as int,
            ).assignment_reconciled(a)
        }
    }

    /// A command's conclusion published.
    pub open spec fn answered(self, conclusion: Conclusion) -> Model {
        Model { last_workspace_result: Some(conclusion), ..self }.revised()
    }

    #[verifier::opaque]
    pub open spec fn on_create(self, a: Answers, request: RequestedName) -> Result<Model, Query> {
        match self.create_plan(request) {
            Err(refusal) => Ok(self.answered(Conclusion::Refused(refusal))),
            Ok(applied) => match (Model {
                workspaces: self.workspaces.created(applied.name, WorkspaceOrigin::Command),
                ..self
            }).workspaces_persisted(a, 0) {
                Err(query) => Err(query),
                Ok(next) => Ok(next.answered(Conclusion::Created(applied))),
            },
        }
    }

    #[verifier::opaque]
    pub open spec fn on_delete(self, a: Answers, request: RequestedName) -> Result<Model, Query> {
        match self.delete_plan(a, request) {
            Err(query) => Err(query),
            Ok(Err(refusal)) => Ok(self.answered(Conclusion::Refused(refusal))),
            Ok(Ok(applied)) => {
                let removed = match self.workspaces.find(applied.name) {
                    Some(i) => Model { workspaces: self.workspaces.removed(i), ..self },
                    None => self,
                };
                Ok(
                    removed.intent(Intent::DeleteWorkspace(applied.name)).answered(
                        Conclusion::Deleted(applied),
                    ),
                )
            },
        }
    }

    /// A hidden workspace displayed by pure bookkeeping, as one reversible
    /// change of the displayed assignment.
    #[verifier::opaque]
    pub open spec fn shown_without_moves(
        self,
        a: Answers,
        name: WorkspaceName,
        display_id: DisplayId,
        replaced: Option<WorkspaceName>,
    ) -> Result<Model, Query> {
        match self.scope_opened(CommandLabel::WorkspaceFocus(name)).assignment_captured(
            display_id,
        ).displayed_now(a, name, display_id, replaced is Some) {
            Err(query) => Err(query),
            Ok(shown) => match shown.scope_closed(a) {
                Err(query) => Err(query),
                Ok(next) => Ok(
                    next.answered(
                        Conclusion::Focused(
                            WorkspaceFocusApplied::Displayed { name, display_id, replaced },
                        ),
                    ),
                ),
            },
        }
    }

    /// A switch started; what it concluded, where it settled at once, or that
    /// it has started.
    #[verifier::opaque]
    pub open spec fn switch_started(
        self,
        a: Answers,
        request: RequestedName,
        applied: WorkspaceFocusApplied,
    ) -> Result<Model, Query> {
        match self.switch_plan(request) {
            Err(refusal) => Ok(self.answered(Conclusion::Refused(refusal))),
            Ok(plan) => match self.switch_begun(a, plan, None) {
                Err(query) => Err(query),
                Ok(begun) => Ok(
                    begun.answered(
                        match (begun.switch, begun.last_switch_result) {
                            (None, Some(conclusion)) => conclusion,
                            _ => Conclusion::Focused(applied),
                        },
                    ),
                ),
            },
        }
    }

    #[verifier::opaque]
    pub open spec fn on_workspace_focus(self, a: Answers, request: RequestedName) -> Result<
        Model,
        Query,
    > {
        match self.focus_plan(request) {
            Err(refusal) => Ok(self.answered(Conclusion::Refused(refusal))),
            Ok(WorkspaceFocusApplied::Displayed { name, display_id, replaced }) =>
                self.shown_without_moves(a, name, display_id, replaced),
            Ok(WorkspaceFocusApplied::SwitchStarted { name, display_id, replaced, parking, restoring }) =>
                self.switch_started(
                    a,
                    request,
                    WorkspaceFocusApplied::SwitchStarted {
                        name,
                        display_id,
                        replaced,
                        parking,
                        restoring,
                    },
                ),
            Ok(WorkspaceFocusApplied::FocusedExisting { name, display_id, focused_window }) => {
                let focused = Model { focused_display: Some(display_id), ..self };
                let raised = match focused_window {
                    Some(window_id) => focused.effect(EngineEffect::FocusWindow { window_id }),
                    None => focused,
                };
                Ok(
                    raised.answered(
                        Conclusion::Focused(
                            WorkspaceFocusApplied::FocusedExisting {
                                name,
                                display_id,
                                focused_window,
                            },
                        ),
                    ),
                )
            },
        }
    }

    /// Two displays' trees exchanged, and what is kept per display dropped.
    pub open spec fn trees_exchanged(self, from: DisplayId, to: DisplayId) -> Model {
        let without = self.trees.remove(from.0).remove(to.0);
        let moved = if self.trees.contains_key(from.0) {
            without.insert(to.0, self.trees[from.0])
        } else {
            without
        };
        Model {
            trees: if self.trees.contains_key(to.0) {
                moved.insert(from.0, self.trees[to.0])
            } else {
                moved
            },
            saved_trees: self.saved_trees.remove(from.0).remove(to.0),
            constraint_overflow: self.constraint_overflow.filter(Model::off_display(from)).filter(
                Model::off_display(to),
            ),
            order: self.order.filter(Model::off_display(from)).filter(Model::off_display(to)),
            ..self
        }
    }

    #[verifier::opaque]
    pub open spec fn on_workspace_move(
        self,
        a: Answers,
        request: RequestedName,
        display_id: DisplayId,
    ) -> Result<Model, Query> {
        match self.move_plan(request, display_id) {
            Err(refusal) => Ok(self.answered(Conclusion::Refused(refusal))),
            Ok(applied) => {
                let from = applied.from_display_id;
                let to = applied.to_display_id;
                let exchanged = self.trees_exchanged(from, to);
                match (Model {
                    workspaces: exchanged.workspaces.swapped(from, to),
                    focused_display: Some(to),
                    ..exchanged
                }).arranged(a) {
                    Err(query) => Err(query),
                    Ok(next) => match next.workspaces_persisted(a, 0) {
                        Err(query) => Err(query),
                        Ok(done) => Ok(done.answered(Conclusion::Moved(applied))),
                    },
                }
            },
        }
    }

    pub open spec fn on_capability(self, capability: ParkingCapability) -> Model {
        if crate::outcome::same_capability(self.parking_capability, capability) {
            self
        } else {
            Model { parking_capability: capability, ..self }.revised()
        }
    }

    #[verifier::opaque]
    pub open spec fn on_parking_requested(self, window_id: WindowId, now_unix: i64) -> Model {
        match self.parking(window_id, now_unix) {
            Ok(draft) => Model {
                last_parking_refusal: None,
                ..self.entry_requested(window_id, draft, None)
            }.revised(),
            Err(refusal) => Model { last_parking_refusal: Some(refusal), ..self }.revised(),
        }
    }

    pub open spec fn token_at(self, token: u64) -> spec_fn(int) -> bool {
        |i: int| self.pending_parking[i].token == token
    }

    pub open spec fn other_token(token: u64) -> spec_fn(u64) -> bool {
        |other: u64| other != token
    }

    pub open spec fn other_pending(token: u64) -> spec_fn(PendingParking) -> bool {
        |pending: PendingParking| pending.token != token
    }

    /// The switch told that one of its entries is durable.
    pub open spec fn entry_heard(self, pending: PendingParking, parks: bool) -> Model {
        match self.switch {
            Some(switch) => if pending.transaction != Some(switch.id) {
                self
            } else {
                let recording = switch.recording.filter(Model::other_token(pending.token));
                let phase = if switch.phase == WorkspaceSwitchPhase::Recording && recording.len()
                    == 0 {
                    WorkspaceSwitchPhase::Parking
                } else {
                    switch.phase
                };
                let in_flight = if parks && !switch.in_flight.contains(pending.window_id) {
                    switch.in_flight.push(pending.window_id)
                } else {
                    switch.in_flight
                };
                self.switching(Switching { recording, phase, in_flight, ..switch })
            },
            None => self,
        }
    }

    /// The ledger made an entry durable: the window may leave visible geometry
    /// now, and not before, unless it has left management.
    #[verifier::opaque]
    pub open spec fn on_entry_durable(self, a: Answers, token: u64, entry_id: RecoveryEntryId) -> Result<
        Model,
        Query,
    > {
        match first_index(self.pending_parking.len(), self.token_at(token)) {
            None => Ok(self),
            Some(i) => {
                let pending = self.pending_parking[i];
                let parks = self.inventory.contains_key(pending.window_id.0);
                let heard = Model {
                    pending_parking: self.pending_parking.remove(i),
                    ..self
                }.entry_heard(pending, parks);
                let parked = if parks {
                    heard.effect(
                        EngineEffect::ParkWindow { window_id: pending.window_id, entry_id },
                    )
                } else {
                    heard
                };
                match parked.switch_advanced(a) {
                    Ok(next) => Ok(next.revised()),
                    Err(query) => Err(query),
                }
            },
        }
    }

    /// A re-park the ledger refused: the window cannot be moved without a way
    /// back, so it is stranded, and compensation goes on without it.
    pub open spec fn repark_refused(self, switch: Switching, refused: PendingParking) -> Model {
        let left = Switching {
            recording: switch.recording.filter(Model::other_token(refused.token)),
            ..switch
        }.heard(refused.window_id).with_stranded(refused.window_id);
        if left.settled() {
            self.unswitched().compensation_advanced(left)
        } else {
            self.switching(left)
        }
    }

    /// The ledger could not write an entry. A switch may never park a window
    /// it could not promise to put back, so one refused entry cancels it, and
    /// one refused while it is being cancelled strands the window.
    #[verifier::opaque]
    pub open spec fn on_entry_refused(self, token: u64, now_unix: i64) -> Model {
        match first_index(self.pending_parking.len(), self.token_at(token)) {
            None => self,
            Some(i) => {
                let refused = self.pending_parking[i];
                let dropped = Model {
                    pending_parking: self.pending_parking.filter(Model::other_pending(token)),
                    ..self
                };
                let cancelled = match self.switch {
                    Some(switch) => if refused.transaction != Some(switch.id) {
                        dropped
                    } else if switch.phase.compensating() {
                        dropped.repark_refused(switch, refused)
                    } else {
                        dropped.switching(
                            Switching {
                                recording: switch.recording.filter(Model::other_token(token)),
                                ..switch
                            },
                        ).compensation_begun(SwitchFailure::EntryNotDurable, now_unix)
                    },
                    None => dropped,
                };
                cancelled.revised()
            },
        }
    }

    #[verifier::opaque]
    pub open spec fn on_parked(self, a: Answers, window_id: WindowId, entry_id: RecoveryEntryId) -> Result<
        Model,
        Query,
    > {
        match (Model {
            parked_windows: self.parked_windows.insert(window_id.0, entry_id),
            last_parking_failure: None,
            ..self
        }).intent(Intent::MarkParked(entry_id)).stranded_settled(window_id).window_settled(
            a,
            window_id,
            None,
        ) {
            Ok(next) => Ok(next.revised()),
            Err(query) => Err(query),
        }
    }

    pub open spec fn failure_noted(
        self,
        window_id: WindowId,
        entry_id: RecoveryEntryId,
        stage: ParkingStage,
        reason: String,
    ) -> Model {
        Model {
            last_parking_failure: Some(ParkingFailure { window_id, entry_id, stage, reason }),
            ..self
        }
    }

    pub open spec fn moves_in_switch(self, window_id: WindowId) -> bool {
        match self.switch {
            Some(switch) => switch.in_flight.contains(window_id),
            None => false,
        }
    }

    #[verifier::opaque]
    pub open spec fn on_park_failed(
        self,
        a: Answers,
        window_id: WindowId,
        entry_id: RecoveryEntryId,
        reason: String,
    ) -> Result<Model, Query> {
        match self.failure_noted(window_id, entry_id, ParkingStage::Park, reason).window_settled(
            a,
            window_id,
            Some(SwitchFailure::Reported(reason)),
        ) {
            Err(query) => Err(query),
            Ok(next) => if self.moves_in_switch(window_id) {
                Ok(next.revised())
            } else {
                Ok(next.stranded(window_id, SwitchFailure::Reported(reason)).revised())
            },
        }
    }

    #[verifier::opaque]
    pub open spec fn on_restored(self, a: Answers, window_id: WindowId) -> Result<Model, Query> {
        let back = if self.parked_windows.contains_key(window_id.0) {
            Model {
                parked_windows: self.parked_windows.remove(window_id.0),
                last_parking_failure: None,
                ..self
            }.intent(Intent::MarkRestored(self.parked_windows[window_id.0])).revised()
        } else if self.moves_in_switch(window_id) {
            self.revised()
        } else {
            self
        };
        back.stranded_settled(window_id).window_settled(a, window_id, None)
    }

    #[verifier::opaque]
    pub open spec fn on_restore_failed(
        self,
        a: Answers,
        window_id: WindowId,
        entry_id: RecoveryEntryId,
        reason: String,
    ) -> Result<Model, Query> {
        match self.failure_noted(window_id, entry_id, ParkingStage::Restore, reason).window_settled(
            a,
            window_id,
            Some(SwitchFailure::Reported(reason)),
        ) {
            Ok(next) => Ok(next.revised()),
            Err(query) => Err(query),
        }
    }

    #[verifier::opaque]
    pub open spec fn on_restore_all(self) -> Model {
        self.restores_asked(sorted(self.parked_windows.dom()), 0).revised()
    }

    /// Each stranded window from `i` on asked to move the way it still owes.
    pub open spec fn owed_asked(self, windows: Seq<WindowId>, i: int, now_unix: i64) -> Model
        decreases windows.len() - i,
    {
        if i >= windows.len() {
            self
        } else {
            let next = match self.stranded_move(windows[i]) {
                Some(StrandedMove::Restore) => self.restore_asked(windows[i]),
                Some(StrandedMove::Park) => self.park_asked(windows[i], now_unix),
                None => self,
            };
            next.owed_asked(windows, i + 1, now_unix)
        }
    }

    #[verifier::opaque]
    pub open spec fn on_switch_restore(self, now_unix: i64) -> Model {
        match self.switch_degraded {
            None => self.revised(),
            Some(degraded) => {
                let owed = degraded.stranded.filter(self.still_owes());
                if owed.len() == 0 {
                    Model { switch_degraded: None, ..self }.revised()
                } else {
                    self.owed_asked(owed, 0, now_unix).revised()
                }
            },
        }
    }

    /// The trees a command reshaped put back, from snapshot `i` on, and
    /// whether any was.
    pub open spec fn structure_restored(
        self,
        a: Answers,
        snapshots: Seq<UndoTreeSnapshot>,
        i: int,
        any: bool,
    ) -> Result<(Model, bool), Query>
        decreases snapshots.len() - i,
    {
        if i >= snapshots.len() {
            Ok((self, any))
        } else {
            match id_of(self.displays, snapshots[i].display_fingerprint@) {
                None => self.structure_restored(a, snapshots, i + 1, any),
                Some(display_id) => match self.restored_tree(
                    a,
                    snapshots[i].tree,
                    self.active_tiled(display_id),
                ) {
                    Err(query) => Err(query),
                    Ok(tree) => (Model {
                        trees: self.trees.insert(display_id.0, tree),
                        ..self
                    }).structure_restored(a, snapshots, i + 1, true),
                },
            }
        }
    }

    pub open spec fn all_put_back(self, restored: Seq<UndoRestoredWindow>, i: int) -> Model
        decreases restored.len() - i,
    {
        if i >= restored.len() {
            self
        } else {
            self.placed(
                restored[i].window_id,
                restored[i].display_id,
                restored[i].placement,
                None,
            ).all_put_back(restored, i + 1)
        }
    }

    /// The windows put back: by switching back where the command was a switch,
    /// and by placing them otherwise.
    #[verifier::opaque]
    pub open spec fn windows_reversed(
        self,
        a: Answers,
        transaction: Stored,
        restored: Seq<UndoRestoredWindow>,
    ) -> Result<Model, Query> {
        match self.switch_back(transaction.prior_assignments, 0) {
            Ok(Some(plan)) => self.switch_begun(a, plan, Some(transaction.id)),
            _ => Ok(self.all_put_back(restored, 0)),
        }
    }

    /// The newest transaction reversed: structure first, then windows, and the
    /// transaction consumed.
    #[verifier::opaque]
    pub open spec fn reversed(
        self,
        a: Answers,
        transaction: Stored,
        restored: Seq<UndoRestoredWindow>,
    ) -> Result<Model, Query> {
        match self.structure_restored(a, transaction.prior_trees, 0, false) {
            Err(query) => Err(query),
            Ok((structured, reshaped)) => match structured.windows_reversed(
                a,
                transaction,
                restored,
            ) {
                Err(query) => Err(query),
                Ok(back) => {
                    let settled = if reshaped {
                        back.arranged(a)
                    } else {
                        Ok(back)
                    };
                    match settled {
                        Err(query) => Err(query),
                        Ok(next) => Ok(
                            Model {
                                newest_undo: None,
                                ..next.intent(Intent::ConsumeUndoTransaction(transaction.id))
                            },
                        ),
                    }
                },
            },
        }
    }

    #[verifier::opaque]
    pub open spec fn on_undo(self, a: Answers) -> Result<Model, Query> {
        if self.paused {
            Ok(self)
        } else {
            match self.reversal(a) {
                Err(query) => Err(query),
                Ok(reversal) => {
                    let done = match (reversal, self.newest_undo) {
                        (Reversal::Applied { restored, .. }, Some(transaction)) => self.reversed(
                            a,
                            transaction,
                            restored,
                        ),
                        _ => Ok(self),
                    };
                    match done {
                        Err(query) => Err(query),
                        Ok(next) => Ok(
                            Model { last_undo_result: Some(reversal), ..next }.revised(),
                        ),
                    }
                },
            }
        }
    }
}

impl EngineState {
    pub fn trees_loaded(&mut self, a: &Answers, trees: Vec<StoredTree>) -> (reply: Result<
        (),
        Question,
    >)
        ensures
            reached(reply, final(self)@, old(self)@.on_trees_loaded(*a, trees@)),
    {
        proof {
            reveal(Model::on_trees_loaded);
        }
        if trees.len() == 0 {
            return Ok(());
        }
        self.pending_trees = trees;
        self.arrange_and_revise(a)
    }

    pub fn history_loaded(&mut self, transaction: Option<UndoTransaction>)
        ensures
            final(self)@ == old(self)@.on_history_loaded(seen(transaction)),
    {
        let same = match (&self.newest_undo, &transaction) {
            (Some(x), Some(y)) => x.same(y),
            (None, None) => true,
            _ => false,
        };
        if !same {
            self.newest_undo = transaction;
            self.revise();
        }
    }

    fn store_one(&mut self, stored: &PersistedWorkspace)
        ensures
            final(self)@ == old(self)@.stored_present(*stored).stored_noted(*stored),
    {
        if self.workspaces.find(&stored.name).is_none() {
            let origin = if spells(&self.resolved_config.workspaces, &stored.name) {
                WorkspaceOrigin::Configuration
            } else {
                WorkspaceOrigin::Command
            };
            self.workspaces.create(stored.name.clone(), origin);
        }
        match self.workspaces.find(&stored.name) {
            Some(i) => {
                let mut workspace = self.workspaces.at(i).clone();
                match stored.tree {
                    Some(tree) => {
                        workspace.pending_tree = Some(tree);
                    },
                    None => {},
                }
                match &stored.displayed_fingerprint {
                    Some(fingerprint) => {
                        workspace.pending_display = Some(fingerprint.clone());
                    },
                    None => {},
                }
                workspace.saved = Some(
                    PersistedWorkspace {
                        name: workspace.name.clone(),
                        origin: stored.origin,
                        displayed_fingerprint: None,
                        tree: None,
                    },
                );
                self.workspaces.set(i, workspace);
            },
            None => {},
        }
    }

    fn store_all(&mut self, stored: &Vec<PersistedWorkspace>)
        ensures
            final(self)@ == old(self)@.all_stored(stored@, 0),
    {
        let ghost total = self@.all_stored(stored@, 0);
        let mut i: usize = 0;
        while i < stored.len()
            invariant
                i <= stored@.len(),
                self@.all_stored(stored@, i as int) == total,
            decreases stored@.len() - i,
        {
            self.store_one(&stored[i]);
            i += 1;
        }
    }

    fn drop_pending_display(&mut self, i: usize)
        requires
            i < old(self)@.workspaces.list.len(),
        ensures
            final(self)@ == old(self)@.pending_display_dropped(i as int),
            final(self)@.workspaces.list.len() == old(self)@.workspaces.list.len(),
    {
        let mut workspace = self.workspaces.at(i).clone();
        workspace.pending_display = None;
        self.workspaces.set(i, workspace);
    }

    fn display_gives_way(&self, display_id: DisplayId) -> (free: bool)
        ensures
            free == self@.gives_way(display_id),
    {
        match self.workspaces.displayed_at(display_id) {
            Some(j) => self.workspaces.members_of(&self.workspaces.at(j).name).len() == 0,
            None => true,
        }
    }

    fn remember_display(&mut self, i: usize)
        requires
            i < old(self)@.workspaces.list.len(),
        ensures
            final(self)@ == old(self)@.display_remembered(i as int),
            final(self)@.workspaces.list.len() == old(self)@.workspaces.list.len(),
    {
        let target = match &self.workspaces.at(i).pending_display {
            Some(fingerprint) => display_id_of(&self.displays, fingerprint),
            None => None,
        };
        match target {
            Some(display_id) => {
                if self.workspaces.at(i).displayed_on.is_some() {
                    self.drop_pending_display(i);
                } else if self.display_gives_way(display_id) {
                    self.stash_display_tree(display_id);
                    self.show_workspace(i, display_id);
                    self.drop_pending_display(i);
                }
            },
            None => {},
        }
    }

    pub fn workspaces_loaded(&mut self, a: &Answers, stored: &Vec<PersistedWorkspace>) -> (reply:
        Result<(), Question>)
        ensures
            reached(reply, final(self)@, old(self)@.on_workspaces_loaded(*a, stored@)),
    {
        proof {
            reveal(Model::on_workspaces_loaded);
        }
        if stored.len() == 0 {
            return Ok(());
        }
        self.store_all(stored);
        let n = self.workspaces.len();
        let ghost total = self@.displays_remembered(0, n as int);
        let mut i: usize = 0;
        while i < n
            invariant
                i <= n,
                n == self@.workspaces.list.len(),
                self@.displays_remembered(i as int, n as int) == total,
            decreases n - i,
        {
            self.remember_display(i);
            i += 1;
        }
        self.reconcile_assignment(a)
    }

    fn answer(&mut self, result: WorkspaceCommandResult)
        ensures
            final(self)@ == old(self)@.answered(result@),
    {
        self.last_workspace_result = Some(result);
        self.revise();
    }

    pub fn workspace_create(&mut self, a: &Answers, request: &RequestedName) -> (reply: Result<
        (),
        Question,
    >)
        ensures
            reached(reply, final(self)@, old(self)@.on_create(*a, *request)),
    {
        proof {
            reveal(Model::on_create);
        }
        match plan_workspace_create(self, request) {
            Ok(applied) => {
                self.workspaces.create(applied.name.clone(), WorkspaceOrigin::Command);
                match self.persist_workspaces(a) {
                    Ok(_) => {},
                    Err(question) => {
                        return Err(question);
                    },
                }
                self.answer(WorkspaceCommandResult::Created(applied));
            },
            Err(refusal) => {
                self.answer(WorkspaceCommandResult::Refused(refusal));
            },
        }
        Ok(())
    }

    pub fn workspace_delete(&mut self, a: &Answers, request: &RequestedName) -> (reply: Result<
        (),
        Question,
    >)
        ensures
            reached(reply, final(self)@, old(self)@.on_delete(*a, *request)),
    {
        proof {
            reveal(Model::on_delete);
        }
        match plan_workspace_delete(self, a, request) {
            Ok(Ok(applied)) => {
                match self.workspaces.find(&applied.name) {
                    Some(i) => {
                        self.workspaces.remove(i);
                    },
                    None => {},
                }
                self.record(PersistenceIntent::DeleteWorkspace(applied.name.clone()));
                self.answer(WorkspaceCommandResult::Deleted(applied));
                Ok(())
            },
            Ok(Err(refusal)) => {
                self.answer(WorkspaceCommandResult::Refused(refusal));
                Ok(())
            },
            Err(question) => Err(question),
        }
    }

    fn show_without_moves(
        &mut self,
        a: &Answers,
        name: WorkspaceName,
        display_id: DisplayId,
        replaced: Option<WorkspaceName>,
    ) -> (reply: Result<(), Question>)
        ensures
            reached(
                reply,
                final(self)@,
                old(self)@.shown_without_moves(*a, name, display_id, replaced),
            ),
    {
        proof {
            reveal(Model::shown_without_moves);
        }
        self.open_undo_scope(CommandLabel::WorkspaceFocus(name.clone()));
        self.capture_assignment_for_undo(display_id);
        match self.display_now(a, &name, display_id, replaced.is_some()) {
            Ok(_) => {},
            Err(question) => {
                return Err(question);
            },
        }
        match self.close_undo_scope(a) {
            Ok(_) => {},
            Err(question) => {
                return Err(question);
            },
        }
        self.answer(
            WorkspaceCommandResult::Focused(
                WorkspaceFocusApplied::Displayed { name, display_id, replaced },
            ),
        );
        Ok(())
    }

    fn start_switch(
        &mut self,
        a: &Answers,
        request: &RequestedName,
        applied: WorkspaceFocusApplied,
    ) -> (reply: Result<(), Question>)
        ensures
            reached(reply, final(self)@, old(self)@.switch_started(*a, *request, applied)),
    {
        proof {
            reveal(Model::switch_started);
        }
        let plan = match plan_workspace_switch(self, request) {
            Ok(plan) => plan,
            Err(refusal) => {
                self.answer(WorkspaceCommandResult::Refused(refusal));
                return Ok(());
            },
        };
        match self.begin_workspace_switch(a, plan, None) {
            Ok(_) => {},
            Err(question) => {
                return Err(question);
            },
        }
        let result = if self.switch.is_some() {
            WorkspaceCommandResult::Focused(applied)
        } else {
            match &self.last_switch_result {
                Some(result) => result.clone(),
                None => WorkspaceCommandResult::Focused(applied),
            }
        };
        self.answer(result);
        Ok(())
    }

    pub fn workspace_focus(&mut self, a: &Answers, request: &RequestedName) -> (reply: Result<
        (),
        Question,
    >)
        ensures
            reached(reply, final(self)@, old(self)@.on_workspace_focus(*a, *request)),
    {
        proof {
            reveal(Model::on_workspace_focus);
        }
        match plan_workspace_focus(self, request) {
            Err(refusal) => {
                self.answer(WorkspaceCommandResult::Refused(refusal));
                Ok(())
            },
            Ok(WorkspaceFocusApplied::Displayed { name, display_id, replaced }) =>
                self.show_without_moves(a, name, display_id, replaced),
            Ok(
                WorkspaceFocusApplied::SwitchStarted {
                    name,
                    display_id,
                    replaced,
                    parking,
                    restoring,
                },
            ) => self.start_switch(
                a,
                request,
                WorkspaceFocusApplied::SwitchStarted {
                    name,
                    display_id,
                    replaced,
                    parking,
                    restoring,
                },
            ),
            Ok(WorkspaceFocusApplied::FocusedExisting { name, display_id, focused_window }) => {
                self.focused_display = Some(display_id);
                match focused_window {
                    Some(window_id) => {
                        self.emit(EngineEffect::FocusWindow { window_id });
                    },
                    None => {},
                }
                self.answer(
                    WorkspaceCommandResult::Focused(
                        WorkspaceFocusApplied::FocusedExisting {
                            name,
                            display_id,
                            focused_window,
                        },
                    ),
                );
                Ok(())
            },
        }
    }

    fn exchange_trees(&mut self, from: DisplayId, to: DisplayId)
        ensures
            final(self)@ == old(self)@.trees_exchanged(from, to),
    {
        let moving = match self.trees.get(from.0) {
            Some(tree) => Some(*tree),
            None => None,
        };
        let displaced = match self.trees.get(to.0) {
            Some(tree) => Some(*tree),
            None => None,
        };
        self.trees.remove(from.0);
        self.trees.remove(to.0);
        self.saved_trees.remove(from.0);
        self.saved_trees.remove(to.0);
        let overflow = crate::assign::off_display_only(&self.constraint_overflow, from);
        self.constraint_overflow = crate::assign::off_display_only(&overflow, to);
        let order = crate::assign::off_display_only(&self.visual_window_order, from);
        self.visual_window_order = crate::assign::off_display_only(&order, to);
        match moving {
            Some(tree) => {
                self.trees.insert(to.0, tree);
            },
            None => {},
        }
        match displaced {
            Some(tree) => {
                self.trees.insert(from.0, tree);
            },
            None => {},
        }
    }

    pub fn workspace_move(&mut self, a: &Answers, request: &RequestedName, display_id: DisplayId)
        -> (reply: Result<(), Question>)
        ensures
            reached(reply, final(self)@, old(self)@.on_workspace_move(*a, *request, display_id)),
    {
        proof {
            reveal(Model::on_workspace_move);
        }
        let applied = match plan_workspace_move(self, request, display_id) {
            Ok(applied) => applied,
            Err(refusal) => {
                self.answer(WorkspaceCommandResult::Refused(refusal));
                return Ok(());
            },
        };
        self.exchange_trees(applied.from_display_id, applied.to_display_id);
        self.workspaces.swap_displays(applied.from_display_id, applied.to_display_id);
        self.focused_display = Some(applied.to_display_id);
        match self.reconcile_arrangements(a) {
            Ok(_) => {},
            Err(question) => {
                return Err(question);
            },
        }
        match self.persist_workspaces(a) {
            Ok(_) => {},
            Err(question) => {
                return Err(question);
            },
        }
        self.answer(WorkspaceCommandResult::Moved(applied));
        Ok(())
    }

    pub fn capability_reported(&mut self, capability: ParkingCapability)
        ensures
            final(self)@ == old(self)@.on_capability(capability),
    {
        if !self.parking_capability.same(&capability) {
            self.parking_capability = capability;
            self.revise();
        }
    }

    pub fn parking_requested(&mut self, window_id: WindowId, now_unix: i64)
        ensures
            final(self)@ == old(self)@.on_parking_requested(window_id, now_unix),
    {
        proof {
            reveal(Model::on_parking_requested);
        }
        match plan_parking_authorization(self, window_id, now_unix) {
            Ok(draft) => {
                self.request_recovery_entry(window_id, draft, None);
                self.last_parking_refusal = None;
            },
            Err(refusal) => {
                self.last_parking_refusal = Some(refusal);
            },
        }
        self.revise();
    }

    fn find_token(&self, token: u64) -> (at: Option<usize>)
        ensures
            match at {
                Some(i) => first_index(self@.pending_parking.len(), self@.token_at(token)) == Some(
                    i as int,
                ) && i < self@.pending_parking.len(),
                None => first_index(self@.pending_parking.len(), self@.token_at(token)) is None,
            },
    {
        let ghost p = self@.token_at(token);
        let mut i: usize = 0;
        while i < self.pending_parking.len()
            invariant
                i <= self.pending_parking@.len(),
                p == self@.token_at(token),
                first_index(i as nat, p) is None,
            decreases self.pending_parking@.len() - i,
        {
            if self.pending_parking[i].token == token {
                proof {
                    assert(p(i as int));
                    lemma_first_hit(self@.pending_parking.len(), p, i as int);
                }
                return Some(i);
            }
            assert(!p(i as int));
            i += 1;
        }
        None
    }

    fn hear_entry(&mut self, pending: PendingParking, parks: bool)
        ensures
            final(self)@ == old(self)@.entry_heard(pending, parks),
    {
        match &mut self.switch {
            Some(switch) => {
                let mine = match pending.transaction {
                    Some(transaction) => transaction == switch.id,
                    None => false,
                };
                if mine {
                    switch.recording = other_tokens(&switch.recording, pending.token);
                    if switch.phase == WorkspaceSwitchPhase::Recording && switch.recording.len()
                        == 0 {
                        switch.phase = WorkspaceSwitchPhase::Parking;
                    }
                    if parks && !holds(&switch.in_flight, pending.window_id) {
                        switch.in_flight.push(pending.window_id);
                    }
                }
            },
            None => {},
        }
    }

    pub fn entry_durable(&mut self, a: &Answers, token: u64, entry_id: RecoveryEntryId) -> (reply:
        Result<(), Question>)
        ensures
            reached(reply, final(self)@, old(self)@.on_entry_durable(*a, token, entry_id)),
    {
        proof {
            reveal(Model::on_entry_durable);
        }
        let pending = match self.find_token(token) {
            Some(i) => self.pending_parking.remove(i),
            None => {
                return Ok(());
            },
        };
        let parks = self.inventory.contains_key(pending.window_id.0);
        self.hear_entry(pending, parks);
        if parks {
            self.emit(EngineEffect::ParkWindow { window_id: pending.window_id, entry_id });
        }
        match self.advance_switch(a) {
            Ok(_) => {
                self.revise();
                Ok(())
            },
            Err(question) => Err(question),
        }
    }

    fn drop_token(&mut self, token: u64)
        ensures
            final(self)@ == (Model {
                pending_parking: old(self)@.pending_parking.filter(Model::other_pending(token)),
                ..old(self)@
            }),
    {
        let ghost pred = Model::other_pending(token);
        let ghost all = self.pending_parking@;
        let mut left: Vec<PendingParking> = Vec::new();
        let mut i: usize = 0;
        while i < self.pending_parking.len()
            invariant
                i <= self.pending_parking@.len(),
                *self == *old(self),
                all == self.pending_parking@,
                pred == Model::other_pending(token),
                left@ == all.take(i as int).filter(pred),
            decreases self.pending_parking@.len() - i,
        {
            proof {
                lemma_filter_step(all, i as int, pred);
            }
            if self.pending_parking[i].token != token {
                left.push(self.pending_parking[i]);
            }
            i += 1;
        }
        assert(all.take(all.len() as int) =~= all);
        self.pending_parking = left;
    }

    /// What a refused entry means to the switch that asked for it.
    fn refuse_entry(
        &mut self,
        switch: WorkspaceSwitchTransaction,
        refused: PendingParking,
        now_unix: i64,
    )
        requires
            old(self)@.switch is None,
        ensures
            final(self)@ == if switch@.phase.compensating() {
                old(self)@.repark_refused(switch@, refused)
            } else {
                old(self)@.switching(
                    Switching {
                        recording: switch@.recording.filter(Model::other_token(refused.token)),
                        ..switch@
                    },
                ).compensation_begun(SwitchFailure::EntryNotDurable, now_unix)
            },
    {
        let mut switch = switch;
        switch.recording = other_tokens(&switch.recording, refused.token);
        if !switch.phase.is_compensating() {
            self.switch = Some(switch);
            self.begin_switch_compensation(SwitchFailure::EntryNotDurable, now_unix);
            return;
        }
        switch.in_flight = without(&switch.in_flight, refused.window_id);
        strand_in(&mut switch, refused.window_id);
        assert(self@ == self@.unswitched());
        if switch.phase_is_settled() {
            self.advance_compensation(switch);
        } else {
            self.switch = Some(switch);
        }
    }

    pub fn entry_refused(&mut self, token: u64, now_unix: i64)
        ensures
            final(self)@ == old(self)@.on_entry_refused(token, now_unix),
    {
        proof {
            reveal(Model::on_entry_refused);
        }
        let refused = match self.find_token(token) {
            Some(i) => self.pending_parking[i],
            None => {
                return;
            },
        };
        self.drop_token(token);
        let cancels = match (&self.switch, refused.transaction) {
            (Some(switch), Some(transaction)) => transaction == switch.id,
            _ => false,
        };
        if cancels {
            match self.switch.take() {
                Some(switch) => {
                    self.refuse_entry(switch, refused, now_unix);
                },
                None => {},
            }
        }
        self.revise();
    }

    pub fn window_parked(&mut self, a: &Answers, window_id: WindowId, entry_id: RecoveryEntryId)
        -> (reply: Result<(), Question>)
        ensures
            reached(reply, final(self)@, old(self)@.on_parked(*a, window_id, entry_id)),
    {
        proof {
            reveal(Model::on_parked);
        }
        self.parked_windows.insert(window_id.0, entry_id);
        self.last_parking_failure = None;
        self.record(PersistenceIntent::MarkParked(entry_id));
        self.settle_stranded_window(window_id);
        match self.switch_window_settled(a, window_id, None) {
            Ok(_) => {
                self.revise();
                Ok(())
            },
            Err(question) => Err(question),
        }
    }

    fn is_moved_by_switch(&self, window_id: WindowId) -> (moved: bool)
        ensures
            moved == self@.moves_in_switch(window_id),
    {
        match &self.switch {
            Some(switch) => holds(&switch.in_flight, window_id),
            None => false,
        }
    }

    pub fn park_failed(
        &mut self,
        a: &Answers,
        window_id: WindowId,
        entry_id: RecoveryEntryId,
        reason: String,
    ) -> (reply: Result<(), Question>)
        ensures
            reached(reply, final(self)@, old(self)@.on_park_failed(*a, window_id, entry_id, reason)),
    {
        proof {
            reveal(Model::on_park_failed);
        }
        let in_switch = self.is_moved_by_switch(window_id);
        self.last_parking_failure = Some(
            ParkingFailure {
                window_id,
                entry_id,
                stage: ParkingStage::Park,
                reason: reason.clone(),
            },
        );
        match self.switch_window_settled(
            a,
            window_id,
            Some(SwitchFailure::Reported(reason.clone())),
        ) {
            Ok(_) => {},
            Err(question) => {
                return Err(question);
            },
        }
        if !in_switch {
            self.strand_window(window_id, SwitchFailure::Reported(reason));
        }
        self.revise();
        Ok(())
    }

    pub fn window_restored(&mut self, a: &Answers, window_id: WindowId) -> (reply: Result<
        (),
        Question,
    >)
        ensures
            reached(reply, final(self)@, old(self)@.on_restored(*a, window_id)),
    {
        proof {
            reveal(Model::on_restored);
        }
        let in_switch = self.is_moved_by_switch(window_id);
        match self.parked_windows.remove(window_id.0) {
            Some(entry_id) => {
                self.last_parking_failure = None;
                self.record(PersistenceIntent::MarkRestored(entry_id));
                self.revise();
            },
            None => {
                assert(self@.parked_windows =~= old(self)@.parked_windows);
                if in_switch {
                    self.revise();
                }
            },
        }
        self.settle_stranded_window(window_id);
        self.switch_window_settled(a, window_id, None)
    }

    pub fn restore_failed(
        &mut self,
        a: &Answers,
        window_id: WindowId,
        entry_id: RecoveryEntryId,
        reason: String,
    ) -> (reply: Result<(), Question>)
        ensures
            reached(
                reply,
                final(self)@,
                old(self)@.on_restore_failed(*a, window_id, entry_id, reason),
            ),
    {
        proof {
            reveal(Model::on_restore_failed);
        }
        self.last_parking_failure = Some(
            ParkingFailure {
                window_id,
                entry_id,
                stage: ParkingStage::Restore,
                reason: reason.clone(),
            },
        );
        match self.switch_window_settled(a, window_id, Some(SwitchFailure::Reported(reason))) {
            Ok(_) => {
                self.revise();
                Ok(())
            },
            Err(question) => Err(question),
        }
    }

    pub fn restore_all(&mut self)
        ensures
            final(self)@ == old(self)@.on_restore_all(),
    {
        proof {
            reveal(Model::on_restore_all);
        }
        let windows = self.parked_windows.keys();
        let ghost total = self@.restores_asked(windows@, 0);
        let mut i: usize = 0;
        while i < windows.len()
            invariant
                i <= windows@.len(),
                self@.restores_asked(windows@, i as int) == total,
            decreases windows@.len() - i,
        {
            self.ask_restore(WindowId(windows[i]));
            i += 1;
        }
        self.revise();
    }

    fn ask_owed(&mut self, windows: &Vec<WindowId>, now_unix: i64)
        ensures
            final(self)@ == old(self)@.owed_asked(windows@, 0, now_unix),
    {
        let ghost total = self@.owed_asked(windows@, 0, now_unix);
        let mut i: usize = 0;
        while i < windows.len()
            invariant
                i <= windows@.len(),
                self@.owed_asked(windows@, i as int, now_unix) == total,
            decreases windows@.len() - i,
        {
            match self.stranded_move_for(windows[i]) {
                Some(StrandedMove::Restore) => {
                    self.ask_restore(windows[i]);
                },
                Some(StrandedMove::Park) => {
                    self.ask_park(windows[i], now_unix);
                },
                None => {},
            }
            i += 1;
        }
    }

    pub fn switch_restore(&mut self, now_unix: i64)
        ensures
            final(self)@ == old(self)@.on_switch_restore(now_unix),
    {
        proof {
            reveal(Model::on_switch_restore);
        }
        match plan_workspace_switch_restore(self) {
            WorkspaceSwitchRestoreResult::NotDegraded => {},
            WorkspaceSwitchRestoreResult::Reconciled { .. } => {
                self.switch_degraded = None;
            },
            WorkspaceSwitchRestoreResult::Requested { windows } => {
                self.ask_owed(&windows, now_unix);
            },
        }
        self.revise();
    }

    fn restore_structure(&mut self, a: &Answers, snapshots: &Vec<UndoTreeSnapshot>) -> (reply:
        Result<bool, Question>)
        ensures
            match (reply, old(self)@.structure_restored(*a, snapshots@, 0, false)) {
                (Ok(any), Ok((model, expected))) => any == expected && final(self)@ == model,
                (Err(question), Err(query)) => question@ == query,
                _ => false,
            },
    {
        let ghost total = self@.structure_restored(*a, snapshots@, 0, false);
        let mut any = false;
        let mut i: usize = 0;
        while i < snapshots.len()
            invariant
                i <= snapshots@.len(),
                total == old(self)@.structure_restored(*a, snapshots@, 0, false),
                self@.structure_restored(*a, snapshots@, i as int, any) == total,
            decreases snapshots@.len() - i,
        {
            match display_id_of(&self.displays, &snapshots[i].display_fingerprint) {
                Some(display_id) => {
                    let active = self.active_tiled_windows_on(display_id);
                    match self.restore_tree(a, snapshots[i].tree, &active) {
                        Ok(tree) => {
                            self.trees.insert(display_id.0, tree);
                            any = true;
                        },
                        Err(question) => {
                            return Err(question);
                        },
                    }
                },
                None => {},
            }
            i += 1;
        }
        Ok(any)
    }

    fn put_all_back(&mut self, restored: &Vec<UndoRestoredWindow>)
        ensures
            final(self)@ == old(self)@.all_put_back(restored@, 0),
    {
        let ghost total = self@.all_put_back(restored@, 0);
        let mut i: usize = 0;
        while i < restored.len()
            invariant
                i <= restored@.len(),
                self@.all_put_back(restored@, i as int) == total,
            decreases restored@.len() - i,
        {
            self.place_window(
                restored[i].window_id,
                restored[i].display_id,
                restored[i].placement,
                None,
            );
            i += 1;
        }
    }

    fn reverse_windows(
        &mut self,
        a: &Answers,
        transaction: &UndoTransaction,
        restored: &Vec<UndoRestoredWindow>,
    ) -> (reply: Result<(), Question>)
        ensures
            reached(
                reply,
                final(self)@,
                old(self)@.windows_reversed(*a, transaction@, restored@),
            ),
    {
        proof {
            reveal(Model::windows_reversed);
        }
        match self.plan_undo_switch_back(&transaction.prior_assignments) {
            Ok(Some(plan)) => self.begin_workspace_switch(a, plan, Some(transaction.id)),
            _ => {
                self.put_all_back(restored);
                Ok(())
            },
        }
    }

    fn reverse(
        &mut self,
        a: &Answers,
        transaction: &UndoTransaction,
        restored: &Vec<UndoRestoredWindow>,
    ) -> (reply: Result<(), Question>)
        ensures
            reached(reply, final(self)@, old(self)@.reversed(*a, transaction@, restored@)),
    {
        proof {
            reveal(Model::reversed);
        }
        let reshaped = match self.restore_structure(a, &transaction.prior_trees) {
            Ok(reshaped) => reshaped,
            Err(question) => {
                return Err(question);
            },
        };
        match self.reverse_windows(a, transaction, restored) {
            Ok(_) => {},
            Err(question) => {
                return Err(question);
            },
        }
        if reshaped {
            match self.reconcile_arrangements(a) {
                Ok(_) => {},
                Err(question) => {
                    return Err(question);
                },
            }
        }
        self.record(PersistenceIntent::ConsumeUndoTransaction(transaction.id));
        self.newest_undo = None;
        Ok(())
    }

    pub fn undo(&mut self, a: &Answers) -> (reply: Result<(), Question>)
        ensures
            reached(reply, final(self)@, old(self)@.on_undo(*a)),
    {
        proof {
            reveal(Model::on_undo);
        }
        if self.paused {
            return Ok(());
        }
        let result = match plan_undo(self, a) {
            Ok(result) => result,
            Err(question) => {
                return Err(question);
            },
        };
        match &result {
            UndoResult::Applied(applied) => {
                let newest = match &self.newest_undo {
                    Some(transaction) => Some(transaction.clone()),
                    None => None,
                };
                match newest {
                    Some(transaction) => match self.reverse(a, &transaction, &applied.restored) {
                        Ok(_) => {},
                        Err(question) => {
                            return Err(question);
                        },
                    },
                    None => {},
                }
            },
            UndoResult::Refused(_) => {},
        }
        self.last_undo_result = Some(result);
        self.revise();
        Ok(())
    }
}

/// `tokens` without `token`.
fn other_tokens(tokens: &Vec<u64>, token: u64) -> (left: Vec<u64>)
    ensures
        left@ == tokens@.filter(Model::other_token(token)),
{
    let ghost pred = Model::other_token(token);
    let mut left: Vec<u64> = Vec::new();
    let mut i: usize = 0;
    while i < tokens.len()
        invariant
            i <= tokens@.len(),
            pred == Model::other_token(token),
            left@ == tokens@.take(i as int).filter(pred),
        decreases tokens@.len() - i,
    {
        proof {
            lemma_filter_step(tokens@, i as int, pred);
        }
        if tokens[i] != token {
            left.push(tokens[i]);
        }
        i += 1;
    }
    assert(tokens@.take(tokens@.len() as int) =~= tokens@);
    left
}

} // verus!
