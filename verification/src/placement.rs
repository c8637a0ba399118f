//! Placing windows, and gathering what an explicit command moved.

use vstd::prelude::*;

verus! {

use crate::answers::{told, Answers, ContainerTree, PersistedTree, Query, Question};
use crate::commands::CommandLabel;
use crate::geometry::{CycleStep, DisplayId, HorizontalDirection, Rect, WindowId};
use crate::name::{same_name_option, same_names};
use crate::state::{EngineEffect, EngineState, Intent, Model, PersistenceIntent};
use crate::table::{sorted, IdSet};
use crate::text::same_text;
use crate::topology::{display_fingerprint_of, fingerprint_of};
use crate::undo::{
    CapturedAssignment, CapturedTree, Draft, Scope, UndoAssignment, UndoMember, UndoScope,
    UndoTransactionDraft, UndoTreeSnapshot,
};
use crate::window::{
    captured, eligibility, eligibility_for, EligibilityReason, ManagedWindow, Window,
    WindowEvidence, WindowPlacement,
};
use crate::workspace::lemma_filter_step;

impl Model {
    pub open spec fn older_sibling(self, id: isize) -> spec_fn(isize) -> bool {
        |k: isize|
            self.inventory.contains_key(k) && k < id
                && self.inventory[k].window.application_id.0@
                == self.inventory[id].window.application_id.0@
    }

    /// A window's ordinal among its own application's managed windows, by
    /// handle.
    pub open spec fn launch_order(self, id: isize) -> u32 {
        if self.inventory.contains_key(id) {
            sorted(self.inventory.dom()).filter(self.older_sibling(id)).len() as u32
        } else {
            0
        }
    }

    /// What would recognise a managed window in a later session, if its
    /// display is connected.
    pub open spec fn evidence(self, id: isize) -> Option<WindowEvidence> {
        if self.inventory.contains_key(id) {
            match fingerprint_of(self.displays, self.inventory[id].window.display_id) {
                Some(fingerprint) => Some(
                    captured(self.inventory[id].window, self.launch_order(id), fingerprint),
                ),
                None => None,
            }
        } else {
            None
        }
    }

    /// Whether the circuit breaker of a tracked window is open.
    pub open spec fn breaker_open(self, id: isize) -> bool {
        self.windows.contains_key(id) && self.windows[id].breaker_open()
    }

    pub open spec fn scope_opened(self, command: CommandLabel) -> Model {
        Model {
            undo_scope: Some(
                Scope {
                    command,
                    members: Seq::empty(),
                    claimed: Set::empty(),
                    prior_trees: Seq::empty(),
                    prior_assignments: Seq::empty(),
                },
            ),
            ..self
        }
    }

    /// The open scope with `window_id` in it, at where it was `previous`ly.
    pub open spec fn member_recorded(
        self,
        window_id: WindowId,
        previous: Option<(DisplayId, Rect)>,
    ) -> Model {
        match (self.undo_scope, previous) {
            (Some(scope), Some((display_id, bounds))) => {
                match (fingerprint_of(self.displays, display_id), self.evidence(window_id.0)) {
                    (Some(fingerprint), Some(evidence)) => if scope.claimed.contains(window_id.0) {
                        self
                    } else {
                        let member = UndoMember {
                            ordinal: scope.members.len() as u32,
                            prior_placement: bounds,
                            prior_display_fingerprint: fingerprint,
                            evidence,
                        };
                        Model {
                            undo_scope: Some(
                                Scope {
                                    claimed: scope.claimed.insert(window_id.0),
                                    members: scope.members.push(member),
                                    ..scope
                                },
                            ),
                            ..self
                        }
                    },
                    _ => self,
                }
            },
            _ => self,
        }
    }

    /// The inventory follows a window to where it was put.
    pub open spec fn inventory_moved(
        self,
        window_id: WindowId,
        display_id: DisplayId,
        bounds: Rect,
    ) -> Model {
        if self.inventory.contains_key(window_id.0) {
            let managed = self.inventory[window_id.0];
            Model {
                inventory: self.inventory.insert(
                    window_id.0,
                    ManagedWindow { window: Window { display_id, bounds, ..managed.window }, ..managed },
                ),
                ..self
            }
        } else {
            self
        }
    }

    /// Where a tracked window sits now, as the one step a restore can undo.
    pub open spec fn current_placement(self, id: isize) -> Option<(DisplayId, Rect)> {
        if self.windows.contains_key(id) {
            Some((self.windows[id].display_id, self.windows[id].bounds))
        } else {
            None
        }
    }

    /// The placement record a placement leaves.
    pub open spec fn next_placement(
        self,
        id: isize,
        display_id: DisplayId,
        bounds: Rect,
        cycle_step: Option<(HorizontalDirection, CycleStep)>,
    ) -> WindowPlacement {
        WindowPlacement {
            display_id,
            bounds,
            observed_bounds: bounds,
            previous_placement: self.current_placement(id),
            cycle_step: match cycle_step {
                Some(step) => Some(step),
                None => if self.windows.contains_key(id) {
                    self.windows[id].cycle_step
                } else {
                    None
                },
            },
            rejection_count: if self.windows.contains_key(id) {
                self.windows[id].rejection_count
            } else {
                0
            },
        }
    }

    /// `window_id` placed at `bounds` on `display_id`, unless its circuit
    /// breaker is open.
    pub open spec fn placed(
        self,
        window_id: WindowId,
        display_id: DisplayId,
        bounds: Rect,
        cycle_step: Option<(HorizontalDirection, CycleStep)>,
    ) -> Model {
        if self.breaker_open(window_id.0) {
            self
        } else {
            let moved = Model {
                windows: self.windows.insert(
                    window_id.0,
                    self.next_placement(window_id.0, display_id, bounds, cycle_step),
                ),
                ..self
            };
            moved.inventory_moved(window_id, display_id, bounds).member_recorded(
                window_id,
                self.current_placement(window_id.0),
            ).effect(EngineEffect::PlaceWindow { window_id, display_id, bounds }).revised()
        }
    }

    pub open spec fn eligibility_set(self, id: isize, reason: EligibilityReason) -> Model {
        if self.inventory.contains_key(id) {
            Model {
                inventory: self.inventory.insert(
                    id,
                    ManagedWindow { eligibility: reason, ..self.inventory[id] },
                ),
                ..self
            }
        } else {
            self
        }
    }

    pub open spec fn session_float(self, window_id: WindowId, floating: bool) -> Model {
        let id = window_id.0;
        let flagged = Model {
            session_floating: if floating {
                self.session_floating.insert(id)
            } else {
                self.session_floating.remove(id)
            },
            ..self
        };
        flagged.eligibility_set(
            id,
            if floating {
                EligibilityReason::SessionFloating
            } else {
                eligibility(
                    self.inventory[id].window,
                    self.inventory[id].action,
                    self.breaker_open(id),
                )
            },
        )
    }
}

impl EngineState {
    /// A window's ordinal among its own application's managed windows.
    pub fn launch_order_of(&self, window_id: WindowId) -> (order: u32)
        ensures
            order == self@.launch_order(window_id.0),
    {
        let id = window_id.0;
        match self.inventory.get(id) {
            Some(managed) => {
                let keys = self.inventory.keys();
                let ghost all = keys@;
                let ghost pred = self@.older_sibling(id);
                let mut count: usize = 0;
                let mut i: usize = 0;
                while i < keys.len()
                    invariant
                        i <= keys@.len(),
                        count <= i,
                        keys@ == all,
                        keys@.to_set() == self.inventory@.dom(),
                        self.inventory@.contains_key(id),
                        *managed == self.inventory@[id],
                        pred == self@.older_sibling(id),
                        count == all.take(i as int).filter(pred).len(),
                    decreases keys@.len() - i,
                {
                    let key = keys[i];
                    assert(keys@.to_set().contains(key));
                    proof {
                        lemma_filter_step(all, i as int, pred);
                    }
                    match self.inventory.get(key) {
                        Some(other) => {
                            if key < id && same_text(
                                &other.window.application_id.0,
                                &managed.window.application_id.0,
                            ) {
                                count += 1;
                            }
                        },
                        None => {},
                    }
                    i += 1;
                }
                assert(all.take(all.len() as int) =~= all);
                count as u32
            },
            None => 0,
        }
    }

    /// What would recognise `window_id` in a later session.
    pub fn evidence_for(&self, window_id: WindowId) -> (evidence: Option<WindowEvidence>)
        ensures
            evidence == self@.evidence(window_id.0),
    {
        match self.inventory.get(window_id.0) {
            Some(managed) => match display_fingerprint_of(
                &self.displays,
                managed.window.display_id,
            ) {
                Some(fingerprint) => {
                    let order = self.launch_order_of(window_id);
                    Some(WindowEvidence::capture(&managed.window, order, &fingerprint))
                },
                None => None,
            },
            None => None,
        }
    }

    pub fn circuit_is_open(&self, window_id: WindowId) -> (open: bool)
        ensures
            open == self@.breaker_open(window_id.0),
    {
        match self.windows.get(window_id.0) {
            Some(placement) => placement.circuit_open(),
            None => false,
        }
    }

    /// Opens an undo scope for `command`. Everything placed before the scope
    /// closes becomes one reversible transaction.
    pub fn open_undo_scope(&mut self, command: CommandLabel)
        ensures
            final(self)@ == old(self)@.scope_opened(command),
    {
        let scope = UndoScope {
            command,
            members: Vec::new(),
            claimed: IdSet::new(),
            prior_trees: Vec::new(),
            prior_assignments: Vec::new(),
        };
        assert(scope@ =~= Scope {
            command,
            members: Seq::empty(),
            claimed: Set::empty(),
            prior_trees: Seq::empty(),
            prior_assignments: Seq::empty(),
        });
        self.undo_scope = Some(scope);
    }

    /// Adds `window_id` to the open scope, if there is one and it is not
    /// already captured.
    pub fn record_undo_member(&mut self, window_id: WindowId, previous: Option<(DisplayId, Rect)>)
        ensures
            final(self)@ == old(self)@.member_recorded(window_id, previous),
    {
        let (claimed, count) = match &self.undo_scope {
            Some(scope) => (scope.claimed.contains(window_id.0), scope.members.len()),
            None => {
                return;
            },
        };
        if claimed {
            return;
        }
        let (display_id, bounds) = match previous {
            Some(placement) => placement,
            None => {
                return;
            },
        };
        let fingerprint = match display_fingerprint_of(&self.displays, display_id) {
            Some(fingerprint) => fingerprint,
            None => {
                return;
            },
        };
        let evidence = match self.evidence_for(window_id) {
            Some(evidence) => evidence,
            None => {
                return;
            },
        };
        let member = UndoMember {
            ordinal: count as u32,
            prior_placement: bounds,
            prior_display_fingerprint: fingerprint,
            evidence,
        };
        match &mut self.undo_scope {
            Some(scope) => {
                scope.claimed.insert(window_id.0);
                scope.members.push(member);
            },
            None => {},
        }
    }

    /// Moves the inventory's record of `window_id`.
    pub fn move_inventory(&mut self, window_id: WindowId, display_id: DisplayId, bounds: Rect)
        ensures
            final(self)@ == old(self)@.inventory_moved(window_id, display_id, bounds),
    {
        match self.inventory.remove(window_id.0) {
            Some(mut managed) => {
                managed.window.display_id = display_id;
                managed.window.bounds = bounds;
                self.inventory.insert(window_id.0, managed);
            },
            None => {},
        }
        assert(self@.inventory =~= old(self)@.inventory_moved(
            window_id,
            display_id,
            bounds,
        ).inventory);
    }

    /// Records `bounds` as the window's current placement, stashing wherever
    /// it was before as the one step a restore can undo. Returns `false`
    /// where the window's open circuit breaker suppressed the placement.
    ///
    /// `cycle_step` is the placement's new cycle step; `None` carries forward
    /// whatever the window already had.
    pub fn place_window(
        &mut self,
        window_id: WindowId,
        display_id: DisplayId,
        bounds: Rect,
        cycle_step: Option<(HorizontalDirection, CycleStep)>,
    ) -> (done: bool)
        ensures
            final(self)@ == old(self)@.placed(window_id, display_id, bounds, cycle_step),
            done == !old(self)@.breaker_open(window_id.0),
    {
        let existing = match self.windows.get(window_id.0) {
            Some(placement) => Some(*placement),
            None => None,
        };
        let (previous_placement, carried, rejection_count) = match existing {
            Some(placement) => {
                if placement.circuit_open() {
                    return false;
                }
                (
                    Some((placement.display_id, placement.bounds)),
                    placement.cycle_step,
                    placement.rejection_count,
                )
            },
            None => (None, None, 0u8),
        };
        let next = WindowPlacement {
            display_id,
            bounds,
            observed_bounds: bounds,
            previous_placement,
            cycle_step: match cycle_step {
                Some(step) => Some(step),
                None => carried,
            },
            rejection_count,
        };
        assert(next == self@.next_placement(window_id.0, display_id, bounds, cycle_step));
        self.windows.insert(window_id.0, next);
        self.move_inventory(window_id, display_id, bounds);
        self.record_undo_member(window_id, previous_placement);
        self.emit(EngineEffect::PlaceWindow { window_id, display_id, bounds });
        self.revise();
        true
    }

    pub fn set_eligibility(&mut self, window_id: WindowId, reason: EligibilityReason)
        ensures
            final(self)@ == old(self)@.eligibility_set(window_id.0, reason),
    {
        match self.inventory.remove(window_id.0) {
            Some(mut managed) => {
                managed.eligibility = reason;
                self.inventory.insert(window_id.0, managed);
            },
            None => {},
        }
        assert(self@.inventory =~= old(self)@.eligibility_set(window_id.0, reason).inventory);
    }

    pub fn set_session_floating(&mut self, window_id: WindowId, floating: bool)
        ensures
            final(self)@ == old(self)@.session_float(window_id, floating),
    {
        let reason = if floating {
            EligibilityReason::SessionFloating
        } else {
            let open = self.circuit_is_open(window_id);
            match self.inventory.get(window_id.0) {
                Some(managed) => eligibility_for(&managed.window, managed.action, open),
                None => EligibilityReason::Eligible,
            }
        };
        if floating {
            self.session_floating.insert(window_id.0);
        } else {
            self.session_floating.remove(window_id.0);
        }
        self.set_eligibility(window_id, reason);
    }
}

impl Model {
    pub open spec fn tree_on(self, display_id: DisplayId) -> ContainerTree {
        if self.trees.contains_key(display_id.0) {
            self.trees[display_id.0]
        } else {
            ContainerTree::empty()
        }
    }

    pub open spec fn tree_captured(self, display_id: DisplayId) -> Model {
        match self.undo_scope {
            Some(scope) => if exists|i: int|
                0 <= i < scope.prior_trees.len() && (#[trigger] scope.prior_trees[i]).display_id
                    == display_id {
                self
            } else {
                Model {
                    undo_scope: Some(
                        Scope {
                            prior_trees: scope.prior_trees.push(
                                CapturedTree { display_id, tree: self.tree_on(display_id) },
                            ),
                            ..scope
                        },
                    ),
                    ..self
                }
            },
            None => self,
        }
    }

    pub open spec fn assignment_captured(self, display_id: DisplayId) -> Model {
        match self.undo_scope {
            Some(scope) => if exists|i: int|
                0 <= i < scope.prior_assignments.len() && (
                #[trigger] scope.prior_assignments[i]).display_id == display_id {
                self
            } else {
                Model {
                    undo_scope: Some(
                        Scope {
                            prior_assignments: scope.prior_assignments.push(
                                CapturedAssignment {
                                    display_id,
                                    workspace: self.workspaces.displayed_on(display_id),
                                },
                            ),
                            ..scope
                        },
                    ),
                    ..self
                }
            },
            None => self,
        }
    }

    /// The evidence of each window, in order.
    pub open spec fn evidence_list(self, windows: Seq<WindowId>) -> Seq<Option<WindowEvidence>> {
        Seq::new(windows.len(), |i: int| self.evidence(windows[i].0))
    }

    /// The durable form of a live tree: each window replaced by evidence that
    /// can find it again.
    pub open spec fn durable(self, a: Answers, tree: ContainerTree) -> Result<PersistedTree, Query> {
        match a.windows_spec(tree) {
            Ok(windows) => a.durable_spec(tree, self.evidence_list(windows)),
            Err(query) => Err(query),
        }
    }

    /// The snapshots of every captured tree from `i` on that has changed
    /// since, after those already `done`.
    pub open spec fn snapshots(
        self,
        a: Answers,
        captured: Seq<CapturedTree>,
        i: int,
        done: Seq<UndoTreeSnapshot>,
    ) -> Result<Seq<UndoTreeSnapshot>, Query>
        decreases captured.len() - i,
    {
        if i >= captured.len() {
            Ok(done)
        } else {
            let prior = captured[i];
            if self.tree_on(prior.display_id) == prior.tree {
                self.snapshots(a, captured, i + 1, done)
            } else {
                match fingerprint_of(self.displays, prior.display_id) {
                    Some(display_fingerprint) => match self.durable(a, prior.tree) {
                        Ok(tree) => self.snapshots(
                            a,
                            captured,
                            i + 1,
                            done.push(UndoTreeSnapshot { display_fingerprint, tree }),
                        ),
                        Err(query) => Err(query),
                    },
                    None => self.snapshots(a, captured, i + 1, done),
                }
            }
        }
    }

    /// The captured assignments from `i` on that no longer stand.
    pub open spec fn overturned(
        self,
        captured: Seq<CapturedAssignment>,
        i: int,
        done: Seq<UndoAssignment>,
    ) -> Seq<UndoAssignment>
        decreases captured.len() - i,
    {
        if i >= captured.len() {
            done
        } else {
            let prior = captured[i];
            let stands = same_name_option(
                self.workspaces.displayed_on(prior.display_id),
                prior.workspace,
            );
            match fingerprint_of(self.displays, prior.display_id) {
                Some(display_fingerprint) => if stands {
                    self.overturned(captured, i + 1, done)
                } else {
                    self.overturned(
                        captured,
                        i + 1,
                        done.push(
                            UndoAssignment { display_fingerprint, workspace: prior.workspace },
                        ),
                    )
                },
                None => self.overturned(captured, i + 1, done),
            }
        }
    }

    /// The open scope closed, recorded as a transaction if it changed
    /// anything.
    #[verifier::opaque]
    pub open spec fn scope_closed(self, a: Answers) -> Result<Model, Query> {
        match self.undo_scope {
            None => Ok(self),
            Some(scope) => match self.snapshots(a, scope.prior_trees, 0, Seq::empty()) {
                Err(query) => Err(query),
                Ok(prior_trees) => {
                    let prior_assignments = self.overturned(
                        scope.prior_assignments,
                        0,
                        Seq::empty(),
                    );
                    let closed = Model { undo_scope: None, ..self };
                    if scope.members.len() == 0 && prior_trees.len() == 0
                        && prior_assignments.len() == 0 {
                        Ok(closed)
                    } else {
                        Ok(
                            closed.intent(
                                Intent::RecordUndoTransaction(
                                    Draft {
                                        command: scope.command.spelled(),
                                        recorded_at_unix: a.now_unix,
                                        topology_fingerprint: self.topology,
                                        durable_revision: self.revision,
                                        members: scope.members,
                                        prior_trees,
                                        prior_assignments,
                                    },
                                ),
                            ),
                        )
                    }
                },
            },
        }
    }
}

/// What a step left of the state, against what it should be. Where the step
/// stopped at a question, nothing is said of the state: it is discarded.
pub open spec fn reached(
    reply: Result<(), Question>,
    after: Model,
    expected: Result<Model, Query>,
) -> bool {
    match (reply, expected) {
        (Ok(_), Ok(model)) => after == model,
        (Err(question), Err(query)) => question@ == query,
        _ => false,
    }
}

impl EngineState {
    /// The live tree of a display, empty where it has none.
    pub fn tree_of(&self, display_id: DisplayId) -> (tree: ContainerTree)
        ensures
            tree == self@.tree_on(display_id),
    {
        match self.trees.get(display_id.0) {
            Some(tree) => *tree,
            None => ContainerTree::new(),
        }
    }

    /// Records the display's container tree in the open scope, as it stands
    /// now. A second call for the same display is ignored.
    pub fn capture_tree_for_undo(&mut self, display_id: DisplayId)
        ensures
            final(self)@ == old(self)@.tree_captured(display_id),
    {
        let tree = self.tree_of(display_id);
        match &mut self.undo_scope {
            Some(scope) => {
                let mut i: usize = 0;
                let mut known = false;
                while i < scope.prior_trees.len()
                    invariant
                        i <= scope.prior_trees@.len(),
                        known == exists|j: int|
                            0 <= j < i && (#[trigger] scope.prior_trees@[j]).display_id
                                == display_id,
                    decreases scope.prior_trees@.len() - i,
                {
                    if scope.prior_trees[i].display_id == display_id {
                        known = true;
                    }
                    i += 1;
                }
                if !known {
                    scope.prior_trees.push(CapturedTree { display_id, tree });
                }
            },
            None => {},
        }
    }

    /// Records the display's displayed workspace in the open scope, as it
    /// stands now.
    pub fn capture_assignment_for_undo(&mut self, display_id: DisplayId)
        ensures
            final(self)@ == old(self)@.assignment_captured(display_id),
    {
        let workspace = self.workspaces.displayed_on(display_id);
        match &mut self.undo_scope {
            Some(scope) => {
                let mut i: usize = 0;
                let mut known = false;
                while i < scope.prior_assignments.len()
                    invariant
                        i <= scope.prior_assignments@.len(),
                        known == exists|j: int|
                            0 <= j < i && (#[trigger] scope.prior_assignments@[j]).display_id
                                == display_id,
                    decreases scope.prior_assignments@.len() - i,
                {
                    if scope.prior_assignments[i].display_id == display_id {
                        known = true;
                    }
                    i += 1;
                }
                if !known {
                    scope.prior_assignments.push(CapturedAssignment { display_id, workspace });
                }
            },
            None => {},
        }
    }

    /// The durable form of a live tree.
    pub fn durable_tree(&self, a: &Answers, tree: ContainerTree) -> (reply: Result<
        PersistedTree,
        Question,
    >)
        ensures
            told(reply, self@.durable(*a, tree)),
    {
        match a.windows(tree) {
            Ok(windows) => {
                let mut evidence: Vec<Option<WindowEvidence>> = Vec::new();
                let mut i: usize = 0;
                while i < windows.len()
                    invariant
                        i <= windows@.len(),
                        evidence@ == self@.evidence_list(windows@).take(i as int),
                    decreases windows@.len() - i,
                {
                    evidence.push(self.evidence_for(windows[i]));
                    i += 1;
                }
                assert(evidence@ =~= self@.evidence_list(windows@));
                a.durable(tree, evidence)
            },
            Err(question) => Err(question),
        }
    }

    /// Closes the open scope, recording a transaction if it changed anything.
    ///
    /// A command that moved nothing and reshaped nothing records nothing, so
    /// undo never offers to reverse something the user never saw happen.
    #[verifier::loop_isolation(false)]
    pub fn close_undo_scope(&mut self, a: &Answers) -> (reply: Result<(), Question>)
        ensures
            reached(reply, final(self)@, old(self)@.scope_closed(*a)),
    {
        proof {
            reveal(Model::scope_closed);
        }
        let scope = match self.undo_scope.take() {
            Some(scope) => scope,
            None => {
                return Ok(());
            },
        };
        let ghost before = old(self)@;
        let ghost closed = Model { undo_scope: None, ..before };
        let mut prior_trees: Vec<UndoTreeSnapshot> = Vec::new();
        let mut i: usize = 0;
        while i < scope.prior_trees.len()
            invariant
                i <= scope.prior_trees@.len(),
                self@ == closed,
                closed == (Model { undo_scope: None, ..before }),
                before.undo_scope == Some(scope@),
                before.snapshots(*a, scope.prior_trees@, i as int, prior_trees@)
                    == before.snapshots(*a, scope.prior_trees@, 0, Seq::empty()),
                before == old(self)@,
            decreases scope.prior_trees@.len() - i,
        {
            let prior = scope.prior_trees[i];
            if self.tree_of(prior.display_id) != prior.tree {
                match display_fingerprint_of(&self.displays, prior.display_id) {
                    Some(display_fingerprint) => {
                        proof {
                            lemma_same_evidence_list(closed, before);
                        }
                        match self.durable_tree(a, prior.tree) {
                            Ok(tree) => {
                                prior_trees.push(UndoTreeSnapshot { display_fingerprint, tree });
                            },
                            Err(question) => {
                                return Err(question);
                            },
                        }
                    },
                    None => {},
                }
            }
            i += 1;
        }
        let mut prior_assignments: Vec<UndoAssignment> = Vec::new();
        let mut i: usize = 0;
        while i < scope.prior_assignments.len()
            invariant
                i <= scope.prior_assignments@.len(),
                self@ == closed,
                closed == (Model { undo_scope: None, ..before }),
                before.overturned(scope.prior_assignments@, i as int, prior_assignments@)
                    == before.overturned(scope.prior_assignments@, 0, Seq::empty()),
            decreases scope.prior_assignments@.len() - i,
        {
            let prior = &scope.prior_assignments[i];
            let displayed = self.workspaces.displayed_on(prior.display_id);
            if !same_names(&displayed, &prior.workspace) {
                match display_fingerprint_of(&self.displays, prior.display_id) {
                    Some(display_fingerprint) => {
                        prior_assignments.push(
                            UndoAssignment {
                                display_fingerprint,
                                workspace: crate::name::copy_name(&prior.workspace),
                            },
                        );
                    },
                    None => {},
                }
            }
            i += 1;
        }
        if scope.members.len() == 0 && prior_trees.len() == 0 && prior_assignments.len() == 0 {
            return Ok(());
        }
        let draft = UndoTransactionDraft {
            command: scope.command.text(),
            recorded_at_unix: a.now_unix,
            topology_fingerprint: self.topology.clone(),
            durable_revision: self.revision,
            members: scope.members,
            prior_trees,
            prior_assignments,
        };
        self.record(PersistenceIntent::RecordUndoTransaction(draft));
        Ok(())
    }
}

/// Evidence does not depend on the undo scope.
proof fn lemma_same_evidence_list(a: Model, b: Model)
    requires
        a == (Model { undo_scope: None, ..b }),
    ensures
        forall|windows: Seq<WindowId>| #[trigger]
            a.evidence_list(windows) == b.evidence_list(windows),
{
    assert forall|windows: Seq<WindowId>| #[trigger]
        a.evidence_list(windows) == b.evidence_list(windows) by {
        assert forall|i: int| 0 <= i < windows.len() implies a.evidence(windows[i].0) == b.evidence(
            windows[i].0,
        ) by {
            assert(a.older_sibling(windows[i].0) =~= b.older_sibling(windows[i].0));
        }
        assert(a.evidence_list(windows) =~= b.evidence_list(windows));
    }
}

} // verus!
