//! The state the engine starts from, and copies of it.

use vstd::prelude::*;
use vstd::string::*;

verus! {

use crate::answers::{copy_displays, Answers, Question, RuleBook};
use crate::config::{select_resolved_config, Config, ConfigSet, ResolvedConfig, ResolvedConfigSet};
use crate::event::Event;
use crate::laws::every_step::{law_steps_stay_sound, sound};
use crate::outcome::{all_seen, seen, ParkingCapability, PersistenceHealth};
use crate::placement::reached;
use crate::reducer::{apply, step};
use crate::state::{EngineState, Model};
use crate::table::{IdSet, Table};
use crate::window::Display;
use crate::workspace::{Pool, WorkspacePool};
use crate::laws::workspaces::law_the_engine_starts_sound;

impl Model {
    /// Nothing observed, nothing configured.
    pub open spec fn blank(session_id: String, topology: String) -> Model {
        Model {
            revision: 0,
            persistence_health: PersistenceHealth::Healthy { last_durable_revision: 0 },
            intents: Seq::empty(),
            newest_undo: None,
            last_undo_result: None,
            undo_scope: None,
            trees: Map::empty(),
            pending_trees: Seq::empty(),
            saved_trees: Map::empty(),
            leaf_evidence: Map::empty(),
            constraint_overflow: Seq::empty(),
            workspaces: Pool { list: Seq::empty(), members: Map::empty() },
            last_workspace_result: None,
            rule_workspace_refusals: Seq::empty(),
            switching_unavailable: None,
            parking_capability: ParkingCapability::Unverified,
            session_id,
            pending_parking: Seq::empty(),
            next_parking_token: 0,
            parked_windows: Map::empty(),
            switch: None,
            next_switch_id: 0,
            switch_degraded: None,
            last_switch_result: None,
            last_parking_refusal: None,
            last_parking_failure: None,
            recovery_outcomes: Seq::empty(),
            displays: Seq::empty(),
            topology,
            windows: Map::empty(),
            inventory: Map::empty(),
            observed_windows: Map::empty(),
            rules: RuleBook { id: 0 },
            order: Seq::empty(),
            session_floating: Set::empty(),
            session_tiled: Set::empty(),
            focused_window: None,
            focused_display: None,
            config: Config::initial(),
            config_set: ConfigSet { base: Config::initial(), profiles: Seq::empty() },
            paused: false,
            tiling_active: false,
            tiling_suspended: false,
            interactive: None,
            deferred: Set::empty(),
            effects: Seq::empty(),
            last_applied_layouts: Map::empty(),
            capture_suspended: false,
            capture_holds: 0,
            unregistered_bindings: Seq::empty(),
        }
    }

    /// The state the engine starts from: the configuration for the displays
    /// taken up, the pool declared, and every display that can be given a
    /// workspace given one before any window is observed.
    pub open spec fn initial(
        displays: Seq<Display>,
        topology: String,
        config_set: ConfigSet,
        session_id: String,
    ) -> Model {
        let config = config_set.select(topology@);
        Model {
            displays,
            focused_display: if displays.len() > 0 {
                Some(displays[0].id)
            } else {
                None
            },
            config,
            config_set,
            rules: config.rules,
            tiling_active: config.automatic_tiling_enabled,
            ..Model::blank(session_id, topology)
        }.pool_synced().displays_filled().mapping_applied()
    }
}

impl EngineState {
    fn blank(session_id: String, topology: String) -> (state: EngineState)
        ensures
            state@ == Model::blank(session_id, topology),
    {
        let state = EngineState {
            revision: 0,
            persistence_health: PersistenceHealth::Healthy { last_durable_revision: 0 },
            persistence_intents: Vec::new(),
            newest_undo: None,
            last_undo_result: None,
            undo_scope: None,
            trees: Table::new(),
            pending_trees: Vec::new(),
            saved_trees: Table::new(),
            leaf_evidence: Table::new(),
            constraint_overflow: Vec::new(),
            workspaces: WorkspacePool::new(),
            last_workspace_result: None,
            rule_workspace_refusals: Vec::new(),
            switching_unavailable: None,
            parking_capability: ParkingCapability::Unverified,
            session_id,
            pending_parking: Vec::new(),
            next_parking_token: 0,
            parked_windows: Table::new(),
            switch: None,
            next_switch_id: 0,
            switch_degraded: None,
            last_switch_result: None,
            last_parking_refusal: None,
            last_parking_failure: None,
            recovery_outcomes: Vec::new(),
            displays: Vec::new(),
            topology,
            windows: Table::new(),
            inventory: Table::new(),
            observed_windows: Table::new(),
            rules: RuleBook { id: 0 },
            visual_window_order: Vec::new(),
            session_floating: IdSet::new(),
            session_tiled: IdSet::new(),
            focused_window: None,
            focused_display: None,
            resolved_config: ResolvedConfig::default(),
            config_set: ResolvedConfigSet::default(),
            paused: false,
            automatic_tiling_active: false,
            automatic_tiling_suspended: false,
            interactive_placement: None,
            deferred_reflow_displays: IdSet::new(),
            effects: Vec::new(),
            last_applied_layouts: Table::new(),
            hotkey_capture_suspended: false,
            capture_holds: 0,
            unregistered_bindings: Vec::new(),
        };
        assert(state@ =~= Model::blank(session_id, topology));
        state
    }
}

impl Default for EngineState {
    fn default() -> (state: EngineState)
        ensures
            exists|session_id: String, topology: String| #[trigger]
                Model::blank(session_id, topology) == state@ && session_id@ == ""@ && topology@
                    == ""@,
    {
        let session_id = "".to_owned();
        let topology = "".to_owned();
        let state = EngineState::blank(session_id, topology);
        assert(Model::blank(session_id, topology) == state@);
        state
    }
}

/// The state the engine starts from. `topology` is the fingerprint of
/// `displays`, and `session_id` this process's identity in the recovery
/// ledger.
pub fn initial_state(
    displays: Vec<Display>,
    topology: String,
    config_set: ResolvedConfigSet,
    session_id: String,
) -> (state: EngineState)
    ensures
        state@ == Model::initial(displays@, topology, config_set@, session_id),
        sound(state@),
{
    let ghost seen = displays@;
    let ghost set = config_set@;
    let ghost spelled = topology;
    let ghost session = session_id;
    let config = select_resolved_config(&config_set, &topology);
    let mut state = EngineState::blank(session_id, topology);
    if displays.len() > 0 {
        state.focused_display = Some(displays[0].id);
    }
    state.displays = displays;
    state.rules = config.rules;
    state.automatic_tiling_active = config.automatic_tiling_enabled;
    state.resolved_config = config;
    state.config_set = config_set;
    state.sync_workspaces_from_config();
    state.fill_empty_displays();
    state.apply_switching_mapping();
    proof {
        law_the_engine_starts_sound(seen, spelled, set, session);
    }
    confirm_finite(&state);
    state
}

/// Every window collection of a state is finite, whatever it holds.
pub(crate) fn confirm_finite(state: &EngineState)
    ensures
        state@.finite(),
{
    let _ = state.windows.len();
    let _ = state.inventory.len();
    let _ = state.parked_windows.len();
    let _ = state.workspaces.member_count();
}

impl Clone for EngineState {
    fn clone(&self) -> (copy: EngineState)
        ensures
            copy@ == self@,
    {
        let persistence_intents = self.persistence_intents.clone();
        let pending_trees = self.pending_trees.clone();
        let constraint_overflow = self.constraint_overflow.clone();
        let rule_workspace_refusals = self.rule_workspace_refusals.clone();
        let pending_parking = self.pending_parking.clone();
        let recovery_outcomes = self.recovery_outcomes.clone();
        let visual_window_order = self.visual_window_order.clone();
        let effects = self.effects.clone();
        let unregistered_bindings = self.unregistered_bindings.clone();
        let trees = self.trees.clone();
        let saved_trees = self.saved_trees.clone();
        let leaf_evidence = self.leaf_evidence.clone();
        let parked_windows = self.parked_windows.clone();
        let windows = self.windows.clone();
        let inventory = self.inventory.clone();
        let observed_windows = self.observed_windows.clone();
        let last_applied_layouts = self.last_applied_layouts.clone();
        assert(all_seen(persistence_intents@) =~= all_seen(self.persistence_intents@));
        assert(pending_trees@ =~= self.pending_trees@);
        assert(constraint_overflow@ =~= self.constraint_overflow@);
        assert(rule_workspace_refusals@ =~= self.rule_workspace_refusals@);
        assert(pending_parking@ =~= self.pending_parking@);
        assert(recovery_outcomes@ =~= self.recovery_outcomes@);
        assert(visual_window_order@ =~= self.visual_window_order@);
        assert(effects@ =~= self.effects@);
        assert(unregistered_bindings@ =~= self.unregistered_bindings@);
        assert(trees@ =~= self.trees@);
        assert(saved_trees@ =~= self.saved_trees@);
        assert(leaf_evidence@ =~= self.leaf_evidence@);
        assert(parked_windows@ =~= self.parked_windows@);
        assert(windows@ =~= self.windows@);
        assert(inventory@ =~= self.inventory@);
        assert(observed_windows@ =~= self.observed_windows@);
        assert(last_applied_layouts@ =~= self.last_applied_layouts@);
        EngineState {
            revision: self.revision,
            persistence_health: self.persistence_health,
            persistence_intents,
            newest_undo: match &self.newest_undo {
                Some(transaction) => Some(transaction.clone()),
                None => None,
            },
            last_undo_result: match &self.last_undo_result {
                Some(result) => Some(result.clone()),
                None => None,
            },
            undo_scope: match &self.undo_scope {
                Some(scope) => Some(scope.clone()),
                None => None,
            },
            trees,
            pending_trees,
            saved_trees,
            leaf_evidence,
            constraint_overflow,
            workspaces: self.workspaces.clone(),
            last_workspace_result: match &self.last_workspace_result {
                Some(result) => Some(result.clone()),
                None => None,
            },
            rule_workspace_refusals,
            switching_unavailable: match &self.switching_unavailable {
                Some(reason) => Some(reason.clone()),
                None => None,
            },
            parking_capability: self.parking_capability.clone(),
            session_id: self.session_id.clone(),
            pending_parking,
            next_parking_token: self.next_parking_token,
            parked_windows,
            switch: match &self.switch {
                Some(switch) => Some(switch.clone()),
                None => None,
            },
            next_switch_id: self.next_switch_id,
            switch_degraded: match &self.switch_degraded {
                Some(degraded) => Some(degraded.clone()),
                None => None,
            },
            last_switch_result: match &self.last_switch_result {
                Some(result) => Some(result.clone()),
                None => None,
            },
            last_parking_refusal: match &self.last_parking_refusal {
                Some(refusal) => Some(refusal.clone()),
                None => None,
            },
            last_parking_failure: match &self.last_parking_failure {
                Some(failure) => Some(failure.clone()),
                None => None,
            },
            recovery_outcomes,
            displays: copy_displays(&self.displays),
            topology: self.topology.clone(),
            windows,
            inventory,
            observed_windows,
            rules: self.rules,
            visual_window_order,
            session_floating: self.session_floating.clone(),
            session_tiled: self.session_tiled.clone(),
            focused_window: self.focused_window,
            focused_display: self.focused_display,
            resolved_config: self.resolved_config.clone(),
            config_set: self.config_set.clone(),
            paused: self.paused,
            automatic_tiling_active: self.automatic_tiling_active,
            automatic_tiling_suspended: self.automatic_tiling_suspended,
            interactive_placement: self.interactive_placement,
            deferred_reflow_displays: self.deferred_reflow_displays.clone(),
            effects,
            last_applied_layouts,
            hotkey_capture_suspended: self.hotkey_capture_suspended,
            capture_holds: self.capture_holds,
            unregistered_bindings,
        }
    }
}

/// The state an event leads to, leaving `state` as it is.
///
/// Where an answer is missing, the question comes back instead and nothing
/// has happened.
pub fn next_state(state: &EngineState, event: Event, a: &Answers) -> (next: Result<
    EngineState,
    Question,
>)
    ensures
        match (next, step(state@, event, *a)) {
            (Ok(reached), Ok(expected)) => reached@ == expected,
            (Err(question), Err(query)) => question@ == query,
            _ => false,
        },
        sound(state@) && next is Ok ==> sound(next->Ok_0@),
{
    let mut copy = state.clone();
    let reply = apply(&mut copy, event, a);
    confirm_finite(&copy);
    proof {
        if sound(state@) {
            law_steps_stay_sound(state@, event, *a);
        }
    }
    match reply {
        Ok(_) => Ok(copy),
        Err(question) => Err(question),
    }
}

} // verus!
