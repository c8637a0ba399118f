//! Session events: pausing, toggles, directional and tree commands, rules,
//! observations, configuration and topology.

use vstd::prelude::*;

verus! {

use crate::answers::{Answers, Query, Question, RuleBook, TreeChange};
use crate::commands::CommandLabel;
use crate::config::{
    same_config_set, select_resolved_config, ConfigSet, ResolvedConfigSet, TilingMode,
};
use crate::direction::{plan_directional_swap, plan_remove_position, plan_tree_resize};
use crate::geometry::{CardinalDirection, DisplayId, WindowId};
use crate::outcome::PersistenceHealth;
use crate::placement::reached;
use crate::state::{EngineEffect, EngineState, Listed, Model};
use crate::table::{ascending, sorted, Table};
use crate::text::{first_index, lemma_first_hit, same_text};
use crate::topology::{collect_display_ids, display_ids};
use crate::window::{
    eligibility, eligibility_for, same_display_lists, same_displays, Display, EligibilityReason,
    ManageAction, ManagedWindow, Window, WindowLifecycle, WindowPlacement,
};

impl Model {
    pub open spec fn on_pause(self) -> Model {
        if self.paused {
            self
        } else {
            Model { paused: true, ..self }.revised()
        }
    }

    pub open spec fn on_health(self, health: PersistenceHealth) -> Model {
        if health == self.persistence_health {
            self
        } else {
            Model { persistence_health: health, ..self }.revised()
        }
    }

    #[verifier::opaque]
    pub open spec fn on_resume(self, a: Answers) -> Result<Model, Query> {
        if !self.paused {
            Ok(self)
        } else {
            (Model { paused: false, ..self }).arranged_revised(a)
        }
    }

    /// The session-only suspension toggled, for a tiling-enabled topology.
    #[verifier::opaque]
    pub open spec fn on_toggle_tiling(self, a: Answers) -> Result<Model, Query> {
        if !self.config.automatic_tiling_enabled {
            Ok(self)
        } else {
            let toggled = Model {
                tiling_suspended: !self.tiling_suspended,
                tiling_active: self.tiling_suspended,
                ..self
            }.scope_opened(CommandLabel::ToggleAutomaticTiling);
            if toggled.tiling_active {
                toggled.arranged_closed(a)
            } else {
                toggled.revised().scope_closed(a)
            }
        }
    }

    /// The focused managed window toggled between floating and tiled.
    pub open spec fn floating_toggled(self, window_id: WindowId) -> Model {
        let id = window_id.0;
        if self.inventory[id].action == ManageAction::Float {
            if self.session_tiled.contains(id) {
                Model { session_tiled: self.session_tiled.remove(id), ..self }.eligibility_set(
                    id,
                    EligibilityReason::FloatingRule,
                )
            } else {
                Model {
                    session_tiled: self.session_tiled.insert(id),
                    session_floating: self.session_floating.remove(id),
                    ..self
                }.eligibility_set(id, EligibilityReason::Eligible)
            }
        } else {
            self.session_float(window_id, !self.session_floating.contains(id))
        }
    }

    #[verifier::opaque]
    pub open spec fn on_toggle_floating(self, a: Answers) -> Result<Model, Query> {
        match self.focused_window {
            None => Ok(self),
            Some(window_id) => if !self.inventory.contains_key(window_id.0) {
                Ok(self)
            } else {
                self.scope_opened(CommandLabel::ToggleFloating).floating_toggled(
                    window_id,
                ).arranged_closed(a)
            },
        }
    }

    #[verifier::opaque]
    pub open spec fn on_directional_focus(self, a: Answers, direction: CardinalDirection) -> Result<
        Model,
        Query,
    > {
        match self.neighbor(a, direction) {
            Err(query) => Err(query),
            Ok(None) => Ok(self),
            Ok(Some(window_id)) => Ok(
                self.effect(EngineEffect::FocusWindow { window_id }).revised(),
            ),
        }
    }

    pub open spec fn entry_at(self, entry: Listed) -> spec_fn(int) -> bool {
        |i: int| self.order[i] == entry
    }

    /// The places of two windows in the visual order exchanged.
    pub open spec fn order_swapped(self, i: int, j: int) -> Model {
        Model {
            order: self.order.update(i, self.order[j]).update(j, self.order[i]),
            ..self
        }
    }

    /// Two leaves of a display's tree exchanged, in tree mode.
    #[verifier::opaque]
    pub open spec fn leaves_swapped(
        self,
        a: Answers,
        display_id: DisplayId,
        x: WindowId,
        y: WindowId,
    ) -> Result<Model, Query> {
        if self.config.tiling_mode != TilingMode::Tree {
            Ok(self)
        } else {
            let captured = self.tree_captured(display_id);
            if !captured.trees.contains_key(display_id.0) {
                Ok(captured)
            } else {
                match a.changed_spec(
                    captured.trees[display_id.0],
                    TreeChange::SwapLeaves { a: x, b: y },
                ) {
                    Err(query) => Err(query),
                    Ok(tree) => Ok(
                        Model { trees: captured.trees.insert(display_id.0, tree), ..captured },
                    ),
                }
            }
        }
    }

    #[verifier::opaque]
    pub open spec fn on_swap(self, a: Answers, direction: CardinalDirection) -> Result<Model, Query> {
        match self.swap_plan(a, direction) {
            Err(query) => Err(query),
            Ok(Err(_)) => Ok(self),
            Ok(Ok(plan)) => {
                let n = self.order.len();
                let mine = Listed { display_id: plan.display_id, window_id: plan.window_id };
                let other = Listed { display_id: plan.display_id, window_id: plan.neighbor_id };
                match (
                    first_index(n, self.entry_at(mine)),
                    first_index(n, self.entry_at(other)),
                ) {
                    (Some(i), Some(j)) => match self.order_swapped(i, j).scope_opened(
                        CommandLabel::Swap(direction),
                    ).leaves_swapped(a, plan.display_id, plan.window_id, plan.neighbor_id) {
                        Ok(next) => next.arranged_closed(a),
                        Err(query) => Err(query),
                    },
                    _ => Ok(self),
                }
            },
        }
    }

    #[verifier::opaque]
    pub open spec fn on_remove_position(
        self,
        a: Answers,
        display_id: DisplayId,
        position: u64,
    ) -> Result<Model, Query> {
        match self.removal_plan(a, display_id, position) {
            Err(query) => Err(query),
            Ok(Err(_)) => Ok(self),
            Ok(Ok(_)) => {
                let captured = self.scope_opened(CommandLabel::RemovePosition).tree_captured(
                    display_id,
                );
                if !captured.trees.contains_key(display_id.0) {
                    captured.arranged_closed(a)
                } else {
                    match a.changed_spec(
                        captured.trees[display_id.0],
                        TreeChange::RemovePosition { position },
                    ) {
                        Err(query) => Err(query),
                        Ok(tree) => (Model {
                            trees: captured.trees.insert(display_id.0, tree),
                            ..captured
                        }).arranged_closed(a),
                    }
                }
            },
        }
    }

    #[verifier::opaque]
    pub open spec fn on_resize(self, a: Answers, direction: CardinalDirection) -> Result<
        Model,
        Query,
    > {
        match self.resize_plan(a, direction) {
            Err(query) => Err(query),
            Ok(Err(_)) => Ok(self),
            Ok(Ok(plan)) => {
                let display_id = plan.applied.display_id;
                let captured = self.scope_opened(CommandLabel::Resize(direction)).tree_captured(
                    display_id,
                );
                (Model {
                    trees: captured.trees.insert(display_id.0, plan.tree),
                    ..captured
                }).arranged_closed(a)
            },
        }
    }

    /// Observed windows by handle; the last observation of a handle counts.
    pub open spec fn by_handle(windows: Seq<Window>, n: int) -> Map<isize, Window>
        decreases n,
    {
        if n <= 0 {
            Map::empty()
        } else {
            Model::by_handle(windows, n - 1).insert(windows[n - 1].id.0, windows[n - 1])
        }
    }

    pub open spec fn remembering(self, windows: Seq<Window>) -> Model {
        Model { observed_windows: Model::by_handle(windows, windows.len() as int), ..self }
    }

    /// A tiled window that was just maximized floats for the session.
    pub open spec fn maximized_floated(self, windows: Seq<Window>, i: int) -> Model
        decreases windows.len() - i,
    {
        if i >= windows.len() {
            self
        } else {
            let id = windows[i].id.0;
            let maximized = self.inventory.contains_key(id) && self.inventory[id].action
                == ManageAction::Tile && self.inventory[id].window.lifecycle
                != WindowLifecycle::Maximized && windows[i].lifecycle
                == WindowLifecycle::Maximized;
            let next = if maximized {
                Model { session_floating: self.session_floating.insert(id), ..self }
            } else {
                self
            };
            next.maximized_floated(windows, i + 1)
        }
    }

    /// A batch of observations taken up. One that repeats what is known
    /// leaves the revision alone.
    #[verifier::opaque]
    pub open spec fn on_observed(self, a: Answers, windows: Seq<Window>) -> Result<Model, Query> {
        let floated = if self.tiling_active {
            self.maximized_floated(windows, 0)
        } else {
            self
        };
        match floated.remembering(windows).observed(a, windows) {
            Err(query) => Err(query),
            Ok((next, changed)) => if changed {
                next.arranged_revised(a)
            } else if self.stirred(next) {
                Ok(next.revised())
            } else {
                Ok(next)
            },
        }
    }

    pub open spec fn remembered_windows(self) -> Seq<Window> {
        sorted(self.observed_windows.dom()).map_values(|id: isize| self.observed_windows[id])
    }

    #[verifier::opaque]
    pub open spec fn on_rules(self, a: Answers, rules: RuleBook) -> Result<Model, Query> {
        let changed = Model { rules, ..self };
        match changed.observed(a, changed.remembered_windows()) {
            Err(query) => Err(query),
            Ok((next, _)) => next.arranged_revised(a),
        }
    }

    /// Every open breaker closed.
    pub open spec fn breakers_closed(self) -> Model {
        Model {
            windows: Map::new(
                |id: isize| self.windows.contains_key(id),
                |id: isize|
                    if self.windows[id].breaker_open() {
                        WindowPlacement { rejection_count: 0, ..self.windows[id] }
                    } else {
                        self.windows[id]
                    },
            ),
            inventory: Map::new(
                |id: isize| self.inventory.contains_key(id),
                |id: isize|
                    if self.inventory[id].eligibility == EligibilityReason::CircuitOpen {
                        ManagedWindow {
                            eligibility: eligibility(
                                self.inventory[id].window,
                                self.inventory[id].action,
                                false,
                            ),
                            ..self.inventory[id]
                        }
                    } else {
                        self.inventory[id]
                    },
            ),
            ..self
        }
    }

    #[verifier::opaque]
    pub open spec fn on_rearranged(self, a: Answers, windows: Seq<Window>) -> Result<Model, Query> {
        match self.remembering(windows).observed(a, windows) {
            Err(query) => Err(query),
            Ok((next, _)) => next.breakers_closed().scope_opened(
                CommandLabel::Rearrange,
            ).arranged_closed(a),
        }
    }

    /// Displays filled, the mapping applied, windows assigned and parked, and
    /// everything arranged and written out, as one revision.
    #[verifier::opaque]
    pub open spec fn assignment_reconciled(self, a: Answers) -> Result<Model, Query> {
        match self.displays_filled().mapping_applied().unassigned_assigned().hidden_reconciled(
            a.now_unix,
        ).arranged(a) {
            Err(query) => Err(query),
            Ok(next) => match next.workspaces_persisted(a, 0) {
                Err(query) => Err(query),
                Ok(done) => Ok(done.revised()),
            },
        }
    }

    #[verifier::opaque]
    pub open spec fn on_config(self, a: Answers, set: ConfigSet) -> Result<Model, Query> {
        if same_config_set(set, self.config_set) {
            Ok(self)
        } else {
            let config = set.select(self.topology@);
            let suspended = config.automatic_tiling_enabled && self.tiling_suspended;
            Model {
                config,
                rules: config.rules,
                tiling_suspended: suspended,
                tiling_active: config.automatic_tiling_enabled && !suspended,
                config_set: set,
                ..self
            }.pool_synced().assignment_reconciled(a)
        }
    }

    /// The configuration of a new topology taken up.
    pub open spec fn topology_config(self) -> Model {
        let config = self.config_set.select(self.topology@);
        Model {
            config,
            tiling_suspended: false,
            tiling_active: config.automatic_tiling_enabled,
            ..self
        }.pool_synced()
    }

    /// The new enumeration committed; nothing is kept for a display that is
    /// gone.
    pub open spec fn displays_committed(self, displays: Seq<Display>, topology: String) -> Model {
        let ids = display_ids(displays);
        Model {
            displays,
            topology,
            last_applied_layouts: self.last_applied_layouts.restrict(ids),
            trees: self.trees.restrict(ids),
            saved_trees: self.saved_trees.restrict(ids),
            ..self
        }
    }

    #[verifier::opaque]
    pub open spec fn on_topology(
        self,
        a: Answers,
        displays: Seq<Display>,
        topology: String,
    ) -> Result<Model, Query> {
        if displays.len() == 0 || same_displays(displays, self.displays) {
            Ok(self)
        } else {
            let changed = topology@ != self.topology@;
            match (Model { interactive: None, deferred: Set::empty(), ..self }).orphans_migrated(
                a,
                displays,
            ) {
                Err(query) => Err(query),
                Ok(moved) => {
                    let committed = moved.focus_migrated(displays).vanished_hidden(
                        displays,
                    ).displays_committed(displays, topology);
                    let configured = if changed {
                        committed.topology_config()
                    } else {
                        committed
                    };
                    configured.assignment_reconciled(a)
                },
            }
        }
    }

    /// A wake that brought another topology. A layout applied to a display
    /// that is gone is forgotten with it.
    #[verifier::opaque]
    pub open spec fn woken(self, a: Answers, displays: Seq<Display>, topology: String) -> Result<
        Model,
        Query,
    > {
        if displays.len() == 0 || topology@ == self.topology@ {
            Ok(self)
        } else {
            match self.orphans_migrated(a, displays) {
                Err(query) => Err(query),
                Ok(moved) => {
                    let hidden = moved.vanished_hidden(displays);
                    Ok(
                        Model {
                            displays,
                            topology,
                            last_applied_layouts: hidden.last_applied_layouts.restrict(
                                display_ids(displays),
                            ),
                            ..hidden
                        }.topology_config().displays_filled().mapping_applied(),
                    )
                },
            }
        }
    }

    #[verifier::opaque]
    pub open spec fn on_wake(
        self,
        a: Answers,
        displays: Seq<Display>,
        topology: String,
        windows: Option<Seq<Window>>,
    ) -> Result<Model, Query> {
        match self.woken(a, displays, topology) {
            Err(query) => Err(query),
            Ok(awake) => {
                let seen = match windows {
                    None => Ok(awake),
                    Some(windows) => match awake.remembering(windows).observed(a, windows) {
                        Ok((next, _)) => Ok(next),
                        Err(query) => Err(query),
                    },
                };
                match seen {
                    Ok(next) => next.arranged_revised(a),
                    Err(query) => Err(query),
                }
            },
        }
    }

    pub open spec fn on_capture_started(self) -> Model {
        let held = Model {
            capture_holds: if self.capture_holds == usize::MAX {
                usize::MAX
            } else {
                (self.capture_holds + 1) as usize
            },
            ..self
        };
        if self.capture_suspended {
            held
        } else {
            Model { capture_suspended: true, ..held }.revised()
        }
    }

    pub open spec fn on_capture_ended(self) -> Model {
        if self.capture_holds == 0 {
            self
        } else {
            let held = Model { capture_holds: (self.capture_holds - 1) as usize, ..self };
            if held.capture_holds > 0 {
                held
            } else {
                Model { capture_suspended: false, ..held }.revised()
            }
        }
    }

    pub open spec fn on_bindings(self, unregistered: Seq<String>) -> Model {
        if same_texts(self.unregistered_bindings, unregistered) {
            self
        } else {
            Model { unregistered_bindings: unregistered, ..self }.revised()
        }
    }
}

pub open spec fn same_texts(a: Seq<String>, b: Seq<String>) -> bool {
    a.len() == b.len() && forall|i: int| 0 <= i < a.len() ==> (#[trigger] a[i])@ == b[i]@
}

impl EngineState {
    pub fn pause(&mut self)
        ensures
            final(self)@ == old(self)@.on_pause(),
    {
        if !self.paused {
            self.paused = true;
            self.revise();
        }
    }

    pub fn resume(&mut self, a: &Answers) -> (reply: Result<(), Question>)
        ensures
            reached(reply, final(self)@, old(self)@.on_resume(*a)),
    {
        proof {
            reveal(Model::on_resume);
        }
        if !self.paused {
            return Ok(());
        }
        self.paused = false;
        self.arrange_and_revise(a)
    }

    pub fn toggle_tiling(&mut self, a: &Answers) -> (reply: Result<(), Question>)
        ensures
            reached(reply, final(self)@, old(self)@.on_toggle_tiling(*a)),
    {
        proof {
            reveal(Model::on_toggle_tiling);
        }
        if !self.resolved_config.automatic_tiling_enabled {
            return Ok(());
        }
        self.automatic_tiling_suspended = !self.automatic_tiling_suspended;
        self.automatic_tiling_active = !self.automatic_tiling_suspended;
        self.open_undo_scope(CommandLabel::ToggleAutomaticTiling);
        if self.automatic_tiling_active {
            self.arrange_and_close(a)
        } else {
            self.revise();
            self.close_undo_scope(a)
        }
    }

    fn toggle_floating_of(&mut self, window_id: WindowId)
        requires
            old(self)@.inventory.contains_key(window_id.0),
        ensures
            final(self)@ == old(self)@.floating_toggled(window_id),
    {
        let id = window_id.0;
        let floats = match self.inventory.get(id) {
            Some(managed) => managed.action == ManageAction::Float,
            None => false,
        };
        if floats {
            if self.session_tiled.contains(id) {
                self.session_tiled.remove(id);
                self.set_eligibility(window_id, EligibilityReason::FloatingRule);
            } else {
                self.session_tiled.insert(id);
                self.session_floating.remove(id);
                self.set_eligibility(window_id, EligibilityReason::Eligible);
            }
        } else {
            let floating = !self.session_floating.contains(id);
            self.set_session_floating(window_id, floating);
        }
    }

    pub fn toggle_floating(&mut self, a: &Answers) -> (reply: Result<(), Question>)
        ensures
            reached(reply, final(self)@, old(self)@.on_toggle_floating(*a)),
    {
        proof {
            reveal(Model::on_toggle_floating);
        }
        let window_id = match self.focused_window {
            Some(window_id) => window_id,
            None => {
                return Ok(());
            },
        };
        if !self.inventory.contains_key(window_id.0) {
            return Ok(());
        }
        self.open_undo_scope(CommandLabel::ToggleFloating);
        self.toggle_floating_of(window_id);
        self.arrange_and_close(a)
    }

    pub fn directional_focus(&mut self, a: &Answers, direction: CardinalDirection) -> (reply: Result<
        (),
        Question,
    >)
        ensures
            reached(reply, final(self)@, old(self)@.on_directional_focus(*a, direction)),
    {
        proof {
            reveal(Model::on_directional_focus);
        }
        match self.directional_neighbor(a, direction) {
            Ok(Some(window_id)) => {
                self.emit(EngineEffect::FocusWindow { window_id });
                self.revise();
                Ok(())
            },
            Ok(None) => Ok(()),
            Err(question) => Err(question),
        }
    }

    fn find_entry(&self, entry: Listed) -> (at: Option<usize>)
        ensures
            match at {
                Some(i) => first_index(self@.order.len(), self@.entry_at(entry)) == Some(i as int)
                    && i < self@.order.len(),
                None => first_index(self@.order.len(), self@.entry_at(entry)) is None,
            },
    {
        let ghost p = self@.entry_at(entry);
        let mut i: usize = 0;
        while i < self.visual_window_order.len()
            invariant
                i <= self.visual_window_order@.len(),
                p == self@.entry_at(entry),
                first_index(i as nat, p) is None,
            decreases self.visual_window_order@.len() - i,
        {
            if self.visual_window_order[i] == entry {
                proof {
                    assert(p(i as int));
                    lemma_first_hit(self@.order.len(), p, i as int);
                }
                return Some(i);
            }
            assert(!p(i as int));
            i += 1;
        }
        None
    }

    fn swap_leaves(&mut self, a: &Answers, display_id: DisplayId, x: WindowId, y: WindowId)
        -> (reply: Result<(), Question>)
        ensures
            reached(reply, final(self)@, old(self)@.leaves_swapped(*a, display_id, x, y)),
    {
        proof {
            reveal(Model::leaves_swapped);
        }
        if self.resolved_config.tiling_mode != TilingMode::Tree {
            return Ok(());
        }
        self.capture_tree_for_undo(display_id);
        let tree = match self.trees.get(display_id.0) {
            Some(tree) => *tree,
            None => {
                return Ok(());
            },
        };
        match a.changed(tree, TreeChange::SwapLeaves { a: x, b: y }) {
            Ok(changed) => {
                self.trees.insert(display_id.0, changed);
                Ok(())
            },
            Err(question) => Err(question),
        }
    }

    pub fn directional_swap(&mut self, a: &Answers, direction: CardinalDirection) -> (reply: Result<
        (),
        Question,
    >)
        ensures
            reached(reply, final(self)@, old(self)@.on_swap(*a, direction)),
    {
        proof {
            reveal(Model::on_swap);
        }
        let plan = match plan_directional_swap(self, a, direction) {
            Ok(Ok(plan)) => plan,
            Ok(Err(_)) => {
                return Ok(());
            },
            Err(question) => {
                return Err(question);
            },
        };
        let mine = Listed { display_id: plan.display_id, window_id: plan.window_id };
        let other = Listed { display_id: plan.display_id, window_id: plan.neighbor_id };
        let i = match self.find_entry(mine) {
            Some(i) => i,
            None => {
                return Ok(());
            },
        };
        let j = match self.find_entry(other) {
            Some(j) => j,
            None => {
                return Ok(());
            },
        };
        let first = self.visual_window_order[i];
        let second = self.visual_window_order[j];
        self.visual_window_order.set(i, second);
        self.visual_window_order.set(j, first);
        self.open_undo_scope(CommandLabel::Swap(direction));
        match self.swap_leaves(a, plan.display_id, plan.window_id, plan.neighbor_id) {
            Ok(_) => self.arrange_and_close(a),
            Err(question) => Err(question),
        }
    }

    pub fn remove_position(&mut self, a: &Answers, display_id: DisplayId, position: u64) -> (reply:
        Result<(), Question>)
        ensures
            reached(reply, final(self)@, old(self)@.on_remove_position(*a, display_id, position)),
    {
        proof {
            reveal(Model::on_remove_position);
        }
        match plan_remove_position(self, a, display_id, position) {
            Ok(Ok(_)) => {},
            Ok(Err(_)) => {
                return Ok(());
            },
            Err(question) => {
                return Err(question);
            },
        }
        self.open_undo_scope(CommandLabel::RemovePosition);
        self.capture_tree_for_undo(display_id);
        let current = match self.trees.get(display_id.0) {
            Some(tree) => Some(*tree),
            None => None,
        };
        match current {
            Some(tree) => match a.changed(tree, TreeChange::RemovePosition { position }) {
                Ok(changed) => {
                    self.trees.insert(display_id.0, changed);
                },
                Err(question) => {
                    return Err(question);
                },
            },
            None => {},
        }
        self.arrange_and_close(a)
    }

    pub fn tree_resize(&mut self, a: &Answers, direction: CardinalDirection) -> (reply: Result<
        (),
        Question,
    >)
        ensures
            reached(reply, final(self)@, old(self)@.on_resize(*a, direction)),
    {
        proof {
            reveal(Model::on_resize);
        }
        let plan = match plan_tree_resize(self, a, direction) {
            Ok(Ok(plan)) => plan,
            Ok(Err(_)) => {
                return Ok(());
            },
            Err(question) => {
                return Err(question);
            },
        };
        let display_id = plan.applied.display_id;
        self.open_undo_scope(CommandLabel::Resize(direction));
        self.capture_tree_for_undo(display_id);
        self.trees.insert(display_id.0, plan.tree);
        self.arrange_and_close(a)
    }

    fn remember(&mut self, windows: &Vec<Window>)
        ensures
            final(self)@ == old(self)@.remembering(windows@),
    {
        let mut table: Table<Window> = Table::new();
        let mut n: usize = 0;
        while n < windows.len()
            invariant
                n <= windows@.len(),
                table@ == Model::by_handle(windows@, n as int),
            decreases windows@.len() - n,
        {
            table.insert(windows[n].id.0, windows[n].clone());
            n += 1;
        }
        self.observed_windows = table;
    }

    fn float_maximized(&mut self, windows: &Vec<Window>)
        ensures
            final(self)@ == old(self)@.maximized_floated(windows@, 0),
    {
        let ghost total = self@.maximized_floated(windows@, 0);
        let mut i: usize = 0;
        while i < windows.len()
            invariant
                i <= windows@.len(),
                self@.maximized_floated(windows@, i as int) == total,
            decreases windows@.len() - i,
        {
            let id = windows[i].id.0;
            let tiled_and_normal = match self.inventory.get(id) {
                Some(managed) => managed.action == ManageAction::Tile && managed.window.lifecycle
                    != WindowLifecycle::Maximized,
                None => false,
            };
            if tiled_and_normal && windows[i].lifecycle == WindowLifecycle::Maximized {
                self.session_floating.insert(id);
            }
            i += 1;
        }
    }

    pub fn windows_observed(&mut self, a: &Answers, windows: &Vec<Window>) -> (reply: Result<
        (),
        Question,
    >)
        ensures
            reached(reply, final(self)@, old(self)@.on_observed(*a, windows@)),
    {
        proof {
            reveal(Model::on_observed);
        }
        let before = self.glance();
        if self.automatic_tiling_active {
            self.float_maximized(windows);
        }
        self.remember(windows);
        match self.replace_inventory_from_observations(a, windows) {
            Ok(changed) => {
                if changed {
                    return self.arrange_and_revise(a);
                }
                if self.differs_from_glance(&before, Ghost(old(self)@)) {
                    self.revise();
                }
                Ok(())
            },
            Err(question) => Err(question),
        }
    }

    fn all_observed(&self) -> (windows: Vec<Window>)
        ensures
            windows@ == self@.remembered_windows(),
    {
        let keys = self.observed_windows.keys();
        let mut windows: Vec<Window> = Vec::new();
        let mut i: usize = 0;
        while i < keys.len()
            invariant
                i <= keys@.len(),
                keys@ == sorted(self.observed_windows@.dom()),
                keys@.to_set() == self.observed_windows@.dom(),
                windows@ == self@.remembered_windows().take(i as int),
            decreases keys@.len() - i,
        {
            assert(keys@.to_set().contains(keys@[i as int]));
            match self.observed_windows.get(keys[i]) {
                Some(window) => {
                    windows.push(window.clone());
                },
                None => {},
            }
            i += 1;
        }
        assert(windows@ =~= self@.remembered_windows());
        windows
    }

    pub fn rules_changed(&mut self, a: &Answers, rules: RuleBook) -> (reply: Result<(), Question>)
        ensures
            reached(reply, final(self)@, old(self)@.on_rules(*a, rules)),
    {
        proof {
            reveal(Model::on_rules);
        }
        self.rules = rules;
        let windows = self.all_observed();
        match self.replace_inventory_from_observations(a, &windows) {
            Ok(_) => self.arrange_and_revise(a),
            Err(question) => Err(question),
        }
    }

    fn close_breakers(&mut self)
        ensures
            final(self)@ == old(self)@.breakers_closed(),
    {
        let ghost start = self@;
        let ghost after = start.breakers_closed();
        let keys = self.windows.keys();
        let mut i: usize = 0;
        while i < keys.len()
            invariant
                i <= keys@.len(),
                ascending(keys@),
                keys@.to_set() == start.windows.dom(),
                after == start.breakers_closed(),
                self@ == (Model { windows: self@.windows, ..start }),
                self@.windows.dom() == start.windows.dom(),
                forall|k: int|
                    0 <= k < i ==> self@.windows[#[trigger] keys@[k]] == after.windows[keys@[k]],
                forall|k: int|
                    i <= k < keys@.len() ==> self@.windows[#[trigger] keys@[k]]
                        == start.windows[keys@[k]],
            decreases keys@.len() - i,
        {
            let id = keys[i];
            assert(keys@.to_set().contains(id));
            let open = match self.windows.get(id) {
                Some(placement) => if placement.circuit_open() {
                    Some(*placement)
                } else {
                    None
                },
                None => None,
            };
            match open {
                Some(placement) => {
                    let mut closed = placement;
                    closed.rejection_count = 0;
                    self.windows.insert(id, closed);
                    assert(self@.windows.dom() =~= start.windows.dom());
                },
                None => {},
            }
            i += 1;
        }
        proof {
            assert forall|id: isize| #[trigger] self@.windows.dom().contains(id) implies self@.windows[id]
                == after.windows[id] by {
                assert(keys@.to_set().contains(id));
                let k = choose|k: int| 0 <= k < keys@.len() && keys@[k] == id;
                assert(self@.windows[keys@[k]] == after.windows[keys@[k]]);
            }
            assert(self@.windows =~= after.windows);
        }
        let keys = self.inventory.keys();
        let mut i: usize = 0;
        while i < keys.len()
            invariant
                i <= keys@.len(),
                ascending(keys@),
                keys@.to_set() == start.inventory.dom(),
                after == start.breakers_closed(),
                self@ == (Model {
                    windows: after.windows,
                    inventory: self@.inventory,
                    ..start
                }),
                self@.inventory.dom() == start.inventory.dom(),
                forall|k: int|
                    0 <= k < i ==> self@.inventory[#[trigger] keys@[k]] == after.inventory[keys@[k]],
                forall|k: int|
                    i <= k < keys@.len() ==> self@.inventory[#[trigger] keys@[k]]
                        == start.inventory[keys@[k]],
            decreases keys@.len() - i,
        {
            let id = keys[i];
            assert(keys@.to_set().contains(id));
            let reason = match self.inventory.get(id) {
                Some(managed) => if managed.eligibility == EligibilityReason::CircuitOpen {
                    Some(eligibility_for(&managed.window, managed.action, false))
                } else {
                    None
                },
                None => None,
            };
            match reason {
                Some(reason) => {
                    self.set_eligibility(WindowId(id), reason);
                    assert(self@.inventory.dom() =~= start.inventory.dom());
                },
                None => {},
            }
            i += 1;
        }
        proof {
            assert forall|id: isize| #[trigger]
                self@.inventory.dom().contains(id) implies self@.inventory[id]
                == after.inventory[id] by {
                assert(keys@.to_set().contains(id));
                let k = choose|k: int| 0 <= k < keys@.len() && keys@[k] == id;
                assert(self@.inventory[keys@[k]] == after.inventory[keys@[k]]);
            }
            assert(self@.inventory =~= after.inventory);
        }
    }

    pub fn rearranged(&mut self, a: &Answers, windows: &Vec<Window>) -> (reply: Result<(), Question>)
        ensures
            reached(reply, final(self)@, old(self)@.on_rearranged(*a, windows@)),
    {
        proof {
            reveal(Model::on_rearranged);
        }
        self.remember(windows);
        match self.replace_inventory_from_observations(a, windows) {
            Ok(_) => {},
            Err(question) => {
                return Err(question);
            },
        }
        self.close_breakers();
        self.open_undo_scope(CommandLabel::Rearrange);
        self.arrange_and_close(a)
    }

    /// Brings the displayed assignment, the parking site, the arrangement and
    /// the stored workspaces into line.
    pub fn reconcile_assignment(&mut self, a: &Answers) -> (reply: Result<(), Question>)
        ensures
            reached(reply, final(self)@, old(self)@.assignment_reconciled(*a)),
    {
        proof {
            reveal(Model::assignment_reconciled);
        }
        self.fill_empty_displays();
        self.apply_switching_mapping();
        self.assign_unassigned_windows();
        self.reconcile_hidden_workspace_windows(a.now_unix);
        match self.reconcile_arrangements(a) {
            Ok(_) => {},
            Err(question) => {
                return Err(question);
            },
        }
        match self.persist_workspaces(a) {
            Ok(_) => {
                self.revise();
                Ok(())
            },
            Err(question) => Err(question),
        }
    }

    pub fn config_changed(&mut self, a: &Answers, set: ResolvedConfigSet) -> (reply: Result<
        (),
        Question,
    >)
        ensures
            reached(reply, final(self)@, old(self)@.on_config(*a, set@)),
    {
        proof {
            reveal(Model::on_config);
        }
        if set.same(&self.config_set) {
            return Ok(());
        }
        let config = select_resolved_config(&set, &self.topology);
        self.rules = config.rules;
        if !config.automatic_tiling_enabled {
            self.automatic_tiling_suspended = false;
        }
        self.automatic_tiling_active = config.automatic_tiling_enabled
            && !self.automatic_tiling_suspended;
        self.resolved_config = config;
        self.config_set = set;
        self.sync_workspaces_from_config();
        self.reconcile_assignment(a)
    }

    fn take_up_config(&mut self)
        ensures
            final(self)@ == old(self)@.topology_config(),
    {
        let config = select_resolved_config(&self.config_set, &self.topology);
        self.automatic_tiling_suspended = false;
        self.automatic_tiling_active = config.automatic_tiling_enabled;
        self.resolved_config = config;
        self.sync_workspaces_from_config();
    }

    fn commit_displays(&mut self, displays: Vec<Display>, topology: String)
        ensures
            final(self)@ == old(self)@.displays_committed(displays@, topology),
    {
        let ids = collect_display_ids(&displays);
        self.displays = displays;
        self.topology = topology;
        self.last_applied_layouts.retain(&ids);
        self.trees.retain(&ids);
        self.saved_trees.retain(&ids);
    }

    pub fn topology_changed(&mut self, a: &Answers, displays: Vec<Display>, topology: String)
        -> (reply: Result<(), Question>)
        ensures
            reached(reply, final(self)@, old(self)@.on_topology(*a, displays@, topology)),
    {
        proof {
            reveal(Model::on_topology);
        }
        if displays.len() == 0 || same_display_lists(&displays, &self.displays) {
            return Ok(());
        }
        let changed = !same_text(&topology, &self.topology);
        self.interactive_placement = None;
        self.deferred_reflow_displays.clear();
        match self.migrate_orphaned_windows(a, &displays) {
            Ok(_) => {},
            Err(question) => {
                return Err(question);
            },
        }
        self.migrate_focused_display(&displays);
        self.hide_workspaces_on_vanished_displays(&displays);
        self.commit_displays(displays, topology);
        if changed {
            self.take_up_config();
        }
        self.reconcile_assignment(a)
    }

    fn wake(&mut self, a: &Answers, displays: Vec<Display>, topology: String) -> (reply: Result<
        (),
        Question,
    >)
        ensures
            reached(reply, final(self)@, old(self)@.woken(*a, displays@, topology)),
    {
        proof {
            reveal(Model::woken);
        }
        if displays.len() == 0 || same_text(&topology, &self.topology) {
            return Ok(());
        }
        match self.migrate_orphaned_windows(a, &displays) {
            Ok(_) => {},
            Err(question) => {
                return Err(question);
            },
        }
        self.hide_workspaces_on_vanished_displays(&displays);
        let ids = collect_display_ids(&displays);
        self.displays = displays;
        self.topology = topology;
        self.last_applied_layouts.retain(&ids);
        self.take_up_config();
        self.fill_empty_displays();
        self.apply_switching_mapping();
        Ok(())
    }

    pub fn wake_reconciled(
        &mut self,
        a: &Answers,
        displays: Vec<Display>,
        topology: String,
        windows: Option<Vec<Window>>,
    ) -> (reply: Result<(), Question>)
        ensures
            reached(
                reply,
                final(self)@,
                old(self)@.on_wake(
                    *a,
                    displays@,
                    topology,
                    match windows {
                        Some(list) => Some(list@),
                        None => None,
                    },
                ),
            ),
    {
        proof {
            reveal(Model::on_wake);
        }
        match self.wake(a, displays, topology) {
            Ok(_) => {},
            Err(question) => {
                return Err(question);
            },
        }
        match windows {
            Some(windows) => {
                self.remember(&windows);
                match self.replace_inventory_from_observations(a, &windows) {
                    Ok(_) => {},
                    Err(question) => {
                        return Err(question);
                    },
                }
            },
            None => {},
        }
        self.arrange_and_revise(a)
    }

    pub fn health_changed(&mut self, health: PersistenceHealth)
        ensures
            final(self)@ == old(self)@.on_health(health),
    {
        if health != self.persistence_health {
            self.persistence_health = health;
            self.revise();
        }
    }

    pub fn capture_started(&mut self)
        ensures
            final(self)@ == old(self)@.on_capture_started(),
    {
        if self.capture_holds < usize::MAX {
            self.capture_holds = self.capture_holds + 1;
        }
        if !self.hotkey_capture_suspended {
            self.hotkey_capture_suspended = true;
            self.revise();
        }
    }

    pub fn capture_ended(&mut self)
        ensures
            final(self)@ == old(self)@.on_capture_ended(),
    {
        if self.capture_holds == 0 {
            return;
        }
        self.capture_holds = self.capture_holds - 1;
        if self.capture_holds == 0 {
            self.hotkey_capture_suspended = false;
            self.revise();
        }
    }

    pub fn bindings_reported(&mut self, unregistered: Vec<String>)
        ensures
            final(self)@ == old(self)@.on_bindings(unregistered@),
    {
        if !same_text_lists(&self.unregistered_bindings, &unregistered) {
            self.unregistered_bindings = unregistered;
            self.revise();
        }
    }
}

fn same_text_lists(a: &Vec<String>, b: &Vec<String>) -> (same: bool)
    ensures
        same == same_texts(a@, b@),
{
    if a.len() != b.len() {
        return false;
    }
    let mut i: usize = 0;
    while i < a.len()
        invariant
            i <= a@.len(),
            a@.len() == b@.len(),
            forall|j: int| 0 <= j < i ==> (#[trigger] a@[j])@ == b@[j]@,
        decreases a@.len() - i,
    {
        if !same_text(&a[i], &b[i]) {
            return false;
        }
        i += 1;
    }
    true
}

} // verus!
