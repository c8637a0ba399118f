//! Placement events: restores, throws, snaps, layouts, drags and the circuit
//! breaker.

use vstd::prelude::*;

verus! {

use crate::answers::{Answers, PlannedPlacement, Query, Question, Zone};
use crate::commands::{CommandLabel, ZoneSnapDirection};
use crate::event::ObservedPlacement;
use crate::geometry::{
    CycleStep, DisplayDirection, DisplayId, HalfZone, HorizontalDirection, Rect, WindowId,
};
use crate::arrange::lists;
use crate::layout::plan_saved_layout;
use crate::placement::reached;
use crate::state::{EngineEffect, EngineState, InteractivePlacementSession, Listed, Model};
use crate::topology::{is_connected, connected, work_area, work_area_of};
use crate::window::{
    eligibility, eligibility_for, first_placement, track, EligibilityReason, WindowPlacement,
    CIRCUIT_BREAKER_THRESHOLD,
};
use crate::workspace::lemma_filter_step;

impl Model {
    pub open spec fn placement_set(self, id: isize, placement: WindowPlacement) -> Model {
        Model { windows: self.windows.insert(id, placement), ..self }
    }

    /// Arranged, and then revised.
    pub open spec fn arranged_revised(self, a: Answers) -> Result<Model, Query> {
        match self.arranged(a) {
            Ok(next) => Ok(next.revised()),
            Err(query) => Err(query),
        }
    }

    /// Arranged, revised, and the open scope closed.
    pub open spec fn arranged_closed(self, a: Answers) -> Result<Model, Query> {
        match self.arranged(a) {
            Ok(next) => next.revised().scope_closed(a),
            Err(query) => Err(query),
        }
    }

    /// A window placed by hand. Under tiling it floats from here on, which is
    /// a change even where the open breaker suppresses the placement.
    #[verifier::opaque]
    pub open spec fn on_window_placed(
        self,
        a: Answers,
        window_id: WindowId,
        display_id: DisplayId,
        bounds: Rect,
    ) -> Result<Model, Query> {
        if self.paused {
            Ok(self)
        } else {
            let floated = if self.tiling_active {
                self.session_float(window_id, true)
            } else {
                self
            };
            match floated.placed(window_id, display_id, bounds, None).arranged(a) {
                Ok(next) => if self.tiling_active && self.breaker_open(window_id.0) {
                    Ok(next.revised())
                } else {
                    Ok(next)
                },
                Err(query) => Err(query),
            }
        }
    }

    /// The window's most recent placement undone: back to the display and
    /// bounds it had immediately before.
    #[verifier::opaque]
    pub open spec fn on_restore_requested(self, a: Answers, window_id: WindowId) -> Result<
        Model,
        Query,
    > {
        if !self.windows.contains_key(window_id.0) {
            Ok(self)
        } else {
            let placement = self.windows[window_id.0];
            match placement.previous_placement {
                None => Ok(self),
                Some((display_id, bounds)) => self.placement_set(
                    window_id.0,
                    WindowPlacement {
                        display_id,
                        bounds,
                        previous_placement: None,
                        ..placement
                    },
                ).inventory_moved(window_id, display_id, bounds).scope_opened(
                    CommandLabel::Restore,
                ).member_recorded(
                    window_id,
                    Some((placement.display_id, placement.bounds)),
                ).effect(EngineEffect::PlaceWindow { window_id, display_id, bounds }).revised().scope_closed(
                    a,
                ),
            }
        }
    }

    /// A thrown window listed under its new display only.
    pub open spec fn relisted(self, window_id: WindowId, from: DisplayId, to: DisplayId) -> Model {
        let left = self.order.filter(Model::not_entry(Listed { display_id: from, window_id }));
        let entry = Listed { display_id: to, window_id };
        Model {
            order: if left.contains(entry) {
                left
            } else {
                left.push(entry)
            },
            ..self
        }
    }

    pub open spec fn not_entry(entry: Listed) -> spec_fn(Listed) -> bool {
        |other: Listed| other != entry
    }

    /// Arranged, and the window placed where the arrangement has it, unless
    /// the arrangement placed it already.
    #[verifier::opaque]
    pub open spec fn arranged_placing(self, a: Answers, window_id: WindowId) -> Result<
        Model,
        Query,
    > {
        match self.arranged(a) {
            Err(query) => Err(query),
            Ok(next) => if !next.placed_since(window_id, self.effects.len())
                && next.windows.contains_key(window_id.0) {
                Ok(
                    next.effect(
                        EngineEffect::PlaceWindow {
                            window_id,
                            display_id: next.windows[window_id.0].display_id,
                            bounds: next.windows[window_id.0].bounds,
                        },
                    ),
                )
            } else {
                Ok(next)
            },
        }
    }

    /// The window moved to `to` at `bounds`, as one reversible command. Where
    /// the tiled arrangement has the window exactly there, the move itself is
    /// what the adapter has to be told. Under tiling a window whose breaker is
    /// open moves too, so that it is counted where the user wants it: only no
    /// placement is issued for it until the breaker is reset.
    #[verifier::opaque]
    pub open spec fn thrown(
        self,
        a: Answers,
        window_id: WindowId,
        direction: DisplayDirection,
        to: DisplayId,
        bounds: Rect,
    ) -> Result<Model, Query> {
        let placement = self.windows[window_id.0];
        let opened = self.scope_opened(CommandLabel::Throw(direction));
        if self.tiling_active && self.inventory.contains_key(window_id.0) {
            let moved = opened.relisted(window_id, placement.display_id, to).placement_set(
                window_id.0,
                WindowPlacement { display_id: to, bounds, ..placement },
            ).inventory_moved(window_id, to, bounds).member_recorded(
                window_id,
                Some((placement.display_id, placement.bounds)),
            );
            match if self.breaker_open(window_id.0) {
                moved.arranged(a)
            } else {
                moved.arranged_placing(a, window_id)
            } {
                Ok(next) => next.revised().scope_closed(a),
                Err(query) => Err(query),
            }
        } else {
            opened.placed(window_id, to, bounds, None).scope_closed(a)
        }
    }

    #[verifier::opaque]
    pub open spec fn on_throw(
        self,
        a: Answers,
        window_id: WindowId,
        direction: DisplayDirection,
    ) -> Result<Model, Query> {
        if self.paused || !self.windows.contains_key(window_id.0) {
            Ok(self)
        } else {
            let placement = self.windows[window_id.0];
            match a.adjacent_spec(self.displays, placement.display_id, direction) {
                Err(query) => Err(query),
                Ok(None) => Ok(self),
                Ok(Some(to)) => match (
                    work_area(self.displays, placement.display_id),
                    work_area(self.displays, to),
                ) {
                    (Some(from_area), Some(to_area)) => match a.thrown_spec(
                        placement.bounds,
                        from_area,
                        to_area,
                    ) {
                        Err(query) => Err(query),
                        Ok(bounds) => self.thrown(a, window_id, direction, to, bounds),
                    },
                    _ => Ok(self),
                },
            }
        }
    }

    /// The window tracked if it was not, and given the focus.
    #[verifier::opaque]
    pub open spec fn on_focused(
        self,
        window_id: WindowId,
        display_id: DisplayId,
        bounds: Rect,
    ) -> Model {
        Model {
            windows: if self.windows.contains_key(window_id.0) {
                self.windows
            } else {
                self.windows.insert(window_id.0, first_placement(display_id, bounds))
            },
            focused_window: Some(window_id),
            workspaces: self.workspaces.focused(window_id),
            focused_display: if connected(self.displays, display_id) {
                Some(display_id)
            } else {
                self.focused_display
            },
            ..self
        }.revised()
    }

    pub open spec fn on_desktop_focused(self) -> Model {
        match self.focused_window {
            Some(_) => Model { focused_window: None, ..self }.revised(),
            None => self,
        }
    }

    pub open spec fn on_focus_display(self, display_id: DisplayId) -> Model {
        if connected(self.displays, display_id) && self.focused_display != Some(display_id) {
            Model { focused_display: Some(display_id), ..self }.revised()
        } else {
            self
        }
    }

    /// The step a snap in `direction` moves to: the next one where the last
    /// horizontal snap went the same way, and half otherwise.
    pub open spec fn next_step(self, id: isize, direction: HorizontalDirection) -> CycleStep {
        match self.windows[id].cycle_step {
            Some((previous, step)) => if previous == direction {
                step.successor()
            } else {
                CycleStep::Half
            },
            None => CycleStep::Half,
        }
    }

    /// The zone a snap resolves to, and the cycle step it records.
    pub open spec fn snap_zone(self, id: isize, direction: ZoneSnapDirection) -> (
        Zone,
        Option<(HorizontalDirection, CycleStep)>,
    ) {
        match direction.along() {
            Some(horizontal) => {
                let step = self.next_step(id, horizontal);
                (Zone::Cycle(horizontal, step), Some((horizontal, step)))
            },
            None => (
                Zone::Half(
                    if direction == ZoneSnapDirection::Top {
                        HalfZone::TopHalf
                    } else {
                        HalfZone::BottomHalf
                    },
                ),
                None,
            ),
        }
    }

    /// The focused window snapped to `bounds`; the rest of the tiling set
    /// reflows around it.
    #[verifier::opaque]
    pub open spec fn snapped(
        self,
        a: Answers,
        window_id: WindowId,
        direction: ZoneSnapDirection,
        bounds: Rect,
    ) -> Result<Model, Query> {
        let placement = self.windows[window_id.0];
        let (_, cycle) = self.snap_zone(window_id.0, direction);
        let placed = self.placement_set(
            window_id.0,
            WindowPlacement { rejection_count: 0, ..placement },
        ).scope_opened(CommandLabel::ZoneSnap(direction)).placed(
            window_id,
            placement.display_id,
            bounds,
            cycle,
        );
        if placed.tiling_active {
            match placed.session_float(window_id, true).arranged(a) {
                Ok(next) => next.scope_closed(a),
                Err(query) => Err(query),
            }
        } else {
            placed.scope_closed(a)
        }
    }

    #[verifier::opaque]
    pub open spec fn on_zone_snap(self, a: Answers, direction: ZoneSnapDirection) -> Result<
        Model,
        Query,
    > {
        match self.focused_window {
            None => Ok(self),
            Some(window_id) => if self.paused || !self.windows.contains_key(window_id.0) {
                Ok(self)
            } else {
                match work_area(self.displays, self.windows[window_id.0].display_id) {
                    None => Ok(self),
                    Some(area) => {
                        let (zone, _) = self.snap_zone(window_id.0, direction);
                        match a.zone_spec(area, zone) {
                            Err(query) => Err(query),
                            Ok(raw) => match a.gapped_spec(raw, area, self.config.gaps) {
                                Err(query) => Err(query),
                                Ok(bounds) => self.snapped(a, window_id, direction, bounds),
                            },
                        }
                    },
                }
            },
        }
    }

    /// Where the adapter says the window is. The intended placement stays; a
    /// mismatch with it resets the cycle.
    #[verifier::opaque]
    pub open spec fn on_bounds_observed(
        self,
        window_id: WindowId,
        display_id: DisplayId,
        bounds: Rect,
    ) -> Model {
        if !self.windows.contains_key(window_id.0) {
            self
        } else {
            let placement = self.windows[window_id.0];
            let moved = placement.observed_bounds != bounds;
            let agrees = placement.display_id == display_id && placement.bounds == bounds;
            let reset = !agrees && placement.cycle_step is Some;
            let next = self.placement_set(
                window_id.0,
                WindowPlacement {
                    observed_bounds: bounds,
                    cycle_step: if agrees {
                        placement.cycle_step
                    } else {
                        None
                    },
                    ..placement
                },
            );
            if moved || reset {
                next.revised()
            } else {
                next
            }
        }
    }

    pub open spec fn on_drag_started(self, window_id: WindowId) -> Model {
        let home = if self.inventory.contains_key(window_id.0) {
            Some(self.inventory[window_id.0].window.display_id)
        } else if self.windows.contains_key(window_id.0) {
            Some(self.windows[window_id.0].display_id)
        } else {
            None
        };
        match home {
            Some(display_id) => Model {
                interactive: Some(InteractivePlacementSession { window_id, display_id }),
                ..self
            }.revised(),
            None => self,
        }
    }

    /// Whether the effects from `start` on place the window.
    pub open spec fn placed_since(self, window_id: WindowId, start: nat) -> bool {
        exists|k: int|
            start <= k < self.effects.len() && places(#[trigger] self.effects[k], window_id)
    }

    /// The drag over: every reflow it held back happens, and a window that was
    /// not placed by hand goes back where it belongs.
    #[verifier::opaque]
    pub open spec fn on_drag_ended(self, a: Answers, window_id: WindowId, committed: bool) -> Result<
        Model,
        Query,
    > {
        match self.interactive {
            None => Ok(self),
            Some(session) => if session.window_id != window_id {
                Ok(self)
            } else {
                let released = Model { interactive: None, deferred: Set::empty(), ..self };
                match if committed {
                    released.arranged(a)
                } else {
                    released.arranged_placing(a, window_id)
                } {
                    Err(query) => Err(query),
                    Ok(next) => Ok(next.revised()),
                }
            },
        }
    }

    /// Every window from `i` on that is not tracked yet tracked.
    pub open spec fn startup_tracked(self, windows: Seq<ObservedPlacement>, i: int) -> Model
        decreases windows.len() - i,
    {
        if i >= windows.len() {
            self
        } else {
            let next = if self.windows.contains_key(windows[i].window_id.0) {
                self
            } else {
                self.placement_set(
                    windows[i].window_id.0,
                    first_placement(windows[i].display_id, windows[i].bounds),
                )
            };
            next.startup_tracked(windows, i + 1)
        }
    }

    pub open spec fn all_tracked(self, windows: Seq<ObservedPlacement>) -> bool {
        forall|i: int|
            0 <= i < windows.len() ==> self.windows.contains_key(
                (#[trigger] windows[i]).window_id.0,
            )
    }

    #[verifier::opaque]
    pub open spec fn on_startup(self, windows: Seq<ObservedPlacement>) -> Model {
        let next = self.startup_tracked(windows, 0);
        if self.all_tracked(windows) {
            next
        } else {
            next.revised()
        }
    }

    /// One more rejection. Reaching the threshold opens the breaker and
    /// reflows around the window.
    #[verifier::opaque]
    pub open spec fn on_rejected(self, a: Answers, window_id: WindowId) -> Result<Model, Query> {
        if !self.windows.contains_key(window_id.0) || self.windows[window_id.0].rejection_count
            == u8::MAX {
            Ok(self)
        } else {
            let placement = self.windows[window_id.0];
            let count = (placement.rejection_count + 1) as u8;
            let counted = self.placement_set(
                window_id.0,
                WindowPlacement { rejection_count: count, ..placement },
            );
            if count == CIRCUIT_BREAKER_THRESHOLD {
                counted.eligibility_set(
                    window_id.0,
                    EligibilityReason::CircuitOpen,
                ).arranged_revised(a)
            } else {
                Ok(counted.revised())
            }
        }
    }

    #[verifier::opaque]
    pub open spec fn on_accepted(self, window_id: WindowId) -> Model {
        if !self.windows.contains_key(window_id.0) || self.windows[window_id.0].rejection_count
            == 0 {
            self
        } else {
            self.placement_set(
                window_id.0,
                WindowPlacement { rejection_count: 0, ..self.windows[window_id.0] },
            ).eligibility_set(
                window_id.0,
                eligibility(
                    self.inventory[window_id.0].window,
                    self.inventory[window_id.0].action,
                    false,
                ),
            ).revised()
        }
    }

    /// Placements from `i` on carried out, those the breaker did not suppress
    /// noted.
    pub open spec fn layout_placed(
        self,
        placements: Seq<PlannedPlacement>,
        display_id: DisplayId,
        i: int,
        done: Seq<WindowId>,
    ) -> (Model, Seq<WindowId>)
        decreases placements.len() - i,
    {
        if i >= placements.len() {
            (self, done)
        } else {
            let window_id = placements[i].window_id;
            self.placed(window_id, display_id, placements[i].bounds, None).layout_placed(
                placements,
                display_id,
                i + 1,
                if self.breaker_open(window_id.0) {
                    done
                } else {
                    done.push(window_id)
                },
            )
        }
    }

    pub open spec fn all_floated(self, windows: Seq<WindowId>, i: int) -> Model
        decreases windows.len() - i,
    {
        if i >= windows.len() {
            self
        } else {
            self.session_float(windows[i], true).all_floated(windows, i + 1)
        }
    }

    /// The windows a layout placed taken out of the tiling set, and the rest
    /// reflowed.
    #[verifier::opaque]
    pub open spec fn layout_finished(
        self,
        a: Answers,
        name: String,
        display_id: DisplayId,
        placed: Seq<WindowId>,
    ) -> Result<Model, Query> {
        if placed.len() == 0 {
            self.scope_closed(a)
        } else {
            let noted = Model {
                last_applied_layouts: self.last_applied_layouts.insert(display_id.0, name),
                ..self
            };
            if noted.tiling_active {
                match noted.all_floated(placed, 0).arranged(a) {
                    Ok(next) => next.scope_closed(a),
                    Err(query) => Err(query),
                }
            } else {
                noted.scope_closed(a)
            }
        }
    }

    #[verifier::opaque]
    pub open spec fn on_layout(self, a: Answers, name: String) -> Result<Model, Query> {
        match self.layout_plan(a, name) {
            Err(query) => Err(query),
            Ok(Err(_)) => Ok(self),
            Ok(Ok(plan)) => {
                let (next, placed) = self.scope_opened(
                    CommandLabel::ApplyLayout(name),
                ).layout_placed(plan.placements, plan.display_id, 0, Seq::empty());
                next.layout_finished(a, name, plan.display_id, placed)
            },
        }
    }
}

pub open spec fn places(effect: EngineEffect, window_id: WindowId) -> bool {
    match effect {
        EngineEffect::PlaceWindow { window_id: id, .. } => id == window_id,
        _ => false,
    }
}

impl EngineState {
    pub fn arrange_and_revise(&mut self, a: &Answers) -> (reply: Result<(), Question>)
        ensures
            reached(reply, final(self)@, old(self)@.arranged_revised(*a)),
    {
        match self.reconcile_arrangements(a) {
            Ok(_) => {
                self.revise();
                Ok(())
            },
            Err(question) => Err(question),
        }
    }

    pub fn arrange_and_close(&mut self, a: &Answers) -> (reply: Result<(), Question>)
        ensures
            reached(reply, final(self)@, old(self)@.arranged_closed(*a)),
    {
        match self.reconcile_arrangements(a) {
            Ok(_) => {
                self.revise();
                self.close_undo_scope(a)
            },
            Err(question) => Err(question),
        }
    }

    pub fn window_placed(
        &mut self,
        a: &Answers,
        window_id: WindowId,
        display_id: DisplayId,
        bounds: Rect,
    ) -> (reply: Result<(), Question>)
        ensures
            reached(
                reply,
                final(self)@,
                old(self)@.on_window_placed(*a, window_id, display_id, bounds),
            ),
    {
        proof {
            reveal(Model::on_window_placed);
        }
        if self.paused {
            return Ok(());
        }
        let suppressed = self.automatic_tiling_active && self.circuit_is_open(window_id);
        if self.automatic_tiling_active {
            self.set_session_floating(window_id, true);
        }
        self.place_window(window_id, display_id, bounds, None);
        if suppressed {
            self.arrange_and_revise(a)
        } else {
            self.reconcile_arrangements(a)
        }
    }

    pub fn restore_requested(&mut self, a: &Answers, window_id: WindowId) -> (reply: Result<
        (),
        Question,
    >)
        ensures
            reached(reply, final(self)@, old(self)@.on_restore_requested(*a, window_id)),
    {
        proof {
            reveal(Model::on_restore_requested);
        }
        let placement = match self.windows.get(window_id.0) {
            Some(placement) => *placement,
            None => {
                return Ok(());
            },
        };
        let (display_id, bounds) = match placement.previous_placement {
            Some(previous) => previous,
            None => {
                return Ok(());
            },
        };
        let mut restored = placement;
        restored.display_id = display_id;
        restored.bounds = bounds;
        restored.previous_placement = None;
        self.windows.insert(window_id.0, restored);
        self.move_inventory(window_id, display_id, bounds);
        self.open_undo_scope(CommandLabel::Restore);
        self.record_undo_member(window_id, Some((placement.display_id, placement.bounds)));
        self.emit(EngineEffect::PlaceWindow { window_id, display_id, bounds });
        self.revise();
        self.close_undo_scope(a)
    }

    fn relist(&mut self, window_id: WindowId, from: DisplayId, to: DisplayId)
        ensures
            final(self)@ == old(self)@.relisted(window_id, from, to),
    {
        let gone = Listed { display_id: from, window_id };
        let ghost pred = Model::not_entry(gone);
        let ghost all = self.visual_window_order@;
        let mut order: Vec<Listed> = Vec::new();
        let mut i: usize = 0;
        while i < self.visual_window_order.len()
            invariant
                i <= self.visual_window_order@.len(),
                *self == *old(self),
                all == self.visual_window_order@,
                pred == Model::not_entry(gone),
                order@ == all.take(i as int).filter(pred),
            decreases self.visual_window_order@.len() - i,
        {
            proof {
                lemma_filter_step(all, i as int, pred);
            }
            if self.visual_window_order[i] != gone {
                order.push(self.visual_window_order[i]);
            }
            i += 1;
        }
        assert(all.take(all.len() as int) =~= all);
        let entry = Listed { display_id: to, window_id };
        if !lists(&order, entry) {
            order.push(entry);
        }
        self.visual_window_order = order;
    }

    /// Arranges, and tells the adapter where the window ended up unless the
    /// arrangement did.
    fn arrange_and_place(&mut self, a: &Answers, window_id: WindowId) -> (reply: Result<
        (),
        Question,
    >)
        ensures
            reached(reply, final(self)@, old(self)@.arranged_placing(*a, window_id)),
    {
        proof {
            reveal(Model::arranged_placing);
        }
        let start = self.effects.len();
        match self.reconcile_arrangements(a) {
            Ok(_) => {},
            Err(question) => {
                return Err(question);
            },
        }
        if self.was_placed_since(window_id, start) {
            return Ok(());
        }
        let at = match self.windows.get(window_id.0) {
            Some(placement) => Some((placement.display_id, placement.bounds)),
            None => None,
        };
        match at {
            Some((display_id, bounds)) => {
                self.emit(EngineEffect::PlaceWindow { window_id, display_id, bounds });
            },
            None => {},
        }
        Ok(())
    }

    fn throw(
        &mut self,
        a: &Answers,
        window_id: WindowId,
        direction: DisplayDirection,
        to: DisplayId,
        bounds: Rect,
    ) -> (reply: Result<(), Question>)
        requires
            old(self)@.windows.contains_key(window_id.0),
        ensures
            reached(
                reply,
                final(self)@,
                old(self)@.thrown(*a, window_id, direction, to, bounds),
            ),
    {
        proof {
            reveal(Model::thrown);
        }
        let placement = match self.windows.get(window_id.0) {
            Some(placement) => *placement,
            None => {
                return Ok(());
            },
        };
        self.open_undo_scope(CommandLabel::Throw(direction));
        if self.automatic_tiling_active && self.inventory.contains_key(window_id.0) {
            let suppressed = self.circuit_is_open(window_id);
            self.relist(window_id, placement.display_id, to);
            let mut moved = placement;
            moved.display_id = to;
            moved.bounds = bounds;
            self.windows.insert(window_id.0, moved);
            self.move_inventory(window_id, to, bounds);
            self.record_undo_member(window_id, Some((placement.display_id, placement.bounds)));
            let reply = if suppressed {
                self.reconcile_arrangements(a)
            } else {
                self.arrange_and_place(a, window_id)
            };
            match reply {
                Ok(_) => {
                    self.revise();
                    self.close_undo_scope(a)
                },
                Err(question) => Err(question),
            }
        } else {
            self.place_window(window_id, to, bounds, None);
            self.close_undo_scope(a)
        }
    }

    pub fn throw_requested(
        &mut self,
        a: &Answers,
        window_id: WindowId,
        direction: DisplayDirection,
    ) -> (reply: Result<(), Question>)
        ensures
            reached(reply, final(self)@, old(self)@.on_throw(*a, window_id, direction)),
    {
        proof {
            reveal(Model::on_throw);
        }
        if self.paused {
            return Ok(());
        }
        let placement = match self.windows.get(window_id.0) {
            Some(placement) => *placement,
            None => {
                return Ok(());
            },
        };
        let to = match a.adjacent(&self.displays, placement.display_id, direction) {
            Ok(Some(to)) => to,
            Ok(None) => {
                return Ok(());
            },
            Err(question) => {
                return Err(question);
            },
        };
        let from_area = match work_area_of(&self.displays, placement.display_id) {
            Some(area) => area,
            None => {
                return Ok(());
            },
        };
        let to_area = match work_area_of(&self.displays, to) {
            Some(area) => area,
            None => {
                return Ok(());
            },
        };
        match a.thrown(placement.bounds, from_area, to_area) {
            Ok(bounds) => self.throw(a, window_id, direction, to, bounds),
            Err(question) => Err(question),
        }
    }

    pub fn window_focused(&mut self, window_id: WindowId, display_id: DisplayId, bounds: Rect)
        ensures
            final(self)@ == old(self)@.on_focused(window_id, display_id, bounds),
    {
        proof {
            reveal(Model::on_focused);
        }
        if !self.windows.contains_key(window_id.0) {
            self.windows.insert(window_id.0, track(display_id, bounds));
        }
        self.focused_window = Some(window_id);
        self.workspaces.note_focus(window_id);
        if is_connected(&self.displays, display_id) {
            self.focused_display = Some(display_id);
        }
        self.revise();
    }

    pub fn desktop_focused(&mut self)
        ensures
            final(self)@ == old(self)@.on_desktop_focused(),
    {
        if self.focused_window.is_some() {
            self.focused_window = None;
            self.revise();
        }
    }

    pub fn focus_display(&mut self, display_id: DisplayId)
        ensures
            final(self)@ == old(self)@.on_focus_display(display_id),
    {
        let already = match self.focused_display {
            Some(focused) => focused == display_id,
            None => false,
        };
        if is_connected(&self.displays, display_id) && !already {
            self.focused_display = Some(display_id);
            self.revise();
        }
    }

    fn zone_for(&self, placement: &WindowPlacement, direction: ZoneSnapDirection, Ghost(id): Ghost<
        isize,
    >) -> (zone: (Zone, Option<(HorizontalDirection, CycleStep)>))
        requires
            self@.windows.contains_key(id),
            *placement == self@.windows[id],
        ensures
            zone == self@.snap_zone(id, direction),
    {
        match direction.horizontal() {
            Some(horizontal) => {
                let step = match placement.cycle_step {
                    Some((previous, step)) => {
                        if previous == horizontal {
                            step.next()
                        } else {
                            CycleStep::Half
                        }
                    },
                    None => CycleStep::Half,
                };
                (Zone::Cycle(horizontal, step), Some((horizontal, step)))
            },
            None => {
                let half = if direction == ZoneSnapDirection::Top {
                    HalfZone::TopHalf
                } else {
                    HalfZone::BottomHalf
                };
                (Zone::Half(half), None)
            },
        }
    }

    fn snap(
        &mut self,
        a: &Answers,
        window_id: WindowId,
        direction: ZoneSnapDirection,
        bounds: Rect,
    ) -> (reply: Result<(), Question>)
        requires
            old(self)@.windows.contains_key(window_id.0),
        ensures
            reached(reply, final(self)@, old(self)@.snapped(*a, window_id, direction, bounds)),
    {
        proof {
            reveal(Model::snapped);
        }
        let placement = match self.windows.get(window_id.0) {
            Some(placement) => *placement,
            None => {
                return Ok(());
            },
        };
        let (_, cycle) = self.zone_for(&placement, direction, Ghost(window_id.0));
        let mut reset = placement;
        reset.rejection_count = 0;
        self.windows.insert(window_id.0, reset);
        self.open_undo_scope(CommandLabel::ZoneSnap(direction));
        self.place_window(window_id, placement.display_id, bounds, cycle);
        if self.automatic_tiling_active {
            self.set_session_floating(window_id, true);
            match self.reconcile_arrangements(a) {
                Ok(_) => {},
                Err(question) => {
                    return Err(question);
                },
            }
        }
        self.close_undo_scope(a)
    }

    pub fn zone_snap(&mut self, a: &Answers, direction: ZoneSnapDirection) -> (reply: Result<
        (),
        Question,
    >)
        ensures
            reached(reply, final(self)@, old(self)@.on_zone_snap(*a, direction)),
    {
        proof {
            reveal(Model::on_zone_snap);
        }
        if self.paused {
            return Ok(());
        }
        let window_id = match self.focused_window {
            Some(window_id) => window_id,
            None => {
                return Ok(());
            },
        };
        let placement = match self.windows.get(window_id.0) {
            Some(placement) => *placement,
            None => {
                return Ok(());
            },
        };
        let area = match work_area_of(&self.displays, placement.display_id) {
            Some(area) => area,
            None => {
                return Ok(());
            },
        };
        let (zone, _) = self.zone_for(&placement, direction, Ghost(window_id.0));
        let raw = match a.zone(area, zone) {
            Ok(raw) => raw,
            Err(question) => {
                return Err(question);
            },
        };
        match a.gapped(raw, area, self.resolved_config.gaps) {
            Ok(bounds) => self.snap(a, window_id, direction, bounds),
            Err(question) => Err(question),
        }
    }

    pub fn bounds_observed(&mut self, window_id: WindowId, display_id: DisplayId, bounds: Rect)
        ensures
            final(self)@ == old(self)@.on_bounds_observed(window_id, display_id, bounds),
    {
        proof {
            reveal(Model::on_bounds_observed);
        }
        let mut placement = match self.windows.get(window_id.0) {
            Some(placement) => *placement,
            None => {
                return;
            },
        };
        let moved = placement.observed_bounds != bounds;
        let agrees = placement.display_id == display_id && placement.bounds == bounds;
        let reset = !agrees && placement.cycle_step.is_some();
        placement.observed_bounds = bounds;
        if !agrees {
            placement.cycle_step = None;
        }
        self.windows.insert(window_id.0, placement);
        if moved || reset {
            self.revise();
        }
    }

    pub fn drag_started(&mut self, window_id: WindowId)
        ensures
            final(self)@ == old(self)@.on_drag_started(window_id),
    {
        let home = match self.inventory.get(window_id.0) {
            Some(managed) => Some(managed.window.display_id),
            None => match self.windows.get(window_id.0) {
                Some(placement) => Some(placement.display_id),
                None => None,
            },
        };
        match home {
            Some(display_id) => {
                self.interactive_placement = Some(
                    InteractivePlacementSession { window_id, display_id },
                );
                self.revise();
            },
            None => {},
        }
    }

    fn was_placed_since(&self, window_id: WindowId, start: usize) -> (found: bool)
        ensures
            found == self@.placed_since(window_id, start as nat),
    {
        let mut k: usize = start;
        while k < self.effects.len()
            invariant
                start <= k,
                forall|j: int|
                    start <= j < k && j < self.effects@.len() ==> !places(
                        #[trigger] self.effects@[j],
                        window_id,
                    ),
            decreases self.effects@.len() - k,
        {
            match self.effects[k] {
                EngineEffect::PlaceWindow { window_id: id, .. } => {
                    if id == window_id {
                        assert(places(self@.effects[k as int], window_id));
                        return true;
                    }
                },
                _ => {},
            }
            k += 1;
        }
        false
    }

    pub fn drag_ended(&mut self, a: &Answers, window_id: WindowId, committed: bool) -> (reply:
        Result<(), Question>)
        ensures
            reached(reply, final(self)@, old(self)@.on_drag_ended(*a, window_id, committed)),
    {
        proof {
            reveal(Model::on_drag_ended);
        }
        match self.interactive_placement {
            Some(session) => {
                if session.window_id != window_id {
                    return Ok(());
                }
            },
            None => {
                return Ok(());
            },
        }
        self.interactive_placement = None;
        self.deferred_reflow_displays.clear();
        let reply = if committed {
            self.reconcile_arrangements(a)
        } else {
            self.arrange_and_place(a, window_id)
        };
        match reply {
            Ok(_) => {
                self.revise();
                Ok(())
            },
            Err(question) => Err(question),
        }
    }

    pub fn startup(&mut self, windows: &Vec<ObservedPlacement>)
        ensures
            final(self)@ == old(self)@.on_startup(windows@),
    {
        proof {
            reveal(Model::on_startup);
        }
        let ghost total = self@.startup_tracked(windows@, 0);
        let mut registered = false;
        let mut i: usize = 0;
        while i < windows.len()
            invariant
                i <= windows@.len(),
                total == old(self)@.startup_tracked(windows@, 0),
                self@.startup_tracked(windows@, i as int) == total,
                !registered ==> self@ == old(self)@,
                registered == exists|k: int|
                    0 <= k < i && !old(self)@.windows.contains_key(
                        (#[trigger] windows@[k]).window_id.0,
                    ),
                forall|id: isize| #[trigger]
                    old(self)@.windows.contains_key(id) ==> self@.windows.contains_key(id),
                forall|k: int|
                    0 <= k < i ==> self@.windows.contains_key(
                        (#[trigger] windows@[k]).window_id.0,
                    ),
                forall|id: isize| #[trigger]
                    self@.windows.contains_key(id) ==> old(self)@.windows.contains_key(id)
                        || exists|k: int| 0 <= k < i && (#[trigger] windows@[k]).window_id.0 == id,
            decreases windows@.len() - i,
        {
            let window = windows[i];
            if !self.windows.contains_key(window.window_id.0) {
                self.windows.insert(window.window_id.0, track(window.display_id, window.bounds));
                registered = true;
            }
            i += 1;
        }
        if registered {
            self.revise();
        }
    }

    pub fn placement_rejected(&mut self, a: &Answers, window_id: WindowId) -> (reply: Result<
        (),
        Question,
    >)
        ensures
            reached(reply, final(self)@, old(self)@.on_rejected(*a, window_id)),
    {
        proof {
            reveal(Model::on_rejected);
        }
        let mut placement = match self.windows.get(window_id.0) {
            Some(placement) => *placement,
            None => {
                return Ok(());
            },
        };
        if placement.rejection_count == u8::MAX {
            return Ok(());
        }
        let count: u8 = placement.rejection_count + 1;
        placement.rejection_count = count;
        self.windows.insert(window_id.0, placement);
        if count == CIRCUIT_BREAKER_THRESHOLD {
            self.set_eligibility(window_id, EligibilityReason::CircuitOpen);
            self.arrange_and_revise(a)
        } else {
            self.revise();
            Ok(())
        }
    }

    pub fn placement_accepted(&mut self, window_id: WindowId)
        ensures
            final(self)@ == old(self)@.on_accepted(window_id),
    {
        proof {
            reveal(Model::on_accepted);
        }
        let mut placement = match self.windows.get(window_id.0) {
            Some(placement) => *placement,
            None => {
                return;
            },
        };
        if placement.rejection_count == 0 {
            return;
        }
        placement.rejection_count = 0;
        self.windows.insert(window_id.0, placement);
        let reason = match self.inventory.get(window_id.0) {
            Some(managed) => eligibility_for(&managed.window, managed.action, false),
            None => EligibilityReason::Eligible,
        };
        self.set_eligibility(window_id, reason);
        self.revise();
    }

    fn place_layout(&mut self, placements: &Vec<PlannedPlacement>, display_id: DisplayId)
        -> (placed: Vec<WindowId>)
        ensures
            (final(self)@, placed@) == old(self)@.layout_placed(
                placements@,
                display_id,
                0,
                Seq::empty(),
            ),
    {
        let ghost total = self@.layout_placed(placements@, display_id, 0, Seq::empty());
        let mut placed: Vec<WindowId> = Vec::new();
        let mut i: usize = 0;
        while i < placements.len()
            invariant
                i <= placements@.len(),
                self@.layout_placed(placements@, display_id, i as int, placed@) == total,
            decreases placements@.len() - i,
        {
            let window_id = placements[i].window_id;
            if self.place_window(window_id, display_id, placements[i].bounds, None) {
                placed.push(window_id);
            }
            i += 1;
        }
        placed
    }

    fn float_all(&mut self, windows: &Vec<WindowId>)
        ensures
            final(self)@ == old(self)@.all_floated(windows@, 0),
    {
        let ghost total = self@.all_floated(windows@, 0);
        let mut i: usize = 0;
        while i < windows.len()
            invariant
                i <= windows@.len(),
                self@.all_floated(windows@, i as int) == total,
            decreases windows@.len() - i,
        {
            self.set_session_floating(windows[i], true);
            i += 1;
        }
    }

    fn finish_layout(
        &mut self,
        a: &Answers,
        name: String,
        display_id: DisplayId,
        placed: &Vec<WindowId>,
    ) -> (reply: Result<(), Question>)
        ensures
            reached(
                reply,
                final(self)@,
                old(self)@.layout_finished(*a, name, display_id, placed@),
            ),
    {
        proof {
            reveal(Model::layout_finished);
        }
        if placed.len() > 0 {
            self.last_applied_layouts.insert(display_id.0, name);
            if self.automatic_tiling_active {
                self.float_all(placed);
                match self.reconcile_arrangements(a) {
                    Ok(_) => {},
                    Err(question) => {
                        return Err(question);
                    },
                }
            }
        }
        self.close_undo_scope(a)
    }

    pub fn apply_layout(&mut self, a: &Answers, name: String) -> (reply: Result<(), Question>)
        ensures
            reached(reply, final(self)@, old(self)@.on_layout(*a, name)),
    {
        proof {
            reveal(Model::on_layout);
        }
        match plan_saved_layout(self, a, &name) {
            Err(question) => Err(question),
            Ok(Err(_)) => Ok(()),
            Ok(Ok(plan)) => {
                self.open_undo_scope(CommandLabel::ApplyLayout(name.clone()));
                let placed = self.place_layout(&plan.placements, plan.display_id);
                self.finish_layout(a, name, plan.display_id, &placed)
            },
        }
    }
}

} // verus!
