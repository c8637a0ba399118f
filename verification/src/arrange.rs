//! Which windows each display arranges, and the balanced grid.

use vstd::prelude::*;

verus! {

use crate::answers::{Answers, Query, Question};
use crate::geometry::{DisplayId, Rect, WindowId};
use crate::placement::reached;
use crate::ranking::{ordered, sort_ranked, Ranked};
use crate::state::{EngineState, Listed, Model};
use crate::table::sorted;
use crate::window::{EligibilityReason, ManageAction};
use crate::workspace::lemma_filter_step;

impl Model {
    /// The display a window should be arranged on: where its workspace is
    /// displayed, or nowhere while that workspace is hidden. A window that
    /// belongs to no workspace is arranged where it physically is.
    pub open spec fn arrangement_display(self, id: isize) -> Option<DisplayId> {
        match self.workspaces.workspace_of(id) {
            Some(name) => self.workspaces.display_of(name),
            None => if self.inventory.contains_key(id) {
                Some(self.inventory[id].window.display_id)
            } else {
                None
            },
        }
    }

    /// Whether a managed window takes part in tiling.
    pub open spec fn tiles(self, id: isize) -> bool {
        self.inventory.contains_key(id) && (self.inventory[id].action == ManageAction::Tile
            || self.session_tiled.contains(id))
    }

    /// Whether an entry of the visual order still stands.
    pub open spec fn stays_listed(self) -> spec_fn(Listed) -> bool {
        |entry: Listed|
            self.tiles(entry.window_id.0) && self.arrangement_display(entry.window_id.0) == Some(
                entry.display_id,
            )
    }

    pub open spec fn arrangeable(self) -> spec_fn(isize) -> bool {
        |id: isize| self.tiles(id) && self.arrangement_display(id) is Some
    }

    /// New windows line up by display, top to bottom, left to right, and by
    /// handle.
    pub open spec fn tiling_rank(self) -> spec_fn(isize) -> Ranked {
        |id: isize|
            Ranked {
                first: (self.arrangement_display(id)->0).0 as i64,
                second: self.inventory[id].window.bounds.y as i64,
                third: self.inventory[id].window.bounds.x as i64,
                id,
            }
    }

    pub open spec fn lined_up(self) -> Seq<Ranked> {
        ordered(
            sorted(self.inventory.dom()).filter(self.arrangeable()).map_values(
                self.tiling_rank(),
            ).to_set(),
        )
    }

    /// The visual order with every window of `line` from `i` on listed.
    pub open spec fn listed(self, order: Seq<Listed>, line: Seq<Ranked>, i: int) -> Seq<Listed>
        decreases line.len() - i,
    {
        if i >= line.len() {
            order
        } else {
            let entry = Listed {
                display_id: self.arrangement_display(line[i].id)->0,
                window_id: WindowId(line[i].id),
            };
            if order.contains(entry) {
                self.listed(order, line, i + 1)
            } else {
                self.listed(order.push(entry), line, i + 1)
            }
        }
    }

    /// The visual order brought up to date: entries that no longer stand are
    /// dropped, and windows it does not mention join at the end.
    pub open spec fn refreshed(self) -> Model {
        Model {
            order: self.listed(self.order.filter(self.stays_listed()), self.lined_up(), 0),
            ..self
        }
    }

    pub open spec fn is_active(self, display_id: DisplayId) -> spec_fn(Listed) -> bool {
        |entry: Listed|
            entry.display_id == display_id && self.stays_listed()(entry)
                && self.inventory[entry.window_id.0].eligibility == EligibilityReason::Eligible
    }

    /// The windows a display currently arranges, in visual order.
    pub open spec fn active_on(self, display_id: DisplayId) -> Seq<WindowId> {
        self.order.filter(self.is_active(display_id)).map_values(
            |entry: Listed| entry.window_id,
        )
    }

    /// Whether a display's reflow must wait for a drag to finish.
    pub open spec fn defers(self, display_id: DisplayId) -> bool {
        match self.interactive {
            Some(session) => session.display_id == display_id,
            None => false,
        }
    }

    pub open spec fn deferred_for(self, display_id: DisplayId) -> Model {
        Model { deferred: self.deferred.insert(display_id.0), ..self }
    }

    /// The window at `bounds`, placed only if it is not there already.
    pub open spec fn arranged_at(
        self,
        window_id: WindowId,
        display_id: DisplayId,
        bounds: Rect,
    ) -> Model {
        if self.current_placement(window_id.0) == Some((display_id, bounds)) {
            self
        } else {
            self.placed(window_id, display_id, bounds, None)
        }
    }

    /// Window `k` and those after it put into their cells.
    pub open spec fn tiled(
        self,
        a: Answers,
        windows: Seq<WindowId>,
        cells: Seq<Rect>,
        k: int,
        display_id: DisplayId,
        area: Rect,
    ) -> Result<Model, Query>
        decreases windows.len() - k,
    {
        if k >= windows.len() || k >= cells.len() {
            Ok(self)
        } else {
            match a.gapped_spec(cells[k], area, self.config.gaps) {
                Ok(bounds) => self.arranged_at(windows[k], display_id, bounds).tiled(
                    a,
                    windows,
                    cells,
                    k + 1,
                    display_id,
                    area,
                ),
                Err(query) => Err(query),
            }
        }
    }

    /// Every display from `i` on put into its balanced grid, with the windows
    /// that `base` has active there.
    pub open spec fn gridded(self, a: Answers, base: Model, i: int) -> Result<Model, Query>
        decreases base.displays.len() - i,
    {
        if i >= base.displays.len() {
            Ok(self)
        } else {
            let display = base.displays[i];
            if self.defers(display.id) {
                self.deferred_for(display.id).gridded(a, base, i + 1)
            } else {
                let windows = base.active_on(display.id);
                match a.grid_spec(display.work_area, windows.len() as usize) {
                    Ok(cells) => match self.tiled(
                        a,
                        windows,
                        cells,
                        0,
                        display.id,
                        display.work_area,
                    ) {
                        Ok(next) => next.gridded(a, base, i + 1),
                        Err(query) => Err(query),
                    },
                    Err(query) => Err(query),
                }
            }
        }
    }

    /// What the balanced grid starts from: it keeps no structure between
    /// reflows, so there are neither trees nor windows that do not fit.
    pub open spec fn unstructured(self) -> Model {
        Model { constraint_overflow: Seq::empty(), trees: Map::empty(), ..self }
    }

    pub open spec fn balanced(self, a: Answers) -> Result<Model, Query> {
        if !self.tiling_active || self.paused {
            Ok(self)
        } else {
            let base = self.unstructured().refreshed();
            base.gridded(a, base, 0)
        }
    }
}

/// The windows one display arranges.
pub struct TilingSet {
    pub display_id: DisplayId,
    pub work_area: Rect,
    pub windows: Vec<WindowId>,
}

/// `sets` are what `model` has active on each of its displays.
pub open spec fn tiling_sets_of(model: Model, sets: Seq<TilingSet>) -> bool {
    &&& sets.len() == model.displays.len()
    &&& forall|i: int|
        0 <= i < sets.len() ==> (#[trigger] sets[i]).display_id == model.displays[i].id
            && sets[i].work_area == model.displays[i].work_area && sets[i].windows@
            == model.active_on(model.displays[i].id)
}

impl EngineState {
    pub fn arrangement_display_of(&self, window_id: WindowId) -> (display_id: Option<DisplayId>)
        ensures
            display_id == self@.arrangement_display(window_id.0),
    {
        match self.workspaces.workspace_of(window_id.0) {
            Some(name) => self.workspaces.display_of(name),
            None => match self.inventory.get(window_id.0) {
                Some(managed) => Some(managed.window.display_id),
                None => None,
            },
        }
    }

    pub fn takes_part(&self, window_id: WindowId) -> (tiles: bool)
        ensures
            tiles == self@.tiles(window_id.0),
    {
        match self.inventory.get(window_id.0) {
            Some(managed) => managed.action == ManageAction::Tile || self.session_tiled.contains(
                window_id.0,
            ),
            None => false,
        }
    }

    fn entry_stands(&self, entry: &Listed) -> (stands: bool)
        ensures
            stands == self@.stays_listed()(*entry),
    {
        if !self.takes_part(entry.window_id) {
            return false;
        }
        match self.arrangement_display_of(entry.window_id) {
            Some(display_id) => display_id == entry.display_id,
            None => false,
        }
    }

    /// Every window that should be arranged somewhere, in line.
    fn line_up(&self) -> (line: Vec<Ranked>)
        ensures
            line@ == self@.lined_up(),
            forall|i: int|
                0 <= i < line@.len() ==> self@.arrangement_display(
                    (#[trigger] line@[i]).id,
                ) is Some,
    {
        let keys = self.inventory.keys();
        let ghost all = keys@;
        let ghost pred = self@.arrangeable();
        let ghost rank = self@.tiling_rank();
        let mut items: Vec<Ranked> = Vec::new();
        let mut i: usize = 0;
        while i < keys.len()
            invariant
                i <= keys@.len(),
                keys@ == all,
                keys@.to_set() == self.inventory@.dom(),
                pred == self@.arrangeable(),
                rank == self@.tiling_rank(),
                items@ == all.take(i as int).filter(pred).map_values(rank),
                forall|j: int|
                    0 <= j < items@.len() ==> self@.arrangement_display(
                        (#[trigger] items@[j]).id,
                    ) is Some,
            decreases keys@.len() - i,
        {
            let id = keys[i];
            assert(keys@.to_set().contains(id));
            proof {
                lemma_filter_step(all, i as int, pred);
            }
            if self.takes_part(WindowId(id)) {
                match (self.arrangement_display_of(WindowId(id)), self.inventory.get(id)) {
                    (Some(display_id), Some(managed)) => {
                        let item = Ranked {
                            first: display_id.0 as i64,
                            second: managed.window.bounds.y as i64,
                            third: managed.window.bounds.x as i64,
                            id,
                        };
                        items.push(item);
                        proof {
                            let shorter = all.take(i as int).filter(pred);
                            assert(shorter.push(id).map_values(rank) =~= shorter.map_values(
                                rank,
                            ).push(rank(id)));
                        }
                    },
                    _ => {},
                }
            }
            i += 1;
        }
        assert(all.take(all.len() as int) =~= all);
        let line = sort_ranked(&items);
        assert forall|i: int| 0 <= i < line@.len() implies self@.arrangement_display(
            (#[trigger] line@[i]).id,
        ) is Some by {
            assert(line@.to_set().contains(line@[i]));
            assert(items@.to_set().contains(line@[i]));
        }
        line
    }

    /// Brings the visual window order up to date and returns the windows each
    /// display should currently arrange.
    pub fn refresh_tiling_sets(&mut self) -> (sets: Vec<TilingSet>)
        ensures
            final(self)@ == old(self)@.refreshed(),
            tiling_sets_of(final(self)@, sets@),
    {
        let ghost start = self@;
        let line = self.line_up();
        let mut order: Vec<Listed> = Vec::new();
        let mut i: usize = 0;
        while i < self.visual_window_order.len()
            invariant
                i <= self.visual_window_order@.len(),
                *self == *old(self),
                start == self@,
                order@ == start.order.take(i as int).filter(start.stays_listed()),
            decreases self.visual_window_order@.len() - i,
        {
            proof {
                lemma_filter_step(start.order, i as int, start.stays_listed());
            }
            if self.entry_stands(&self.visual_window_order[i]) {
                order.push(self.visual_window_order[i]);
            }
            i += 1;
        }
        assert(start.order.take(start.order.len() as int) =~= start.order);
        let mut i: usize = 0;
        while i < line.len()
            invariant
                i <= line@.len(),
                *self == *old(self),
                start == self@,
                forall|k: int|
                    0 <= k < line@.len() ==> start.arrangement_display(
                        (#[trigger] line@[k]).id,
                    ) is Some,
                start.listed(order@, line@, i as int) == start.listed(
                    start.order.filter(start.stays_listed()),
                    line@,
                    0,
                ),
            decreases line@.len() - i,
        {
            let window_id = WindowId(line[i].id);
            assert(start.arrangement_display(line@[i as int].id) is Some);
            match self.arrangement_display_of(window_id) {
                Some(display_id) => {
                    let entry = Listed { display_id, window_id };
                    if !lists(&order, entry) {
                        order.push(entry);
                    }
                },
                None => {},
            }
            i += 1;
        }
        self.visual_window_order = order;
        let mut sets: Vec<TilingSet> = Vec::new();
        let mut i: usize = 0;
        while i < self.displays.len()
            invariant
                i <= self.displays@.len(),
                self@ == start.refreshed(),
                sets@.len() == i,
                forall|k: int|
                    0 <= k < i ==> (#[trigger] sets@[k]).display_id == self@.displays[k].id
                        && sets@[k].work_area == self@.displays[k].work_area && sets@[k].windows@
                        == self@.active_on(self@.displays[k].id),
            decreases self.displays@.len() - i,
        {
            let display_id = self.displays[i].id;
            let windows = self.active_windows(display_id);
            sets.push(TilingSet { display_id, work_area: self.displays[i].work_area, windows });
            i += 1;
        }
        sets
    }

    /// The windows a display currently arranges, in visual order.
    pub fn active_windows(&self, display_id: DisplayId) -> (windows: Vec<WindowId>)
        ensures
            windows@ == self@.active_on(display_id),
    {
        let ghost pred = self@.is_active(display_id);
        let ghost window_of = |entry: Listed| entry.window_id;
        let ghost all = self.visual_window_order@;
        let mut windows: Vec<WindowId> = Vec::new();
        let mut i: usize = 0;
        while i < self.visual_window_order.len()
            invariant
                i <= self.visual_window_order@.len(),
                all == self.visual_window_order@,
                pred == self@.is_active(display_id),
                window_of == (|entry: Listed| entry.window_id),
                windows@ == all.take(i as int).filter(pred).map_values(window_of),
            decreases self.visual_window_order@.len() - i,
        {
            let entry = self.visual_window_order[i];
            proof {
                lemma_filter_step(all, i as int, pred);
            }
            if entry.display_id == display_id && self.entry_stands(&entry) {
                match self.inventory.get(entry.window_id.0) {
                    Some(managed) => {
                        if managed.eligibility == EligibilityReason::Eligible {
                            windows.push(entry.window_id);
                            proof {
                                let shorter = all.take(i as int).filter(pred);
                                assert(shorter.push(entry).map_values(window_of)
                                    =~= shorter.map_values(window_of).push(entry.window_id));
                            }
                        }
                    },
                    None => {},
                }
            }
            i += 1;
        }
        assert(all.take(all.len() as int) =~= all);
        windows
    }

    /// Whether this display's reflow must wait; if it must, that is noted.
    pub fn defer_reflow(&mut self, display_id: DisplayId) -> (waits: bool)
        ensures
            waits == old(self)@.defers(display_id),
            final(self)@ == if waits {
                old(self)@.deferred_for(display_id)
            } else {
                old(self)@
            },
    {
        match self.interactive_placement {
            Some(session) => {
                if session.display_id == display_id {
                    self.deferred_reflow_displays.insert(display_id.0);
                    return true;
                }
                false
            },
            None => false,
        }
    }

    /// Places the window unless it is there already.
    pub fn arrange_at(&mut self, window_id: WindowId, display_id: DisplayId, bounds: Rect)
        ensures
            final(self)@ == old(self)@.arranged_at(window_id, display_id, bounds),
    {
        let unchanged = match self.windows.get(window_id.0) {
            Some(placement) => placement.display_id == display_id && placement.bounds == bounds,
            None => false,
        };
        if !unchanged {
            self.place_window(window_id, display_id, bounds, None);
        }
    }

    fn tile(
        &mut self,
        a: &Answers,
        windows: &Vec<WindowId>,
        cells: &Vec<Rect>,
        display_id: DisplayId,
        area: Rect,
    ) -> (reply: Result<(), Question>)
        ensures
            reached(
                reply,
                final(self)@,
                old(self)@.tiled(*a, windows@, cells@, 0, display_id, area),
            ),
    {
        let ghost start = self@;
        let mut k: usize = 0;
        while k < windows.len() && k < cells.len()
            invariant
                k <= windows@.len(),
                k <= cells@.len(),
                start == old(self)@,
                self@.tiled(*a, windows@, cells@, k as int, display_id, area) == start.tiled(
                    *a,
                    windows@,
                    cells@,
                    0,
                    display_id,
                    area,
                ),
            decreases windows@.len() - k,
        {
            match a.gapped(cells[k], area, self.resolved_config.gaps) {
                Ok(bounds) => {
                    self.arrange_at(windows[k], display_id, bounds);
                },
                Err(question) => {
                    return Err(question);
                },
            }
            k += 1;
        }
        Ok(())
    }

    /// Reflows every display's balanced grid.
    pub fn reconcile_balanced_grids(&mut self, a: &Answers) -> (reply: Result<(), Question>)
        ensures
            reached(reply, final(self)@, old(self)@.balanced(*a)),
    {
        if !self.automatic_tiling_active || self.paused {
            return Ok(());
        }
        self.constraint_overflow = Vec::new();
        assert(self.constraint_overflow@ =~= Seq::empty());
        self.trees.clear();
        let sets = self.refresh_tiling_sets();
        let ghost base = self@;
        assert(base == old(self)@.unstructured().refreshed());
        let mut i: usize = 0;
        while i < sets.len()
            invariant
                i <= sets@.len(),
                tiling_sets_of(base, sets@),
                old(self)@.balanced(*a) == base.gridded(*a, base, 0),
                self@.gridded(*a, base, i as int) == base.gridded(*a, base, 0),
            decreases sets@.len() - i,
        {
            let set = &sets[i];
            assert(set.display_id == base.displays[i as int].id);
            if !self.defer_reflow(set.display_id) {
                match a.grid(set.work_area, set.windows.len()) {
                    Ok(cells) => {
                        match self.tile(a, &set.windows, cells, set.display_id, set.work_area) {
                            Ok(_) => {},
                            Err(question) => {
                                return Err(question);
                            },
                        }
                    },
                    Err(question) => {
                        return Err(question);
                    },
                }
            }
            i += 1;
        }
        Ok(())
    }
}

/// Whether `order` holds `entry`.
pub fn lists(order: &Vec<Listed>, entry: Listed) -> (found: bool)
    ensures
        found == order@.contains(entry),
{
    let mut i: usize = 0;
    while i < order.len()
        invariant
            i <= order@.len(),
            forall|j: int| 0 <= j < i ==> order@[j] != entry,
        decreases order@.len() - i,
    {
        if order[i] == entry {
            return true;
        }
        i += 1;
    }
    false
}

} // verus!
