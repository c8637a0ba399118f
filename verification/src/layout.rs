//! Saved layouts, and what needs moving on screen.

use vstd::prelude::*;
use vstd::string::*;

verus! {

use crate::answers::{Answers, LayoutCells, PlannedPlacement, Query, Question};
use crate::geometry::{DisplayId, Rect, WindowId};
use crate::ranking::{ordered, sort_ranked, Ranked};
use crate::state::{EngineState, Listed, Model};
use crate::table::{sorted, Table};
use crate::parking::holds;
use crate::text::{decimal, decimal_text, quote, quoted};
use crate::topology::{work_area, work_area_of};
use crate::window::{WindowLifecycle, WindowPlacement};
use crate::workspace::lemma_filter_step;

/// Why applying a saved layout changes nothing. Every variant names something
/// the user can act on.
#[derive(Debug, PartialEq)]
pub enum SavedLayoutRejection {
    /// Window management is paused.
    Paused,
    /// No saved layout carries this name in the resolved config.
    UnknownLayout { name: String },
    /// Focus rests on the desktop, on an excluded window, or nowhere.
    NoFocusedManagedWindow,
    /// There is no display target in the current usable topology.
    NoFocusedDisplay,
    /// The target display left the topology.
    DisplayUnavailable { display_id: DisplayId },
}

/// Says that no layout goes by the name that `shown` spells.
pub fn unknown_layout_text(shown: &String) -> (text: String)
    ensures
        text@ == "no saved layout named "@ + shown@,
{
    let mut text = "no saved layout named ".to_owned();
    text.append(shown.as_str());
    text
}

impl SavedLayoutRejection {
    /// The reason in words.
    pub open spec fn spelled(self) -> Seq<char> {
        match self {
            SavedLayoutRejection::Paused => "window management is paused"@,
            SavedLayoutRejection::UnknownLayout { name } => "no saved layout named "@ + quoted(
                name@,
            ),
            SavedLayoutRejection::NoFocusedManagedWindow =>
                "no managed window is focused, so there is no display to apply a layout to"@,
            SavedLayoutRejection::NoFocusedDisplay =>
                "no display is focused, so there is no display to apply a layout to"@,
            SavedLayoutRejection::DisplayUnavailable { display_id } =>
                "the focused window's display "@ + decimal(display_id.0 as int)
                    + " is no longer connected"@,
        }
    }

    pub fn text(&self) -> (text: String)
        ensures
            text@ == self.spelled(),
    {
        match self {
            SavedLayoutRejection::Paused => "window management is paused".to_owned(),
            SavedLayoutRejection::UnknownLayout { name } => unknown_layout_text(&quote(name)),
            SavedLayoutRejection::NoFocusedManagedWindow =>
                "no managed window is focused, so there is no display to apply a layout to".to_owned(),
            SavedLayoutRejection::NoFocusedDisplay =>
                "no display is focused, so there is no display to apply a layout to".to_owned(),
            SavedLayoutRejection::DisplayUnavailable { display_id } => {
                let mut text = "the focused window's display ".to_owned();
                text.append(decimal_text(display_id.0).as_str());
                text.append(" is no longer connected");
                text
            },
        }
    }
}

/// What applying a saved layout would do to the target display right now.
#[derive(Debug, PartialEq)]
pub struct SavedLayoutPlan {
    /// The one display every placement lands on.
    pub display_id: DisplayId,
    /// Cell *i* of the layout paired with window *i* of the display's visual
    /// window order, gaps already applied.
    pub placements: Vec<PlannedPlacement>,
    /// Managed windows on the display the layout had no cell for.
    pub unplaced: usize,
}

#[verifier::ext_equal]
pub ghost struct LayoutPlan {
    pub display_id: DisplayId,
    pub placements: Seq<PlannedPlacement>,
    pub unplaced: usize,
}

impl View for SavedLayoutPlan {
    type V = LayoutPlan;

    open spec fn view(&self) -> LayoutPlan {
        LayoutPlan {
            display_id: self.display_id,
            placements: self.placements@,
            unplaced: self.unplaced,
        }
    }
}

/// A plan that may need an answer first, against what it should be.
pub open spec fn told_plan<T: View, E>(
    plan: Result<Result<T, E>, Question>,
    expected: Result<Result<T::V, E>, Query>,
) -> bool {
    match (plan, expected) {
        (Ok(Ok(value)), Ok(Ok(view))) => value@ == view,
        (Ok(Err(error)), Ok(Err(other))) => error == other,
        (Err(question), Err(query)) => question@ == query,
        _ => false,
    }
}

impl Model {
    /// Whether a window has something on screen of `display_id` to place.
    pub open spec fn placeable(self, display_id: DisplayId, id: isize) -> bool {
        self.inventory.contains_key(id) && self.inventory[id].window.display_id == display_id && (
        self.inventory[id].window.lifecycle == WindowLifecycle::Active
            || self.inventory[id].window.lifecycle == WindowLifecycle::Maximized)
    }

    pub open spec fn placeable_entry(self, display_id: DisplayId) -> spec_fn(Listed) -> bool {
        |entry: Listed| entry.display_id == display_id && self.placeable(display_id, entry.window_id.0)
    }

    /// The order the engine already recorded for a display.
    pub open spec fn recorded_order(self, display_id: DisplayId) -> Seq<WindowId> {
        self.order.filter(self.placeable_entry(display_id)).map_values(
            |entry: Listed| entry.window_id,
        )
    }

    pub open spec fn unrecorded(self, display_id: DisplayId) -> spec_fn(isize) -> bool {
        |id: isize|
            self.placeable(display_id, id) && !self.recorded_order(display_id).contains(
                WindowId(id),
            )
    }

    /// Top to bottom, then left to right, then by handle.
    pub open spec fn reading_rank(self) -> spec_fn(isize) -> Ranked {
        |id: isize|
            Ranked {
                first: self.inventory[id].window.bounds.y as i64,
                second: self.inventory[id].window.bounds.x as i64,
                third: 0,
                id,
            }
    }

    /// A display's managed windows in visual order: whatever order was
    /// recorded, then the others in reading order.
    pub open spec fn window_order(self, display_id: DisplayId) -> Seq<WindowId> {
        let rest = ordered(
            sorted(self.inventory.dom()).filter(self.unrecorded(display_id)).map_values(
                self.reading_rank(),
            ).to_set(),
        );
        self.recorded_order(display_id) + rest.map_values(|item: Ranked| WindowId(item.id))
    }

    /// The display a layout lands on: the focused managed window's, or the
    /// focused one where no managed window has the focus.
    pub open spec fn layout_display(self) -> Option<DisplayId> {
        match self.focused_window {
            Some(window_id) => if self.inventory.contains_key(window_id.0) {
                Some(self.inventory[window_id.0].window.display_id)
            } else {
                self.focused_display
            },
            None => self.focused_display,
        }
    }

    /// Window `k` and those after it paired with their cells.
    pub open spec fn celled(
        self,
        a: Answers,
        windows: Seq<WindowId>,
        cells: Seq<Rect>,
        area: Rect,
        k: int,
        done: Seq<PlannedPlacement>,
    ) -> Result<Seq<PlannedPlacement>, Query>
        decreases windows.len() - k,
    {
        if k >= windows.len() || k >= cells.len() {
            Ok(done)
        } else {
            match a.gapped_spec(cells[k], area, self.config.gaps) {
                Err(query) => Err(query),
                Ok(bounds) => self.celled(
                    a,
                    windows,
                    cells,
                    area,
                    k + 1,
                    done.push(PlannedPlacement { window_id: windows[k], bounds }),
                ),
            }
        }
    }

    /// The placements of saved layout `cells` on `display_id`.
    pub open spec fn layout_on(
        self,
        a: Answers,
        cells: LayoutCells,
        display_id: DisplayId,
        area: Rect,
    ) -> Result<LayoutPlan, Query> {
        let windows = self.window_order(display_id);
        match a.layout_spec(area, cells) {
            Err(query) => Err(query),
            Ok(cells) => match self.celled(a, windows, cells, area, 0, Seq::empty()) {
                Err(query) => Err(query),
                Ok(placements) => Ok(
                    LayoutPlan {
                        display_id,
                        placements,
                        unplaced: if windows.len() > cells.len() {
                            (windows.len() - cells.len()) as usize
                        } else {
                            0
                        },
                    },
                ),
            },
        }
    }

    #[verifier::opaque]
    pub open spec fn layout_plan(self, a: Answers, name: String) -> Result<
        Result<LayoutPlan, SavedLayoutRejection>,
        Query,
    > {
        if self.paused {
            Ok(Err(SavedLayoutRejection::Paused))
        } else {
            match self.config.layout(name@) {
                None => Ok(Err(SavedLayoutRejection::UnknownLayout { name })),
                Some(cells) => match self.layout_display() {
                    None => Ok(Err(SavedLayoutRejection::NoFocusedDisplay)),
                    Some(display_id) => match work_area(self.displays, display_id) {
                        None => Ok(Err(SavedLayoutRejection::DisplayUnavailable { display_id })),
                        Some(area) => match self.layout_on(a, cells, display_id, area) {
                            Ok(plan) => Ok(Ok(plan)),
                            Err(query) => Err(query),
                        },
                    },
                },
            }
        }
    }
}

impl EngineState {
    fn is_placeable(&self, display_id: DisplayId, window_id: WindowId) -> (placeable: bool)
        ensures
            placeable == self@.placeable(display_id, window_id.0),
    {
        match self.inventory.get(window_id.0) {
            Some(managed) => managed.window.display_id == display_id && (managed.window.lifecycle
                == WindowLifecycle::Active || managed.window.lifecycle
                == WindowLifecycle::Maximized),
            None => false,
        }
    }

    fn recorded_windows(&self, display_id: DisplayId) -> (windows: Vec<WindowId>)
        ensures
            windows@ == self@.recorded_order(display_id),
    {
        let ghost pred = self@.placeable_entry(display_id);
        let ghost window_of = |entry: Listed| entry.window_id;
        let ghost all = self.visual_window_order@;
        let mut windows: Vec<WindowId> = Vec::new();
        let mut i: usize = 0;
        while i < self.visual_window_order.len()
            invariant
                i <= self.visual_window_order@.len(),
                all == self.visual_window_order@,
                pred == self@.placeable_entry(display_id),
                window_of == (|entry: Listed| entry.window_id),
                windows@ == all.take(i as int).filter(pred).map_values(window_of),
            decreases self.visual_window_order@.len() - i,
        {
            let entry = self.visual_window_order[i];
            proof {
                lemma_filter_step(all, i as int, pred);
            }
            if entry.display_id == display_id && self.is_placeable(display_id, entry.window_id) {
                windows.push(entry.window_id);
                proof {
                    let shorter = all.take(i as int).filter(pred);
                    assert(shorter.push(entry).map_values(window_of) =~= shorter.map_values(
                        window_of,
                    ).push(entry.window_id));
                }
            }
            i += 1;
        }
        assert(all.take(all.len() as int) =~= all);
        windows
    }

    /// The display's managed windows in visual window order.
    ///
    /// A recorded order wins over the geometric seeding even when it
    /// disagrees with where the windows currently sit, so a layout applied
    /// twice puts the same window in the same cell.
    pub fn display_window_order(&self, display_id: DisplayId) -> (windows: Vec<WindowId>)
        ensures
            windows@ == self@.window_order(display_id),
    {
        let mut windows = self.recorded_windows(display_id);
        let ghost recorded = windows@;
        let keys = self.inventory.keys();
        let ghost all = keys@;
        let ghost pred = self@.unrecorded(display_id);
        let ghost rank = self@.reading_rank();
        let mut items: Vec<Ranked> = Vec::new();
        let mut i: usize = 0;
        while i < keys.len()
            invariant
                i <= keys@.len(),
                keys@ == all,
                keys@.to_set() == self.inventory@.dom(),
                windows@ == self@.recorded_order(display_id),
                pred == self@.unrecorded(display_id),
                rank == self@.reading_rank(),
                items@ == all.take(i as int).filter(pred).map_values(rank),
            decreases keys@.len() - i,
        {
            let id = keys[i];
            assert(keys@.to_set().contains(id));
            proof {
                lemma_filter_step(all, i as int, pred);
            }
            if self.is_placeable(display_id, WindowId(id)) && !holds(&windows, WindowId(id)) {
                match self.inventory.get(id) {
                    Some(managed) => {
                        items.push(
                            Ranked {
                                first: managed.window.bounds.y as i64,
                                second: managed.window.bounds.x as i64,
                                third: 0,
                                id,
                            },
                        );
                        proof {
                            let shorter = all.take(i as int).filter(pred);
                            assert(shorter.push(id).map_values(rank) =~= shorter.map_values(
                                rank,
                            ).push(rank(id)));
                        }
                    },
                    None => {},
                }
            }
            i += 1;
        }
        assert(all.take(all.len() as int) =~= all);
        let rest = sort_ranked(&items);
        let ghost tail = rest@.map_values(|item: Ranked| WindowId(item.id));
        let mut i: usize = 0;
        while i < rest.len()
            invariant
                i <= rest@.len(),
                tail == rest@.map_values(|item: Ranked| WindowId(item.id)),
                windows@ == recorded + tail.take(i as int),
            decreases rest@.len() - i,
        {
            windows.push(WindowId(rest[i].id));
            assert(windows@ =~= recorded + tail.take(i + 1));
            i += 1;
        }
        assert(tail.take(tail.len() as int) =~= tail);
        windows
    }

    fn pair_with_cells(
        &self,
        a: &Answers,
        windows: &Vec<WindowId>,
        cells: &Vec<Rect>,
        area: Rect,
    ) -> (reply: Result<Vec<PlannedPlacement>, Question>)
        ensures
            match (reply, self@.celled(*a, windows@, cells@, area, 0, Seq::empty())) {
                (Ok(placements), Ok(expected)) => placements@ == expected,
                (Err(question), Err(query)) => question@ == query,
                _ => false,
            },
    {
        let ghost total = self@.celled(*a, windows@, cells@, area, 0, Seq::empty());
        let mut placements: Vec<PlannedPlacement> = Vec::new();
        let mut k: usize = 0;
        while k < windows.len() && k < cells.len()
            invariant
                k <= windows@.len(),
                k <= cells@.len(),
                total == self@.celled(*a, windows@, cells@, area, 0, Seq::empty()),
                self@.celled(*a, windows@, cells@, area, k as int, placements@) == total,
            decreases windows@.len() - k,
        {
            match a.gapped(cells[k], area, self.resolved_config.gaps) {
                Ok(bounds) => {
                    placements.push(PlannedPlacement { window_id: windows[k], bounds });
                },
                Err(question) => {
                    return Err(question);
                },
            }
            k += 1;
        }
        Ok(placements)
    }

    /// The number of windows whose circuit breaker is currently open.
    pub fn circuit_breaker_count(&self) -> (count: usize)
        ensures
            count == sorted(self@.windows.dom()).filter(|id: isize| self@.breaker_open(id)).len(),
    {
        let keys = self.windows.keys();
        let ghost all = keys@;
        let ghost pred = |id: isize| self@.breaker_open(id);
        let mut count: usize = 0;
        let mut i: usize = 0;
        while i < keys.len()
            invariant
                i <= keys@.len(),
                keys@ == all,
                count <= i,
                pred == (|id: isize| self@.breaker_open(id)),
                count == all.take(i as int).filter(pred).len(),
            decreases keys@.len() - i,
        {
            proof {
                lemma_filter_step(all, i as int, pred);
            }
            if self.circuit_is_open(WindowId(keys[i])) {
                count += 1;
            }
            i += 1;
        }
        assert(all.take(all.len() as int) =~= all);
        count
    }
}

/// The placements applying the saved layout `name` would commit right now, or
/// the reason it would change nothing.
pub fn plan_saved_layout(state: &EngineState, a: &Answers, name: &String) -> (plan: Result<
    Result<SavedLayoutPlan, SavedLayoutRejection>,
    Question,
>)
    ensures
        told_plan(plan, state@.layout_plan(*a, *name)),
{
    proof {
        reveal(Model::layout_plan);
    }
    if state.paused {
        return Ok(Err(SavedLayoutRejection::Paused));
    }
    let layout = match state.resolved_config.layout(name) {
        Some(layout) => layout,
        None => {
            return Ok(Err(SavedLayoutRejection::UnknownLayout { name: name.clone() }));
        },
    };
    let target = match state.focused_window {
        Some(window_id) => match state.inventory.get(window_id.0) {
            Some(managed) => Some(managed.window.display_id),
            None => state.focused_display,
        },
        None => state.focused_display,
    };
    let display_id = match target {
        Some(display_id) => display_id,
        None => {
            return Ok(Err(SavedLayoutRejection::NoFocusedDisplay));
        },
    };
    let area = match work_area_of(&state.displays, display_id) {
        Some(area) => area,
        None => {
            return Ok(Err(SavedLayoutRejection::DisplayUnavailable { display_id }));
        },
    };
    let windows = state.display_window_order(display_id);
    let cells = match a.layout(area, layout) {
        Ok(cells) => cells,
        Err(question) => {
            return Err(question);
        },
    };
    let unplaced = if windows.len() > cells.len() {
        windows.len() - cells.len()
    } else {
        0
    };
    match state.pair_with_cells(a, &windows, cells, area) {
        Ok(placements) => Ok(Ok(SavedLayoutPlan { display_id, placements, unplaced })),
        Err(question) => Err(question),
    }
}

/// A native move that would catch the desktop up with the engine.
#[derive(Debug, Clone, Copy, PartialEq, Eq, Structural)]
pub struct PlacementDiff {
    pub window_id: WindowId,
    pub display_id: DisplayId,
    pub bounds: Rect,
}

/// Whether the window's current placement has yet to be carried out: its
/// breaker is closed, and it is new or somewhere else since `previous`.
pub open spec fn outdated(
    previous: Map<isize, WindowPlacement>,
    current: Map<isize, WindowPlacement>,
) -> spec_fn(isize) -> bool {
    |id: isize|
        current.contains_key(id) && !current[id].breaker_open() && (!previous.contains_key(id)
            || previous[id].display_id != current[id].display_id || previous[id].bounds
            != current[id].bounds)
}

pub open spec fn diff_of(current: Map<isize, WindowPlacement>) -> spec_fn(isize) -> PlacementDiff {
    |id: isize|
        PlacementDiff {
            window_id: WindowId(id),
            display_id: current[id].display_id,
            bounds: current[id].bounds,
        }
}

/// The windows in `current` that need a real move to catch up to the reducer:
/// new since `previous`, or moved or resized since, smallest handle first.
/// Windows whose circuit breaker is open are left out.
pub fn diff_placements(previous: &Table<WindowPlacement>, current: &Table<WindowPlacement>)
    -> (moves: Vec<PlacementDiff>)
    ensures
        moves@ == sorted(current@.dom()).filter(outdated(previous@, current@)).map_values(
            diff_of(current@),
        ),
{
    let keys = current.keys();
    let ghost all = keys@;
    let ghost pred = outdated(previous@, current@);
    let ghost diff = diff_of(current@);
    let mut moves: Vec<PlacementDiff> = Vec::new();
    let mut i: usize = 0;
    while i < keys.len()
        invariant
            i <= keys@.len(),
            keys@ == all,
            keys@.to_set() == current@.dom(),
            pred == outdated(previous@, current@),
            diff == diff_of(current@),
            moves@ == all.take(i as int).filter(pred).map_values(diff),
        decreases keys@.len() - i,
    {
        let id = keys[i];
        assert(keys@.to_set().contains(id));
        proof {
            lemma_filter_step(all, i as int, pred);
        }
        match current.get(id) {
            Some(placement) => {
                let moved = match previous.get(id) {
                    Some(prior) => prior.display_id != placement.display_id || prior.bounds
                        != placement.bounds,
                    None => true,
                };
                if !placement.circuit_open() && moved {
                    moves.push(
                        PlacementDiff {
                            window_id: WindowId(id),
                            display_id: placement.display_id,
                            bounds: placement.bounds,
                        },
                    );
                    proof {
                        let shorter = all.take(i as int).filter(pred);
                        assert(shorter.push(id).map_values(diff) =~= shorter.map_values(diff).push(
                            diff(id),
                        ));
                    }
                }
            },
            None => {},
        }
        i += 1;
    }
    assert(all.take(all.len() as int) =~= all);
    moves
}

} // verus!
