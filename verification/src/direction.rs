//! Directional focus and swap, tree resizing, and removing dormant positions.

use vstd::prelude::*;

verus! {

use crate::answers::{told, Answers, ContainerTree, DividerChange, DormantSlot, Query, Question, TreePlan};
use crate::commands::CommandLabel;
use crate::config::TilingMode;
use crate::geometry::{
    divider, divider_for, doubled_center, doubled_center_of, CardinalDirection, DisplayId, Rect,
    WindowId,
};
use crate::arrange::lists;
use crate::parking::holds;
use crate::state::{EngineState, Listed, Model};
use crate::text::{first_index, lemma_first_hit};
use crate::topology::{work_area, work_area_of};
use crate::window::EligibilityReason;
use crate::workspace::lemma_filter_step;

/// How far one resize moves a divider, in percentage points.
pub const TREE_RESIZE_STEP_PERCENT: u32 = 5;

/// What a directional swap exchanges.
#[derive(Debug, PartialEq)]
pub struct DirectionalSwapApplied {
    pub command: CommandLabel,
    pub display_id: DisplayId,
    pub window_id: WindowId,
    pub neighbor_id: WindowId,
}

/// Why a directional swap does nothing.
#[derive(Debug, PartialEq)]
pub enum DirectionalSwapRefusal {
    Paused,
    NoFocusedWindow,
    DisplayUnavailable { display_id: DisplayId },
    NotArranged { window_id: WindowId },
    NoNeighbor { command: CommandLabel },
}

/// What a tree resize did.
#[derive(Debug, PartialEq)]
pub struct TreeResizeApplied {
    pub command: CommandLabel,
    pub display_id: DisplayId,
    pub window_id: WindowId,
    pub percentage_points: u32,
    pub change: DividerChange,
}

/// Why a tree resize does nothing.
#[derive(Debug, PartialEq)]
pub enum TreeResizeRefusal {
    Paused,
    NotTreeMode,
    NoFocusedWindow,
    DisplayUnavailable { display_id: DisplayId },
    NotArranged { window_id: WindowId },
    NoDivider { command: CommandLabel },
    MinimumSizeReached { command: CommandLabel },
}

/// A resize the reducer would apply: the typed outcome to report, and the
/// reshaped tree to adopt.
#[derive(Debug, PartialEq)]
pub struct TreeResizePlan {
    pub applied: TreeResizeApplied,
    pub tree: ContainerTree,
}

/// What removing a dormant position forgets.
#[derive(Debug, PartialEq)]
pub struct RemovePositionApplied {
    pub display_id: DisplayId,
    pub position: u64,
    pub application: String,
}

/// Why removing a dormant position does nothing.
#[derive(Debug, PartialEq)]
pub enum RemovePositionRefusal {
    Paused,
    NotTreeMode,
    DisplayUnavailable { display_id: DisplayId },
    UnknownPosition { display_id: DisplayId, position: u64 },
}

/// How far `to` lies from `from` in a direction: along it, and across it.
/// Nothing lies in a direction that is not strictly that way.
pub open spec fn offset(direction: CardinalDirection, from: Rect, to: Rect) -> Option<(int, int)> {
    let (fx, fy) = doubled_center(from);
    let (tx, ty) = doubled_center(to);
    let across_y = if fy >= ty {
        fy - ty
    } else {
        ty - fy
    };
    let across_x = if fx >= tx {
        fx - tx
    } else {
        tx - fx
    };
    match direction {
        CardinalDirection::Left => if tx < fx {
            Some((fx - tx, across_y))
        } else {
            None
        },
        CardinalDirection::Right => if tx > fx {
            Some((tx - fx, across_y))
        } else {
            None
        },
        CardinalDirection::Up => if ty < fy {
            Some((fy - ty, across_x))
        } else {
            None
        },
        CardinalDirection::Down => if ty > fy {
            Some((ty - fy, across_x))
        } else {
            None
        },
    }
}

pub fn offset_of(direction: CardinalDirection, from: Rect, to: Rect) -> (distance: Option<
    (i64, i64),
>)
    ensures
        match (distance, offset(direction, from, to)) {
            (Some(found), Some(expected)) => found.0 == expected.0 && found.1 == expected.1,
            (None, None) => true,
            _ => false,
        },
{
    let (fx, fy) = doubled_center_of(from);
    let (tx, ty) = doubled_center_of(to);
    let across_y: i64 = if fy >= ty {
        fy - ty
    } else {
        ty - fy
    };
    let across_x: i64 = if fx >= tx {
        fx - tx
    } else {
        tx - fx
    };
    match direction {
        CardinalDirection::Left => if tx < fx {
            Some((fx - tx, across_y))
        } else {
            None
        },
        CardinalDirection::Right => if tx > fx {
            Some((tx - fx, across_y))
        } else {
            None
        },
        CardinalDirection::Up => if ty < fy {
            Some((fy - ty, across_x))
        } else {
            None
        },
        CardinalDirection::Down => if ty > fy {
            Some((ty - fy, across_x))
        } else {
            None
        },
    }
}

/// A window found so far, with its distance.
pub ghost struct Neighbor {
    pub window_id: WindowId,
    pub along: int,
    pub across: int,
}

/// The nearer of two: along the direction first, across it second, and the
/// one found first where both agree.
pub open spec fn nearer(best: Option<Neighbor>, next: Neighbor) -> Option<Neighbor> {
    match best {
        None => Some(next),
        Some(found) => if next.along < found.along || (next.along == found.along && next.across
            < found.across) {
            Some(next)
        } else {
            Some(found)
        },
    }
}

impl Model {
    /// Whether a window occupies a live, actively arranged leaf of a
    /// display's tree: in it, and not in constraint overflow.
    pub open spec fn in_tree(self, a: Answers, display_id: DisplayId, window_id: WindowId) -> Result<
        bool,
        Query,
    > {
        if !self.trees.contains_key(display_id.0) {
            Ok(false)
        } else {
            match a.windows_spec(self.trees[display_id.0]) {
                Err(query) => Err(query),
                Ok(windows) => Ok(
                    windows.contains(window_id) && !self.constraint_overflow.contains(
                        Listed { display_id, window_id },
                    ),
                ),
            }
        }
    }

    /// Whether automatic tiling is currently producing container trees.
    pub open spec fn tree_mode(self) -> bool {
        self.config.tiling_mode == TilingMode::Tree && self.tiling_active
    }

    /// Whether a window can be an endpoint of a directional command: eligible
    /// for tiling and, in tree mode, actually arranged.
    pub open spec fn endpoint(self, a: Answers, display_id: DisplayId, window_id: WindowId) -> Result<
        bool,
        Query,
    > {
        let eligible = self.inventory.contains_key(window_id.0)
            && self.inventory[window_id.0].eligibility == EligibilityReason::Eligible
            && self.inventory[window_id.0].window.display_id == display_id;
        if !eligible {
            Ok(false)
        } else if !self.tree_mode() {
            Ok(true)
        } else {
            self.in_tree(a, display_id, window_id)
        }
    }

    pub open spec fn on_display(display_id: DisplayId) -> spec_fn(Listed) -> bool {
        |entry: Listed| entry.display_id == display_id
    }

    /// The nearest of the windows from `i` on, and the best found before.
    pub open spec fn nearest_in(
        self,
        a: Answers,
        direction: CardinalDirection,
        focused: WindowId,
        from: Rect,
        entries: Seq<Listed>,
        i: int,
        best: Option<Neighbor>,
    ) -> Result<Option<Neighbor>, Query>
        decreases entries.len() - i,
    {
        if i >= entries.len() {
            Ok(best)
        } else {
            let window_id = entries[i].window_id;
            if window_id == focused {
                self.nearest_in(a, direction, focused, from, entries, i + 1, best)
            } else {
                match self.endpoint(a, entries[i].display_id, window_id) {
                    Err(query) => Err(query),
                    Ok(endpoint) => if !endpoint || !self.windows.contains_key(window_id.0) {
                        self.nearest_in(a, direction, focused, from, entries, i + 1, best)
                    } else {
                        match offset(direction, from, self.windows[window_id.0].bounds) {
                            None => self.nearest_in(
                                a,
                                direction,
                                focused,
                                from,
                                entries,
                                i + 1,
                                best,
                            ),
                            Some((along, across)) => self.nearest_in(
                                a,
                                direction,
                                focused,
                                from,
                                entries,
                                i + 1,
                                nearer(best, Neighbor { window_id, along, across }),
                            ),
                        }
                    },
                }
            }
        }
    }

    /// The focused window's nearest display-local neighbor in a direction.
    #[verifier::opaque]
    pub open spec fn neighbor(self, a: Answers, direction: CardinalDirection) -> Result<
        Option<WindowId>,
        Query,
    > {
        match self.focused_window {
            None => Ok(None),
            Some(focused) => if !self.inventory.contains_key(focused.0) {
                Ok(None)
            } else {
                let display_id = self.inventory[focused.0].window.display_id;
                match self.endpoint(a, display_id, focused) {
                    Err(query) => Err(query),
                    Ok(endpoint) => if !endpoint || !self.windows.contains_key(focused.0) {
                        Ok(None)
                    } else {
                        match self.nearest_in(
                            a,
                            direction,
                            focused,
                            self.windows[focused.0].bounds,
                            self.order.filter(Model::on_display(display_id)),
                            0,
                            None,
                        ) {
                            Err(query) => Err(query),
                            Ok(None) => Ok(None),
                            Ok(Some(found)) => Ok(Some(found.window_id)),
                        }
                    },
                }
            },
        }
    }

    /// The display of the focused managed window.
    pub open spec fn focused_home(self) -> Option<(WindowId, DisplayId)> {
        match self.focused_window {
            Some(window_id) => if self.inventory.contains_key(window_id.0) {
                Some((window_id, self.inventory[window_id.0].window.display_id))
            } else {
                None
            },
            None => None,
        }
    }

    #[verifier::opaque]
    pub open spec fn swap_plan(self, a: Answers, direction: CardinalDirection) -> Result<
        Result<DirectionalSwapApplied, DirectionalSwapRefusal>,
        Query,
    > {
        let command = CommandLabel::Swap(direction);
        if self.paused {
            Ok(Err(DirectionalSwapRefusal::Paused))
        } else {
            match self.focused_home() {
                None => Ok(Err(DirectionalSwapRefusal::NoFocusedWindow)),
                Some((window_id, display_id)) => if work_area(self.displays, display_id) is None {
                    Ok(Err(DirectionalSwapRefusal::DisplayUnavailable { display_id }))
                } else {
                    match self.endpoint(a, display_id, window_id) {
                        Err(query) => Err(query),
                        Ok(endpoint) => if !endpoint {
                            Ok(Err(DirectionalSwapRefusal::NotArranged { window_id }))
                        } else {
                            match self.neighbor(a, direction) {
                                Err(query) => Err(query),
                                Ok(None) => Ok(Err(DirectionalSwapRefusal::NoNeighbor { command })),
                                Ok(Some(neighbor_id)) => Ok(
                                    Ok(
                                        DirectionalSwapApplied {
                                            command,
                                            display_id,
                                            window_id,
                                            neighbor_id,
                                        },
                                    ),
                                ),
                            }
                        },
                    }
                },
            }
        }
    }

    /// The plan of a tree as it would be laid out now.
    pub open spec fn tree_plan(self, a: Answers, tree: ContainerTree, area: Rect) -> Result<
        TreePlan,
        Query,
    > {
        match a.windows_spec(tree) {
            Err(query) => Err(query),
            Ok(windows) => a.plan_spec(tree, area, self.config.gaps, self.minimums(windows)),
        }
    }

    /// The largest step of at most `points` that is legal: it neither
    /// overflows a window that was arranged nor costs any decoration.
    pub open spec fn resized_by(
        self,
        a: Answers,
        direction: CardinalDirection,
        display_id: DisplayId,
        window_id: WindowId,
        area: Rect,
        tree: ContainerTree,
        current: TreePlan,
        points: nat,
    ) -> Result<Result<TreeResizePlan, TreeResizeRefusal>, Query>
        decreases points,
    {
        let command = CommandLabel::Resize(direction);
        let (axis, toward) = divider(direction);
        if points == 0 {
            Ok(Err(TreeResizeRefusal::MinimumSizeReached { command }))
        } else {
            let smaller = self.resized_by(
                a,
                direction,
                display_id,
                window_id,
                area,
                tree,
                current,
                (points - 1) as nat,
            );
            match a.resize_spec(tree, window_id, axis, toward, points as u32) {
                Err(query) => Err(query),
                Ok(None) => smaller,
                Ok(Some(resized)) => match self.tree_plan(a, resized.tree, area) {
                    Err(query) => Err(query),
                    Ok(plan) => if legal(current, plan) {
                        Ok(
                            Ok(
                                TreeResizePlan {
                                    applied: TreeResizeApplied {
                                        command,
                                        display_id,
                                        window_id,
                                        percentage_points: points as u32,
                                        change: resized.change,
                                    },
                                    tree: resized.tree,
                                },
                            ),
                        )
                    } else {
                        smaller
                    },
                },
            }
        }
    }

    /// The focused window's divider moved as far as is legal.
    pub open spec fn resize_in(
        self,
        a: Answers,
        direction: CardinalDirection,
        display_id: DisplayId,
        window_id: WindowId,
        area: Rect,
    ) -> Result<Result<TreeResizePlan, TreeResizeRefusal>, Query> {
        let (axis, toward) = divider(direction);
        let tree = self.trees[display_id.0];
        match a.divider_spec(tree, window_id, axis, toward) {
            Err(query) => Err(query),
            Ok(present) => if !present {
                Ok(Err(TreeResizeRefusal::NoDivider { command: CommandLabel::Resize(direction) }))
            } else {
                match self.tree_plan(a, tree, area) {
                    Err(query) => Err(query),
                    Ok(current) => self.resized_by(
                        a,
                        direction,
                        display_id,
                        window_id,
                        area,
                        tree,
                        current,
                        TREE_RESIZE_STEP_PERCENT as nat,
                    ),
                }
            },
        }
    }

    #[verifier::opaque]
    pub open spec fn resize_plan(self, a: Answers, direction: CardinalDirection) -> Result<
        Result<TreeResizePlan, TreeResizeRefusal>,
        Query,
    > {
        if self.paused {
            Ok(Err(TreeResizeRefusal::Paused))
        } else if !self.tree_mode() {
            Ok(Err(TreeResizeRefusal::NotTreeMode))
        } else {
            match self.focused_home() {
                None => Ok(Err(TreeResizeRefusal::NoFocusedWindow)),
                Some((window_id, display_id)) => match work_area(self.displays, display_id) {
                    None => Ok(Err(TreeResizeRefusal::DisplayUnavailable { display_id })),
                    Some(area) => match self.in_tree(a, display_id, window_id) {
                        Err(query) => Err(query),
                        Ok(arranged) => if !arranged {
                            Ok(Err(TreeResizeRefusal::NotArranged { window_id }))
                        } else {
                            self.resize_in(a, direction, display_id, window_id, area)
                        },
                    },
                },
            }
        }
    }

    #[verifier::opaque]
    pub open spec fn removal_plan(self, a: Answers, display_id: DisplayId, position: u64) -> Result<
        Result<RemovePositionApplied, RemovePositionRefusal>,
        Query,
    > {
        let unknown = RemovePositionRefusal::UnknownPosition { display_id, position };
        if self.paused {
            Ok(Err(RemovePositionRefusal::Paused))
        } else if !self.tree_mode() {
            Ok(Err(RemovePositionRefusal::NotTreeMode))
        } else if work_area(self.displays, display_id) is None {
            Ok(Err(RemovePositionRefusal::DisplayUnavailable { display_id }))
        } else if !self.trees.contains_key(display_id.0) {
            Ok(Err(unknown))
        } else {
            match a.dormant_spec(self.trees[display_id.0]) {
                Err(query) => Err(query),
                Ok(slots) => match first_index(slots.len(), numbered(slots, position)) {
                    None => Ok(Err(unknown)),
                    Some(i) => Ok(
                        Ok(
                            RemovePositionApplied {
                                display_id,
                                position,
                                application: slots[i].dormant.evidence.application_id.0,
                            },
                        ),
                    ),
                },
            }
        }
    }
}

pub open spec fn numbered(slots: Seq<DormantSlot>, position: u64) -> spec_fn(int) -> bool {
    |i: int| slots[i].position == position
}

/// Whether a resized layout is as good as the current one.
pub open spec fn legal(current: TreePlan, resized: TreePlan) -> bool {
    &&& forall|i: int|
        0 <= i < resized.overflow@.len() ==> current.overflow@.contains(
            #[trigger] resized.overflow@[i],
        )
    &&& resized.gaps.outer >= current.gaps.outer
    &&& resized.gaps.inner >= current.gaps.inner
}

fn is_legal(current: &TreePlan, resized: &TreePlan) -> (ok: bool)
    ensures
        ok == legal(*current, *resized),
{
    let mut i: usize = 0;
    while i < resized.overflow.len()
        invariant
            i <= resized.overflow@.len(),
            forall|k: int|
                0 <= k < i ==> current.overflow@.contains(#[trigger] resized.overflow@[k]),
        decreases resized.overflow@.len() - i,
    {
        if !holds(&current.overflow, resized.overflow[i]) {
            return false;
        }
        i += 1;
    }
    resized.gaps.outer >= current.gaps.outer && resized.gaps.inner >= current.gaps.inner
}

impl EngineState {
    fn tree_mode_active(&self) -> (active: bool)
        ensures
            active == self@.tree_mode(),
    {
        self.resolved_config.tiling_mode == TilingMode::Tree && self.automatic_tiling_active
    }

    /// Whether `window_id` currently occupies a live, actively arranged leaf
    /// of the display's container tree.
    pub fn arranged_in_tree(&self, a: &Answers, display_id: DisplayId, window_id: WindowId)
        -> (reply: Result<bool, Question>)
        ensures
            told(reply, self@.in_tree(*a, display_id, window_id)),
    {
        match self.trees.get(display_id.0) {
            None => Ok(false),
            Some(tree) => match a.windows(*tree) {
                Ok(windows) => Ok(
                    holds(windows, window_id) && !lists(
                        &self.constraint_overflow,
                        Listed { display_id, window_id },
                    ),
                ),
                Err(question) => Err(question),
            },
        }
    }

    /// Whether `window_id` can be an endpoint of a directional command.
    pub fn directional_endpoint(&self, a: &Answers, display_id: DisplayId, window_id: WindowId)
        -> (reply: Result<bool, Question>)
        ensures
            told(reply, self@.endpoint(*a, display_id, window_id)),
    {
        let eligible = match self.inventory.get(window_id.0) {
            Some(managed) => managed.eligibility == EligibilityReason::Eligible
                && managed.window.display_id == display_id,
            None => false,
        };
        if !eligible {
            Ok(false)
        } else if !self.tree_mode_active() {
            Ok(true)
        } else {
            self.arranged_in_tree(a, display_id, window_id)
        }
    }

    fn entries_on(&self, display_id: DisplayId) -> (entries: Vec<Listed>)
        ensures
            entries@ == self@.order.filter(Model::on_display(display_id)),
    {
        let ghost pred = Model::on_display(display_id);
        let ghost all = self.visual_window_order@;
        let mut entries: Vec<Listed> = Vec::new();
        let mut i: usize = 0;
        while i < self.visual_window_order.len()
            invariant
                i <= self.visual_window_order@.len(),
                all == self.visual_window_order@,
                pred == Model::on_display(display_id),
                entries@ == all.take(i as int).filter(pred),
            decreases self.visual_window_order@.len() - i,
        {
            proof {
                lemma_filter_step(all, i as int, pred);
            }
            if self.visual_window_order[i].display_id == display_id {
                entries.push(self.visual_window_order[i]);
            }
            i += 1;
        }
        assert(all.take(all.len() as int) =~= all);
        entries
    }

    #[verifier::loop_isolation(false)]
    fn nearest_among(
        &self,
        a: &Answers,
        direction: CardinalDirection,
        focused: WindowId,
        from: Rect,
        entries: &Vec<Listed>,
    ) -> (reply: Result<Option<WindowId>, Question>)
        ensures
            match (
                reply,
                self@.nearest_in(*a, direction, focused, from, entries@, 0, None),
            ) {
                (Ok(Some(window_id)), Ok(Some(found))) => window_id == found.window_id,
                (Ok(None), Ok(None)) => true,
                (Err(question), Err(query)) => question@ == query,
                _ => false,
            },
    {
        let ghost total = self@.nearest_in(*a, direction, focused, from, entries@, 0, None);
        let ghost mut seen: Option<Neighbor> = None;
        let mut best: Option<(WindowId, i64, i64)> = None;
        let mut i: usize = 0;
        while i < entries.len()
            invariant
                i <= entries@.len(),
                match (best, seen) {
                    (Some(found), Some(expected)) => found.0 == expected.window_id && found.1
                        == expected.along && found.2 == expected.across,
                    (None, None) => true,
                    _ => false,
                },
                self@.nearest_in(*a, direction, focused, from, entries@, i as int, seen) == total,
            decreases entries@.len() - i,
        {
            let entry = entries[i];
            if entry.window_id != focused {
                match self.directional_endpoint(a, entry.display_id, entry.window_id) {
                    Ok(endpoint) => {
                        if endpoint {
                            match self.windows.get(entry.window_id.0) {
                                Some(placement) => {
                                    match offset_of(direction, from, placement.bounds) {
                                        Some((along, across)) => {
                                            let better = match best {
                                                None => true,
                                                Some((_, best_along, best_across)) => along
                                                    < best_along || (along == best_along && across
                                                    < best_across),
                                            };
                                            proof {
                                                seen = nearer(
                                                    seen,
                                                    Neighbor {
                                                        window_id: entry.window_id,
                                                        along: along as int,
                                                        across: across as int,
                                                    },
                                                );
                                            }
                                            if better {
                                                best = Some((entry.window_id, along, across));
                                            }
                                        },
                                        None => {},
                                    }
                                },
                                None => {},
                            }
                        }
                    },
                    Err(question) => {
                        return Err(question);
                    },
                }
            }
            i += 1;
        }
        match best {
            Some((window_id, _, _)) => Ok(Some(window_id)),
            None => Ok(None),
        }
    }

    /// The focused window's nearest eligible display-local neighbor.
    pub fn directional_neighbor(&self, a: &Answers, direction: CardinalDirection) -> (reply: Result<
        Option<WindowId>,
        Question,
    >)
        ensures
            told(reply, self@.neighbor(*a, direction)),
    {
        proof {
            reveal(Model::neighbor);
        }
        let focused = match self.focused_window {
            Some(focused) => focused,
            None => {
                return Ok(None);
            },
        };
        let display_id = match self.inventory.get(focused.0) {
            Some(managed) => managed.window.display_id,
            None => {
                return Ok(None);
            },
        };
        match self.directional_endpoint(a, display_id, focused) {
            Ok(endpoint) => {
                if !endpoint {
                    return Ok(None);
                }
            },
            Err(question) => {
                return Err(question);
            },
        }
        let from = match self.windows.get(focused.0) {
            Some(placement) => placement.bounds,
            None => {
                return Ok(None);
            },
        };
        let entries = self.entries_on(display_id);
        self.nearest_among(a, direction, focused, from, &entries)
    }

    fn focused_window_home(&self) -> (home: Option<(WindowId, DisplayId)>)
        ensures
            home == self@.focused_home(),
    {
        match self.focused_window {
            Some(window_id) => match self.inventory.get(window_id.0) {
                Some(managed) => Some((window_id, managed.window.display_id)),
                None => None,
            },
            None => None,
        }
    }

    fn plan_of_tree<'a>(&self, a: &'a Answers, tree: ContainerTree, area: Rect) -> (reply: Result<
        &'a TreePlan,
        Question,
    >)
        ensures
            match (reply, self@.tree_plan(*a, tree, area)) {
                (Ok(plan), Ok(expected)) => *plan == expected,
                (Err(question), Err(query)) => question@ == query,
                _ => false,
            },
    {
        match a.windows(tree) {
            Ok(windows) => {
                let minimums = self.minimum_sizes(windows);
                a.plan(tree, area, self.resolved_config.gaps, minimums)
            },
            Err(question) => Err(question),
        }
    }

    #[verifier::loop_isolation(false)]
    fn largest_resize(
        &self,
        a: &Answers,
        direction: CardinalDirection,
        display_id: DisplayId,
        window_id: WindowId,
        area: Rect,
        tree: ContainerTree,
        current: &TreePlan,
    ) -> (reply: Result<Result<TreeResizePlan, TreeResizeRefusal>, Question>)
        ensures
            told(
                reply,
                self@.resized_by(
                    *a,
                    direction,
                    display_id,
                    window_id,
                    area,
                    tree,
                    *current,
                    TREE_RESIZE_STEP_PERCENT as nat,
                ),
            ),
    {
        let (axis, toward) = divider_for(direction);
        let ghost total = self@.resized_by(
            *a,
            direction,
            display_id,
            window_id,
            area,
            tree,
            *current,
            TREE_RESIZE_STEP_PERCENT as nat,
        );
        let mut points: u32 = TREE_RESIZE_STEP_PERCENT;
        while points > 0
            invariant
                self@.resized_by(
                    *a,
                    direction,
                    display_id,
                    window_id,
                    area,
                    tree,
                    *current,
                    points as nat,
                ) == total,
            decreases points,
        {
            match a.resize(tree, window_id, axis, toward, points) {
                Err(question) => {
                    return Err(question);
                },
                Ok(None) => {},
                Ok(Some(resized)) => match self.plan_of_tree(a, resized.tree, area) {
                    Err(question) => {
                        return Err(question);
                    },
                    Ok(plan) => {
                        if is_legal(current, plan) {
                            return Ok(
                                Ok(
                                    TreeResizePlan {
                                        applied: TreeResizeApplied {
                                            command: CommandLabel::Resize(direction),
                                            display_id,
                                            window_id,
                                            percentage_points: points,
                                            change: resized.change,
                                        },
                                        tree: resized.tree,
                                    },
                                ),
                            );
                        }
                    },
                },
            }
            points -= 1;
        }
        Ok(
            Err(
                TreeResizeRefusal::MinimumSizeReached { command: CommandLabel::Resize(direction) },
            ),
        )
    }

    fn resize_divider(
        &self,
        a: &Answers,
        direction: CardinalDirection,
        display_id: DisplayId,
        window_id: WindowId,
        area: Rect,
        tree: ContainerTree,
    ) -> (reply: Result<Result<TreeResizePlan, TreeResizeRefusal>, Question>)
        requires
            self@.trees[display_id.0] == tree,
        ensures
            told(reply, self@.resize_in(*a, direction, display_id, window_id, area)),
    {
        let (axis, toward) = divider_for(direction);
        match a.divider(tree, window_id, axis, toward) {
            Ok(present) => {
                if !present {
                    return Ok(
                        Err(
                            TreeResizeRefusal::NoDivider {
                                command: CommandLabel::Resize(direction),
                            },
                        ),
                    );
                }
            },
            Err(question) => {
                return Err(question);
            },
        }
        match self.plan_of_tree(a, tree, area) {
            Ok(current) => self.largest_resize(
                a,
                direction,
                display_id,
                window_id,
                area,
                tree,
                current,
            ),
            Err(question) => Err(question),
        }
    }
}

/// What resizing the focused window's tree in `direction` would do right now,
/// or the typed reason it would do nothing.
///
/// The full step is taken when every arranged window stays at or above its
/// minimum size with the gaps it has; otherwise the largest smaller whole step
/// that does is taken, and if not even one point is legal the command is
/// refused without touching the tree.
pub fn plan_tree_resize(state: &EngineState, a: &Answers, direction: CardinalDirection) -> (plan:
    Result<Result<TreeResizePlan, TreeResizeRefusal>, Question>)
    ensures
        told(plan, state@.resize_plan(*a, direction)),
{
    proof {
        reveal(Model::resize_plan);
    }
    if state.paused {
        return Ok(Err(TreeResizeRefusal::Paused));
    }
    if !state.tree_mode_active() {
        return Ok(Err(TreeResizeRefusal::NotTreeMode));
    }
    let (window_id, display_id) = match state.focused_window_home() {
        Some(home) => home,
        None => {
            return Ok(Err(TreeResizeRefusal::NoFocusedWindow));
        },
    };
    let area = match work_area_of(&state.displays, display_id) {
        Some(area) => area,
        None => {
            return Ok(Err(TreeResizeRefusal::DisplayUnavailable { display_id }));
        },
    };
    match state.arranged_in_tree(a, display_id, window_id) {
        Ok(arranged) => {
            if !arranged {
                return Ok(Err(TreeResizeRefusal::NotArranged { window_id }));
            }
        },
        Err(question) => {
            return Err(question);
        },
    }
    match state.trees.get(display_id.0) {
        Some(tree) => state.resize_divider(a, direction, display_id, window_id, area, *tree),
        None => Ok(Err(TreeResizeRefusal::NotArranged { window_id })),
    }
}

/// What swapping the focused window in `direction` would do right now, or the
/// typed reason it would do nothing.
///
/// The neighbor is exactly the one a directional focus would focus: a
/// direction has one spatial meaning.
pub fn plan_directional_swap(state: &EngineState, a: &Answers, direction: CardinalDirection)
    -> (plan: Result<Result<DirectionalSwapApplied, DirectionalSwapRefusal>, Question>)
    ensures
        told(plan, state@.swap_plan(*a, direction)),
{
    proof {
        reveal(Model::swap_plan);
    }
    if state.paused {
        return Ok(Err(DirectionalSwapRefusal::Paused));
    }
    let (window_id, display_id) = match state.focused_window_home() {
        Some(home) => home,
        None => {
            return Ok(Err(DirectionalSwapRefusal::NoFocusedWindow));
        },
    };
    if work_area_of(&state.displays, display_id).is_none() {
        return Ok(Err(DirectionalSwapRefusal::DisplayUnavailable { display_id }));
    }
    match state.directional_endpoint(a, display_id, window_id) {
        Ok(endpoint) => {
            if !endpoint {
                return Ok(Err(DirectionalSwapRefusal::NotArranged { window_id }));
            }
        },
        Err(question) => {
            return Err(question);
        },
    }
    match state.directional_neighbor(a, direction) {
        Ok(Some(neighbor_id)) => Ok(
            Ok(
                DirectionalSwapApplied {
                    command: CommandLabel::Swap(direction),
                    display_id,
                    window_id,
                    neighbor_id,
                },
            ),
        ),
        Ok(None) => Ok(
            Err(DirectionalSwapRefusal::NoNeighbor { command: CommandLabel::Swap(direction) }),
        ),
        Err(question) => Err(question),
    }
}

/// What removing dormant slot `position` from the display's tree would do
/// right now, or the typed reason it would do nothing.
pub fn plan_remove_position(
    state: &EngineState,
    a: &Answers,
    display_id: DisplayId,
    position: u64,
) -> (plan: Result<Result<RemovePositionApplied, RemovePositionRefusal>, Question>)
    ensures
        told(plan, state@.removal_plan(*a, display_id, position)),
{
    proof {
        reveal(Model::removal_plan);
    }
    if state.paused {
        return Ok(Err(RemovePositionRefusal::Paused));
    }
    if !state.tree_mode_active() {
        return Ok(Err(RemovePositionRefusal::NotTreeMode));
    }
    if work_area_of(&state.displays, display_id).is_none() {
        return Ok(Err(RemovePositionRefusal::DisplayUnavailable { display_id }));
    }
    let slots = match state.trees.get(display_id.0) {
        Some(tree) => match a.dormant(*tree) {
            Ok(slots) => slots,
            Err(question) => {
                return Err(question);
            },
        },
        None => {
            return Ok(Err(RemovePositionRefusal::UnknownPosition { display_id, position }));
        },
    };
    match find_slot(slots, position) {
        Some(i) => Ok(
            Ok(
                RemovePositionApplied {
                    display_id,
                    position,
                    application: slots[i].dormant.evidence.application_id.0.clone(),
                },
            ),
        ),
        None => Ok(Err(RemovePositionRefusal::UnknownPosition { display_id, position })),
    }
}

fn find_slot(slots: &Vec<DormantSlot>, position: u64) -> (at: Option<usize>)
    ensures
        match at {
            Some(i) => first_index(slots@.len(), numbered(slots@, position)) == Some(i as int) && i
                < slots@.len(),
            None => first_index(slots@.len(), numbered(slots@, position)) is None,
        },
{
    let mut i: usize = 0;
    while i < slots.len()
        invariant
            i <= slots@.len(),
            first_index(i as nat, numbered(slots@, position)) is None,
        decreases slots@.len() - i,
    {
        if slots[i].position == position {
            proof {
                assert(numbered(slots@, position)(i as int));
                lemma_first_hit(slots@.len(), numbered(slots@, position), i as int);
            }
            return Some(i);
        }
        assert(!numbered(slots@, position)(i as int));
        i += 1;
    }
    None
}

} // verus!
