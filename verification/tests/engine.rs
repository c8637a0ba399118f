//! Undo, container trees, workspaces and the switches between them.

use std::cell::RefCell;
use std::collections::{BTreeSet, HashSet};
use std::ops::{Deref, DerefMut};

use mosaix_engine::answers::{
    Answer, Answers, Candidate, ContainerTree, DividerChange, DormantPosition, DormantSlot,
    Insertion, Known, LayoutCells, LeafFate, MatchOutcome, MinimumSize, Occupant, PersistedTree,
    PlannedPlacement, Question, ResizedTree, RuleBook, TreeChange, TreePlan, TreeShape, Verdict,
    WeightBits, Zone,
};
use mosaix_engine::commands::{CommandLabel, ZoneSnapDirection};
use mosaix_engine::config::{
    DisplayMapping, ResolvedConfig, ResolvedConfigSet, ResolvedProfile,
    ResolvedWorkspaceSwitching, SavedLayout, TilingMode,
};
use mosaix_engine::direction::{
    plan_directional_swap, plan_remove_position, plan_tree_resize, DirectionalSwapApplied,
    DirectionalSwapRefusal, RemovePositionApplied, RemovePositionRefusal, TreeResizePlan,
    TreeResizeRefusal,
};
use mosaix_engine::event::Event;
use mosaix_engine::geometry::{
    longer_axis_of, CardinalDirection, CycleStep, DisplayDirection, DisplayId, Gaps, HalfZone,
    HorizontalDirection, Rect, RecoveryEntryId, Size, SplitAxis, Toward, UndoTransactionId,
    WindowId,
};
use mosaix_engine::initial::{initial_state, next_state};
use mosaix_engine::layout::{
    diff_placements, plan_saved_layout, SavedLayoutPlan, SavedLayoutRejection,
};
use mosaix_engine::name::{NameCheck, RequestedName, WorkspaceName, WorkspaceNameError};
use mosaix_engine::outcome::{
    switching_status_reason, HandleVerdict, ParkingCapability, ParkingFailure, ParkingRefusal,
    ParkingStage, PersistenceFailure, PersistenceHealth, RecoveryDraft, RecoveryOutcome, ShowState,
    SwitchFailure, SwitchingPending, WorkspaceCommandResult, WorkspaceCreateApplied,
    WorkspaceDeleteApplied, WorkspaceFocusApplied, WorkspaceMoveApplied, WorkspaceRefusal,
    WorkspaceSwitchFailed, WorkspaceSwitchPlan, WorkspaceSwitchRestoreResult,
    WorkspaceSwitchingStatus, WorkspaceSwitchingUnavailable,
};
use mosaix_engine::parking::{plan_parking_authorization, plan_workspace_switch_restore};
use mosaix_engine::plans::{plan_workspace_focus, plan_workspace_move, plan_workspace_switch};
use mosaix_engine::reversal::plan_undo;
use mosaix_engine::state::{
    EngineEffect, EngineState, Listed, PendingParking, PersistenceIntent, RuleWorkspaceRefusal,
    StoredTree,
};
use mosaix_engine::undo::{
    UndoAssignment, UndoRefusal, UndoResult, UndoTransaction, UndoTransactionDraft,
};
use mosaix_engine::window::{
    same_numbers, ApplicationId, Display, EligibilityReason, ManageAction, Rotation, Window, WindowCapabilities,
    WindowEvidence, WindowLifecycle, WindowPlacement, WindowRole,
};
use mosaix_engine::workspace::{PersistedWorkspace, Workspace, WorkspaceOrigin};

const NOW: i64 = 1_700_000_000;
const DORMANT_RETENTION_SECONDS: i64 = 7 * 24 * 60 * 60;

/// What a leaf holds: something live, or the memory of a window that closed.
#[derive(Clone, Debug, PartialEq)]
enum Held<T> {
    Open(T),
    Closed(DormantPosition),
}

#[derive(Clone, Debug, PartialEq)]
struct Leaf<T> {
    number: u64,
    held: Held<T>,
}

#[derive(Clone, Debug, PartialEq)]
enum Node<T> {
    Leaf(Leaf<T>),
    Split { axis: SplitAxis, share: f64, first: Box<Node<T>>, second: Box<Node<T>> },
}

/// A container tree: every container has two children, the first of which
/// takes `share` of its extent.
#[derive(Clone, Debug, PartialEq)]
struct Tree<T> {
    root: Option<Node<T>>,
    next: u64,
}

impl<T: Clone + PartialEq> Node<T> {
    fn leaves<'a>(&'a self, out: &mut Vec<&'a Leaf<T>>) {
        match self {
            Node::Leaf(leaf) => out.push(leaf),
            Node::Split { first, second, .. } => {
                first.leaves(out);
                second.leaves(out);
            }
        }
    }

    fn holds(&self, value: &T) -> bool {
        let mut leaves = Vec::new();
        self.leaves(&mut leaves);
        leaves.iter().any(|leaf| leaf.held == Held::Open(value.clone()))
    }

    fn any_open(&self, hidden: &[T]) -> bool {
        let mut leaves = Vec::new();
        self.leaves(&mut leaves);
        leaves.iter().any(|leaf| match &leaf.held {
            Held::Open(value) => !hidden.contains(value),
            Held::Closed(_) => false,
        })
    }

    fn without(self, gone: &dyn Fn(&Leaf<T>) -> bool) -> Option<Node<T>> {
        match self {
            Node::Leaf(leaf) => {
                if gone(&leaf) {
                    None
                } else {
                    Some(Node::Leaf(leaf))
                }
            }
            Node::Split { axis, share, first, second } => {
                match (first.without(gone), second.without(gone)) {
                    (Some(first), Some(second)) => Some(Node::Split {
                        axis,
                        share,
                        first: Box::new(first),
                        second: Box::new(second),
                    }),
                    (kept, None) => kept,
                    (None, kept) => kept,
                }
            }
        }
    }

    fn mapped<U>(&self, change: &mut dyn FnMut(&Leaf<T>) -> Option<Held<U>>) -> Option<Node<U>> {
        match self {
            Node::Leaf(leaf) => {
                change(leaf).map(|held| Node::Leaf(Leaf { number: leaf.number, held }))
            }
            Node::Split { axis, share, first, second } => {
                match (first.mapped(change), second.mapped(change)) {
                    (Some(first), Some(second)) => Some(Node::Split {
                        axis: *axis,
                        share: *share,
                        first: Box::new(first),
                        second: Box::new(second),
                    }),
                    (kept, None) => kept,
                    (None, kept) => kept,
                }
            }
        }
    }

    fn split_leaf(self, target: &T, axis: SplitAxis, fresh: &Leaf<T>) -> Node<T> {
        match self {
            Node::Leaf(leaf) => {
                if leaf.held == Held::Open(target.clone()) {
                    Node::Split {
                        axis,
                        share: 0.5,
                        first: Box::new(Node::Leaf(leaf)),
                        second: Box::new(Node::Leaf(fresh.clone())),
                    }
                } else {
                    Node::Leaf(leaf)
                }
            }
            Node::Split { axis: own, share, first, second } => Node::Split {
                axis: own,
                share,
                first: Box::new(first.split_leaf(target, axis, fresh)),
                second: Box::new(second.split_leaf(target, axis, fresh)),
            },
        }
    }

    /// The rectangle of every open leaf that is not hidden.
    fn lay_out(&self, area: Rect, hidden: &[T], out: &mut Vec<(T, u64, Rect)>) {
        match self {
            Node::Leaf(leaf) => {
                if let Held::Open(value) = &leaf.held {
                    if !hidden.contains(value) {
                        out.push((value.clone(), leaf.number, area));
                    }
                }
            }
            Node::Split { axis, share, first, second } => {
                if !first.any_open(hidden) {
                    second.lay_out(area, hidden, out);
                } else if !second.any_open(hidden) {
                    first.lay_out(area, hidden, out);
                } else {
                    let (left, right) = cut(area, *axis, *share);
                    first.lay_out(left, hidden, out);
                    second.lay_out(right, hidden, out);
                }
            }
        }
    }

    /// The nearest divider that faces that way moved by `points`.
    fn resized(
        &self,
        value: &T,
        axis: SplitAxis,
        toward: Toward,
        points: u32,
    ) -> Option<(Node<T>, DividerChange)> {
        let Node::Split { axis: own, share, first, second } = self else {
            return None;
        };
        let in_first = first.holds(value);
        if !in_first && !second.holds(value) {
            return None;
        }
        let inner = if in_first { first } else { second };
        if let Some((node, change)) = inner.resized(value, axis, toward, points) {
            let (first, second) = if in_first {
                (Box::new(node), second.clone())
            } else {
                (first.clone(), Box::new(node))
            };
            return Some((Node::Split { axis: *own, share: *share, first, second }, change));
        }
        let faces = *own == axis
            && in_first == (toward == Toward::End)
            && first.any_open(&[])
            && second.any_open(&[]);
        if !faces {
            return None;
        }
        let step = f64::from(points) / 100.0;
        let moved = if in_first { share + step } else { share - step };
        if moved <= 0.0 || moved >= 1.0 {
            return None;
        }
        let bits = |share: f64| {
            if in_first {
                WeightBits { grown: share.to_bits(), shrunk: (1.0 - share).to_bits() }
            } else {
                WeightBits { grown: (1.0 - share).to_bits(), shrunk: share.to_bits() }
            }
        };
        let change = DividerChange {
            grew: usize::from(!in_first),
            shrank: usize::from(in_first),
            weights_before: bits(*share),
            weights_after: bits(moved),
        };
        Some((
            Node::Split { axis: *own, share: moved, first: first.clone(), second: second.clone() },
            change,
        ))
    }
}

fn cut(area: Rect, axis: SplitAxis, share: f64) -> (Rect, Rect) {
    match axis {
        SplitAxis::Horizontal => {
            let width = (f64::from(area.width) * share).round() as i32;
            (
                Rect::new(area.x, area.y, width, area.height),
                Rect::new(area.x + width, area.y, area.width - width, area.height),
            )
        }
        SplitAxis::Vertical => {
            let height = (f64::from(area.height) * share).round() as i32;
            (
                Rect::new(area.x, area.y, area.width, height),
                Rect::new(area.x, area.y + height, area.width, area.height - height),
            )
        }
    }
}

impl<T: Clone + PartialEq> Tree<T> {
    fn new() -> Tree<T> {
        Tree { root: None, next: 0 }
    }

    fn leaves(&self) -> Vec<&Leaf<T>> {
        let mut leaves = Vec::new();
        if let Some(root) = &self.root {
            root.leaves(&mut leaves);
        }
        leaves
    }

    fn open(&self) -> Vec<T> {
        self.leaves()
            .into_iter()
            .filter_map(|leaf| match &leaf.held {
                Held::Open(value) => Some(value.clone()),
                Held::Closed(_) => None,
            })
            .collect()
    }

    fn number_of(&self, value: &T) -> Option<u64> {
        self.leaves()
            .into_iter()
            .find(|leaf| leaf.held == Held::Open(value.clone()))
            .map(|leaf| leaf.number)
    }

    fn fresh(&mut self, value: T) -> Leaf<T> {
        let number = self.next;
        self.next += 1;
        Leaf { number, held: Held::Open(value) }
    }

    fn insert_first(&mut self, value: T) {
        let leaf = self.fresh(value);
        self.root = Some(Node::Leaf(leaf));
    }

    fn split_root(&mut self, axis: SplitAxis, value: T) {
        let leaf = self.fresh(value);
        let old = self.root.take().expect("something to split");
        self.root = Some(Node::Split {
            axis,
            share: 0.5,
            first: Box::new(old),
            second: Box::new(Node::Leaf(leaf)),
        });
    }

    fn split_leaf(&mut self, target: &T, axis: SplitAxis, value: T) {
        let leaf = self.fresh(value);
        self.root = self.root.take().map(|root| root.split_leaf(target, axis, &leaf));
    }

    fn mapped<U: Clone + PartialEq>(
        &self,
        change: &mut dyn FnMut(&Leaf<T>) -> Option<Held<U>>,
    ) -> Tree<U> {
        Tree { root: self.root.as_ref().and_then(|root| root.mapped(change)), next: self.next }
    }

    fn without(&self, gone: &dyn Fn(&Leaf<T>) -> bool) -> Tree<T> {
        Tree { root: self.root.clone().and_then(|root| root.without(gone)), next: self.next }
    }
}

impl Tree<WindowId> {
    fn dormant(&self) -> Vec<DormantSlot> {
        self.leaves()
            .into_iter()
            .filter_map(|leaf| match &leaf.held {
                Held::Open(_) => None,
                Held::Closed(dormant) => {
                    Some(DormantSlot { position: leaf.number, dormant: dormant.clone() })
                }
            })
            .collect()
    }

    fn changed(&self, change: &TreeChange) -> Option<Tree<WindowId>> {
        let mut tree = self.clone();
        match change {
            TreeChange::MakeDormant { window_id, dormant } => {
                self.number_of(window_id)?;
                Some(self.mapped(&mut |leaf| {
                    Some(if leaf.held == Held::Open(*window_id) {
                        Held::Closed(dormant.clone())
                    } else {
                        leaf.held.clone()
                    })
                }))
            }
            TreeChange::Remove { window_id } => {
                self.number_of(window_id)?;
                Some(self.without(&|leaf| leaf.held == Held::Open(*window_id)))
            }
            TreeChange::PruneDormant { now_unix } => Some(self.without(&|leaf| match &leaf.held {
                Held::Open(_) => false,
                Held::Closed(dormant) => now_unix - dormant.since_unix > DORMANT_RETENTION_SECONDS,
            })),
            TreeChange::Reclaim { position, window_id } => Some(self.mapped(&mut |leaf| {
                Some(match &leaf.held {
                    Held::Closed(_) if leaf.number == *position => Held::Open(*window_id),
                    held => held.clone(),
                })
            })),
            TreeChange::InsertFirst { window_id } => {
                if self.root.is_some() {
                    return None;
                }
                tree.insert_first(*window_id);
                Some(tree)
            }
            TreeChange::SplitRoot { .. } if self.root.is_none() => None,
            TreeChange::SplitRoot { axis, window_id } => {
                tree.split_root(*axis, *window_id);
                Some(tree)
            }
            TreeChange::SplitLeaf { target, axis, window_id } => {
                self.number_of(target)?;
                tree.split_leaf(target, *axis, *window_id);
                Some(tree)
            }
            TreeChange::SwapLeaves { a, b } => {
                self.number_of(a)?;
                self.number_of(b)?;
                Some(self.mapped(&mut |leaf| {
                    Some(if leaf.held == Held::Open(*a) {
                        Held::Open(*b)
                    } else if leaf.held == Held::Open(*b) {
                        Held::Open(*a)
                    } else {
                        leaf.held.clone()
                    })
                }))
            }
            TreeChange::RemovePosition { position } => Some(self.without(&|leaf| {
                matches!(leaf.held, Held::Closed(_)) && leaf.number == *position
            })),
        }
    }

    fn insertion(&self, area: Rect, focused: Option<WindowId>) -> Option<Insertion> {
        let mut placed = Vec::new();
        self.root.as_ref()?.lay_out(area, &[], &mut placed);
        let (target, _, bounds) = match focused {
            Some(window_id) if self.number_of(&window_id).is_some() => {
                placed.iter().find(|(value, _, _)| *value == window_id).cloned()
            }
            _ => placed.iter().max_by_key(|(_, number, _)| *number).cloned(),
        }?;
        Some(Insertion { target, axis: longer_axis_of(bounds) })
    }

    /// The largest gaps under which every window has its minimum size; where
    /// none do, the newest window overflows.
    fn plan(&self, area: Rect, gaps: Gaps, minimums: &[MinimumSize]) -> TreePlan {
        let mut hidden: Vec<WindowId> = Vec::new();
        loop {
            let mut placed = Vec::new();
            if let Some(root) = &self.root {
                root.lay_out(area, &hidden, &mut placed);
            }
            for less in 0..=gaps.outer.max(gaps.inner) {
                let left = Gaps::new((gaps.outer - less).max(0), (gaps.inner - less).max(0));
                let placements: Vec<PlannedPlacement> = placed
                    .iter()
                    .map(|(window_id, _, raw)| PlannedPlacement {
                        window_id: *window_id,
                        bounds: apply_gaps(*raw, area, left),
                    })
                    .collect();
                let fits = placements.iter().all(|placement| {
                    minimums
                        .iter()
                        .filter(|minimum| minimum.window_id == placement.window_id)
                        .all(|minimum| match minimum.size {
                            Some(size) => {
                                placement.bounds.width >= size.width
                                    && placement.bounds.height >= size.height
                            }
                            None => true,
                        })
                });
                if fits {
                    return TreePlan { overflow: hidden, gaps: left, placements };
                }
            }
            let newest = placed.iter().max_by_key(|(_, number, _)| *number).expect("a window");
            hidden.push(newest.0);
        }
    }
}

/// A rule that sends the windows of one application to a workspace.
struct Rule {
    id: String,
    application: String,
    workspace: String,
}

/// What the engine asks of the world around it.
struct Outside {
    rules: Vec<Vec<Rule>>,
    cells: Vec<Vec<(f64, f64, f64, f64)>>,
    trees: Vec<Tree<WindowId>>,
    stored: Vec<Tree<WindowEvidence>>,
}

impl Outside {
    fn new() -> Outside {
        Outside {
            rules: vec![Vec::new()],
            cells: Vec::new(),
            trees: vec![Tree::new()],
            stored: vec![Tree::new()],
        }
    }

    fn layout(&mut self, name: &str, cells: &[(f64, f64, f64, f64)]) -> SavedLayout {
        self.cells.push(cells.to_vec());
        SavedLayout {
            name: name.to_owned(),
            cells: LayoutCells { id: self.cells.len() as u64 - 1 },
        }
    }

    fn rule_book(&mut self, rules: Vec<Rule>) -> RuleBook {
        self.rules.push(rules);
        RuleBook { id: self.rules.len() as u64 - 1 }
    }

    /// The identity of a live tree; equal trees share one.
    fn keep(&mut self, tree: Tree<WindowId>) -> ContainerTree {
        let at = match self.trees.iter().position(|known| *known == tree) {
            Some(at) => at,
            None => {
                self.trees.push(tree);
                self.trees.len() - 1
            }
        };
        ContainerTree { id: at as u64 }
    }

    fn store(&mut self, tree: Tree<WindowEvidence>) -> PersistedTree {
        let at = match self.stored.iter().position(|known| *known == tree) {
            Some(at) => at,
            None => {
                self.stored.push(tree);
                self.stored.len() - 1
            }
        };
        PersistedTree { id: at as u64 }
    }

    fn tree(&self, tree: ContainerTree) -> &Tree<WindowId> {
        &self.trees[tree.id as usize]
    }

    fn persisted(&self, stored: PersistedTree) -> &Tree<WindowEvidence> {
        &self.stored[stored.id as usize]
    }

    fn verdict(&self, rules: RuleBook, window: &Window) -> Verdict {
        for rule in &self.rules[rules.id as usize] {
            if window.application_id.0 == rule.application {
                return Verdict {
                    manage: ManageAction::Tile,
                    workspace: Some(requested(&rule.workspace)),
                    rule_id: Some(rule.id.clone()),
                };
            }
        }
        let manage = match window.role {
            WindowRole::Normal => ManageAction::Tile,
            WindowRole::Dialog => ManageAction::Float,
            WindowRole::Popup | WindowRole::Other => ManageAction::Exclude,
        };
        Verdict { manage, workspace: None, rule_id: None }
    }

    fn answer(&mut self, question: &Question) -> Answer {
        match question {
            Question::Gapped { raw, area, gaps } => Answer::Bounds(apply_gaps(*raw, *area, *gaps)),
            Question::Grid { area, count } => Answer::Cells(plan_balanced_grid(*area, *count)),
            Question::Zone { area, zone } => Answer::Bounds(zone_bounds(*area, *zone)),
            Question::Thrown { bounds, from, to } => Answer::Bounds(thrown(*bounds, *from, *to)),
            Question::Adjacent { displays, from, direction } => {
                Answer::Display(adjacent(displays, *from, *direction))
            }
            Question::Cells { area, cells } => Answer::Cells(resolve_saved_layout(
                *area,
                &self.cells[cells.id as usize],
            )),
            Question::Verdict { rules, window } => Answer::Verdict(self.verdict(*rules, window)),
            Question::Match { evidence, candidates } => {
                Answer::Outcome(match_window(evidence, candidates))
            }
            Question::Shape { tree } => {
                let tree = self.tree(*tree);
                Answer::Shape(TreeShape { windows: tree.open(), dormant: tree.dormant() })
            }
            Question::Leaves { stored } => Answer::Leaves(
                self.persisted(*stored)
                    .leaves()
                    .into_iter()
                    .map(|leaf| match &leaf.held {
                        Held::Open(evidence) => Occupant::Live(evidence.clone()),
                        Held::Closed(dormant) => Occupant::Dormant(dormant.clone()),
                    })
                    .collect(),
            ),
            Question::Change { tree, change } => {
                let changed = self.tree(*tree).changed(change);
                Answer::Tree(changed.map(|tree| self.keep(tree)))
            }
            Question::Insertion { tree, area, focused } => {
                Answer::Insertion(self.tree(*tree).insertion(*area, *focused))
            }
            Question::Divider { tree, window_id, axis, toward } => {
                Answer::Present(self.resized(*tree, *window_id, *axis, *toward, 1).is_some())
            }
            Question::Resize { tree, window_id, axis, toward, points } => {
                let resized = self.resized(*tree, *window_id, *axis, *toward, *points);
                Answer::Resized(resized.map(|(tree, change)| ResizedTree {
                    tree: self.keep(tree),
                    change,
                }))
            }
            Question::Plan { tree, area, gaps, minimums } => {
                Answer::Plan(self.tree(*tree).plan(*area, *gaps, minimums))
            }
            Question::Convert { stored, fates } => {
                let mut at = 0;
                let live = self.persisted(*stored).mapped(&mut |_| {
                    at += 1;
                    Some(match &fates[at - 1] {
                        LeafFate::Live(window_id) => Held::Open(*window_id),
                        LeafFate::Dormant(dormant) => Held::Closed(dormant.clone()),
                    })
                });
                Answer::Tree(Some(self.keep(live)))
            }
            Question::Durable { tree, evidence } => {
                let mut at = 0;
                let durable = self.tree(*tree).mapped(&mut |leaf| match &leaf.held {
                    Held::Open(_) => {
                        at += 1;
                        evidence[at - 1].clone().map(Held::Open)
                    }
                    Held::Closed(dormant) => Some(Held::Closed(dormant.clone())),
                });
                Answer::Stored(self.store(durable))
            }
        }
    }

    fn resized(
        &self,
        tree: ContainerTree,
        window_id: WindowId,
        axis: SplitAxis,
        toward: Toward,
        points: u32,
    ) -> Option<(Tree<WindowId>, DividerChange)> {
        let tree = self.tree(tree);
        let (root, change) = tree.root.as_ref()?.resized(&window_id, axis, toward, points)?;
        Some((Tree { root: Some(root), next: tree.next }, change))
    }
}

/// The one candidate of the same application that is most like the evidence,
/// unless it is too little like it or not the only one.
fn match_window(evidence: &WindowEvidence, candidates: &[Candidate]) -> MatchOutcome {
    let likeness = |candidate: &Candidate| {
        let window = &candidate.window;
        if window.application_id != evidence.application_id || window.role != evidence.role {
            return 0;
        }
        let same_path = evidence.executable_path.is_some()
            && window.executable_path == evidence.executable_path;
        let same_class =
            evidence.native_class.is_some() && window.native_class == evidence.native_class;
        let same_place = window.bounds == evidence.last_placement;
        2 * u32::from(same_path) + 2 * u32::from(same_class) + 3 * u32::from(same_place)
    };
    let best = candidates.iter().map(likeness).max().unwrap_or(0);
    if best < 3 {
        return MatchOutcome::Unmatched;
    }
    let alike: Vec<&Candidate> =
        candidates.iter().filter(|candidate| likeness(candidate) == best).collect();
    if alike.len() == 1 {
        MatchOutcome::Confident { window_id: alike[0].window.id }
    } else {
        MatchOutcome::Ambiguous { candidates: alike.len() as u32 }
    }
}

fn apply_gaps(raw: Rect, area: Rect, gaps: Gaps) -> Rect {
    let inset = |touches: bool| if touches { gaps.outer } else { gaps.inner };
    let left = inset(raw.x == area.x);
    let top = inset(raw.y == area.y);
    let right = inset(raw.x + raw.width == area.x + area.width);
    let bottom = inset(raw.y + raw.height == area.y + area.height);
    Rect::new(raw.x + left, raw.y + top, raw.width - left - right, raw.height - top - bottom)
}

/// Columns first: as many as the root of the count, rounded up.
fn plan_balanced_grid(area: Rect, count: usize) -> Vec<Rect> {
    let mut columns: usize = 1;
    while columns * columns < count {
        columns += 1;
    }
    let rows = count.div_ceil(columns);
    let mut cells = Vec::new();
    for row in 0..rows {
        let in_row = if row + 1 < rows { columns } else { count - columns * (rows - 1) };
        let top = area.height * row as i32 / rows as i32;
        let bottom = area.height * (row as i32 + 1) / rows as i32;
        for column in 0..in_row {
            let left = area.width * column as i32 / in_row as i32;
            let right = area.width * (column as i32 + 1) / in_row as i32;
            cells.push(Rect::new(area.x + left, area.y + top, right - left, bottom - top));
        }
    }
    cells
}

fn zone_bounds(area: Rect, zone: Zone) -> Rect {
    match zone {
        Zone::Cycle(direction, step) => {
            let width = match step {
                CycleStep::Half => area.width / 2,
                CycleStep::Third => area.width / 3,
                CycleStep::TwoThirds => area.width * 2 / 3,
            };
            match direction {
                HorizontalDirection::Left => Rect::new(area.x, area.y, width, area.height),
                HorizontalDirection::Right => {
                    Rect::new(area.x + area.width - width, area.y, width, area.height)
                }
            }
        }
        Zone::Half(HalfZone::TopHalf) => Rect::new(area.x, area.y, area.width, area.height / 2),
        Zone::Half(HalfZone::BottomHalf) => {
            Rect::new(area.x, area.y + area.height / 2, area.width, area.height / 2)
        }
    }
}

fn thrown(bounds: Rect, from: Rect, to: Rect) -> Rect {
    let scale = |part: i32, whole: i32, target: i32| part * target / whole;
    Rect::new(
        to.x + scale(bounds.x - from.x, from.width, to.width),
        to.y + scale(bounds.y - from.y, from.height, to.height),
        scale(bounds.width, from.width, to.width),
        scale(bounds.height, from.height, to.height),
    )
}

fn adjacent(displays: &[Display], from: DisplayId, direction: DisplayDirection) -> Option<DisplayId> {
    if displays.len() < 2 {
        return None;
    }
    let at = displays.iter().position(|display| display.id == from)?;
    let next = match direction {
        DisplayDirection::Next => (at + 1) % displays.len(),
        DisplayDirection::Prev => (at + displays.len() - 1) % displays.len(),
    };
    Some(displays[next].id)
}

fn resolve_saved_layout(area: Rect, cells: &[(f64, f64, f64, f64)]) -> Vec<Rect> {
    cells
        .iter()
        .map(|(x, y, width, height)| {
            let left = (area.width as f64 * x).round() as i32;
            let top = (area.height as f64 * y).round() as i32;
            let right = (area.width as f64 * (x + width)).round() as i32;
            let bottom = (area.height as f64 * (y + height)).round() as i32;
            Rect::new(area.x + left, area.y + top, right - left, bottom - top)
        })
        .collect()
}

fn topology_fingerprint(displays: &[Display]) -> String {
    let mut names: Vec<&str> =
        displays.iter().map(|display| display.stable_fingerprint.as_str()).collect();
    names.sort();
    names.join("+")
}

/// An engine with the world around it.
struct Rig {
    state: EngineState,
    outside: RefCell<Outside>,
}

impl Deref for Rig {
    type Target = EngineState;

    fn deref(&self) -> &EngineState {
        &self.state
    }
}

impl DerefMut for Rig {
    fn deref_mut(&mut self) -> &mut EngineState {
        &mut self.state
    }
}

impl Rig {
    /// Answers every question `step` comes back with.
    fn settle<T>(&self, step: impl Fn(&EngineState, &Answers) -> Result<T, Question>) -> T {
        let mut answers = Answers { now_unix: NOW, known: Vec::new() };
        loop {
            match step(&self.state, &answers) {
                Ok(done) => return done,
                Err(question) => {
                    let answer = self.outside.borrow_mut().answer(&question);
                    answers.known.push(Known { question, answer });
                }
            }
        }
    }

    /// The live tree of a display.
    fn tree(&self, display_id: isize) -> Tree<WindowId> {
        let tree = *self.trees.get(display_id).expect("the display has a tree");
        self.outside.borrow().tree(tree).clone()
    }

    fn set_tree(&mut self, display_id: isize, tree: Tree<WindowId>) {
        let kept = self.outside.borrow_mut().keep(tree);
        self.trees.insert(display_id, kept);
    }

    /// The windows in the stashed tree of a workspace.
    fn stashed(&self, name: &str) -> Vec<WindowId> {
        let tree = self.workspaces.get(&ws(name)).unwrap().stashed_tree.expect("a stashed tree");
        self.outside.borrow().tree(tree).open()
    }

    fn displayed(&self) -> Vec<(DisplayId, WorkspaceName)> {
        let mut shown: Vec<(DisplayId, WorkspaceName)> = self
            .names()
            .into_iter()
            .filter_map(|name| self.workspaces.display_of(&name).map(|on| (on, name)))
            .collect();
        shown.sort_by_key(|(display_id, _)| display_id.0);
        shown
    }

    fn names(&self) -> Vec<WorkspaceName> {
        (0..self.workspaces.len()).map(|i| self.workspaces.at(i).name.clone()).collect()
    }

    fn overflow(&self, display_id: isize) -> Vec<WindowId> {
        listed(&self.constraint_overflow, display_id)
    }

    fn swap_plan(
        &self,
        direction: CardinalDirection,
    ) -> Result<DirectionalSwapApplied, DirectionalSwapRefusal> {
        self.settle(|state, answers| plan_directional_swap(state, answers, direction))
    }

    fn resize_plan(
        &self,
        direction: CardinalDirection,
    ) -> Result<TreeResizePlan, TreeResizeRefusal> {
        self.settle(|state, answers| plan_tree_resize(state, answers, direction))
    }

    fn neighbor(&self, direction: CardinalDirection) -> Option<WindowId> {
        self.settle(|state, answers| state.directional_neighbor(answers, direction))
    }

    fn remove_plan(
        &self,
        display_id: DisplayId,
        position: u64,
    ) -> Result<RemovePositionApplied, RemovePositionRefusal> {
        self.settle(|state, answers| plan_remove_position(state, answers, display_id, position))
    }

    fn undo_plan(&self) -> UndoResult {
        self.settle(plan_undo)
    }

    fn durable(&self, display_id: isize) -> PersistedTree {
        let tree = *self.trees.get(display_id).expect("the display has a tree");
        self.settle(|state, answers| state.durable_tree(answers, tree))
    }

    fn switch_plan(&self, name: &str) -> Result<WorkspaceSwitchPlan, WorkspaceRefusal> {
        plan_workspace_switch(&self.state, &requested(name))
    }
}

fn rig(mut state: EngineState) -> Rig {
    state.topology = topology_fingerprint(&state.displays);
    Rig { state, outside: RefCell::new(Outside::new()) }
}

fn apply(rig: &mut Rig, event: Event) {
    rig.state.topology = topology_fingerprint(&rig.state.displays);
    let next = rig.settle(|state, answers| next_state(state, event.clone(), answers));
    check_step(&rig.state, &next);
    rig.state = next;
}

/// What holds of every step.
fn check_step(before: &EngineState, after: &EngineState) {
    assert!(after.undo_scope.is_none(), "what a command gathers ends with it");
    assert_eq!(after.effects[..before.effects.len()], before.effects[..]);
    assert_eq!(
        after.persistence_intents[..before.persistence_intents.len()],
        before.persistence_intents[..]
    );
    assert!(after.revision >= before.revision, "the revision never goes back");
    if after.revision == before.revision && before.revision < u64::MAX {
        assert_eq!(after.effects.len(), before.effects.len(), "an effect is a change");
        assert_eq!(after.persistence_intents.len(), before.persistence_intents.len());
        assert_eq!(after.windows, before.windows);
        assert_eq!(after.inventory, before.inventory);
        assert_eq!(after.persistence_health, before.persistence_health);
        assert_eq!(after.switch, before.switch);
    }
    assert_eq!(after.hotkey_capture_suspended, after.capture_holds > 0);
    let pool = &after.workspaces;
    for i in 1..pool.len() {
        assert!(pool.at(i - 1).name.text < pool.at(i).name.text, "the pool stays in name order");
    }
    for i in 0..pool.len() {
        if let Some(display_id) = pool.at(i).displayed_on {
            assert_eq!(pool.displayed_at(display_id), Some(i), "no display shows two workspaces");
        }
    }
}

fn layout_plan(rig: &Rig, name: &str) -> Result<SavedLayoutPlan, SavedLayoutRejection> {
    rig.settle(|state, answers| plan_saved_layout(state, answers, &name.to_owned()))
}

fn now_unix() -> i64 {
    NOW
}

/// A name as a user typed it: trimmed, and compared without regard to case.
fn requested(text: &str) -> RequestedName {
    let trimmed = text.trim();
    let name = if trimmed.is_empty() {
        NameCheck::Invalid(WorkspaceNameError::Empty)
    } else {
        NameCheck::Valid(WorkspaceName {
            text: trimmed.to_owned(),
            key: trimmed.to_lowercase(),
        })
    };
    RequestedName { text: text.to_owned(), name }
}

fn ws(name: &str) -> WorkspaceName {
    WorkspaceName { text: name.to_owned(), key: name.to_lowercase() }
}

fn listed(entries: &[Listed], display_id: isize) -> Vec<WindowId> {
    entries
        .iter()
        .filter(|entry| entry.display_id == DisplayId(display_id))
        .map(|entry| entry.window_id)
        .collect()
}

fn topology_changed(displays: Vec<Display>) -> Event {
    let topology = topology_fingerprint(&displays);
    Event::DisplayTopologyChanged { displays, topology }
}

fn wake(displays: Vec<Display>, windows: Option<Vec<Window>>) -> Event {
    let topology = topology_fingerprint(&displays);
    Event::WakeReconciliation { displays, topology, windows }
}

fn display(id: isize, fingerprint: &str, x: i32) -> Display {
    Display {
        id: DisplayId(id),
        stable_fingerprint: fingerprint.to_string(),
        full_bounds: Rect::new(x, 0, 1920, 1080),
        work_area: Rect::new(x, 0, 1920, 1080),
        scale_factor_bits: 1.0f64.to_bits(),
        rotation: Rotation::Landscape,
        is_primary: x == 0,
    }
}

fn observed_window(id: isize, role: WindowRole, lifecycle: WindowLifecycle) -> Window {
    Window {
        id: WindowId(id),
        process_id: 1,
        application_id: ApplicationId("test".to_string()),
        executable_path: None,
        title: "non-sensitive-test-title".to_string(),
        native_class: None,
        role,
        bounds: Rect::new(0, 0, 400, 300),
        display_id: DisplayId(1),
        capabilities: WindowCapabilities {
            can_move: true,
            can_resize: true,
            can_minimize: true,
            can_maximize: true,
            tileable: true,
        },
        elevated: false,
        lifecycle,
        minimum_size: None,
    }
}

fn window_at(id: isize, display_id: isize, bounds: Rect) -> Window {
    let mut window = observed_window(id, WindowRole::Normal, WindowLifecycle::Active);
    window.display_id = DisplayId(display_id);
    window.bounds = bounds;
    window
}

fn state_with_saved_layout(name: &str, cells: &[(f64, f64, f64, f64)]) -> Rig {
    let mut state = rig(EngineState {
        displays: vec![display(1, "primary", 0)],
        ..EngineState::default()
    });
    let layout = state.outside.get_mut().layout(name, cells);
    state.resolved_config.layouts.push(layout);
    state
}

fn app_window_at(id: isize, application: &str, display_id: isize, bounds: Rect) -> Window {
    let mut window = window_at(id, display_id, bounds);
    window.application_id = ApplicationId(application.to_owned());
    window
}

fn placements(state: &Rig) -> Vec<(WindowId, DisplayId, Rect)> {
    state
        .effects
        .iter()
        .filter_map(|effect| match effect {
            EngineEffect::PlaceWindow {
                window_id,
                display_id,
                bounds,
            } => Some((*window_id, *display_id, *bounds)),
            _ => None,
        })
        .collect()
}

fn tiling_state_with_saved_layout(name: &str, cells: &[(f64, f64, f64, f64)]) -> Rig {
    let mut state = state_with_saved_layout(name, cells);
    state.resolved_config.automatic_tiling_enabled = true;
    state.automatic_tiling_active = true;
    state
}

fn state_ready_to_snap() -> Rig {
    let mut state = rig(EngineState {
        displays: vec![display(1, "DISPLAY1", 0)],
        ..EngineState::default()
    });
    apply(
        &mut state,
        Event::WindowsObserved {
            windows: vec![window_at(7, 1, Rect::new(10, 10, 500, 500))],
        },
    );
    apply(
        &mut state,
        Event::WindowFocused {
            window_id: WindowId(7),
            display_id: DisplayId(1),
            bounds: Rect::new(10, 10, 500, 500),
        },
    );
    state.effects.clear();
    state.persistence_intents.clear();
    state
}

fn recorded_drafts(state: &Rig) -> Vec<&UndoTransactionDraft> {
    state
        .persistence_intents
        .iter()
        .filter_map(|intent| match intent {
            PersistenceIntent::RecordUndoTransaction(draft) => Some(draft),
            PersistenceIntent::ConsumeUndoTransaction(_)
            | PersistenceIntent::SaveContainerTree { .. }
            | PersistenceIntent::SaveWorkspace(_)
            | PersistenceIntent::DeleteWorkspace(_)
            | PersistenceIntent::RecordRecovery { .. }
            | PersistenceIntent::MarkParked(_)
            | PersistenceIntent::MarkRestored(_) => None,
        })
        .collect()
}

fn stored(draft: &UndoTransactionDraft, id: i64) -> UndoTransaction {
    UndoTransaction {
        id: UndoTransactionId(id),
        command: draft.command.clone(),
        recorded_at_unix: draft.recorded_at_unix,
        topology_fingerprint: draft.topology_fingerprint.clone(),
        durable_revision: draft.durable_revision,
        members: draft.members.clone(),
        prior_trees: draft.prior_trees.clone(),
        prior_assignments: draft.prior_assignments.clone(),
    }
}

#[test]
fn an_explicit_snap_records_one_undo_transaction_with_the_prior_placement() {
    let mut state = state_ready_to_snap();

    apply(&mut state, Event::ZoneSnapRequested { direction: ZoneSnapDirection::Left });

    let drafts = recorded_drafts(&state);
    assert_eq!(drafts.len(), 1, "one command records one transaction");
    let draft = drafts[0];
    assert_eq!(draft.command, "snap-left");
    assert_eq!(
        draft.topology_fingerprint,
        topology_fingerprint(&state.displays)
    );
    assert_eq!(draft.members.len(), 1);
    let member = &draft.members[0];
    assert_eq!(
        member.prior_placement,
        Rect::new(10, 10, 500, 500),
        "undo restores where the window was before the command"
    );
    assert_eq!(member.prior_display_fingerprint, "DISPLAY1");
    assert_eq!(
        member.evidence.last_placement,
        Rect::new(0, 0, 960, 1080),
        "evidence describes where the window is now, which is where a \
         later session has to find it"
    );
}

#[test]
fn recorded_evidence_never_contains_the_window_title() {
    let mut state = state_ready_to_snap();
    let mut managed = state.inventory.get(7).expect("the window is managed").clone();
    managed.window.title = "Quarterly salary review.xlsx".to_owned();
    state.inventory.insert(7, managed);

    apply(&mut state, Event::ZoneSnapRequested { direction: ZoneSnapDirection::Left });

    let recorded = format!("{:?}", recorded_drafts(&state));
    assert!(
        !recorded.contains("Quarterly salary review"),
        "a document name must never reach a durable record: {recorded}"
    );
}

#[test]
fn passive_observation_records_no_undo_transaction() {
    let mut state = state_ready_to_snap();

    apply(
        &mut state,
        Event::WindowsObserved {
            windows: vec![window_at(7, 1, Rect::new(300, 300, 500, 500))],
        },
    );
    apply(&mut state, topology_changed(vec![display(1, "DISPLAY1", 0)]));

    assert!(
        recorded_drafts(&state).is_empty(),
        "undo must never offer to reverse something the user did not do"
    );
}

#[test]
fn undo_restores_the_prior_placement_and_consumes_the_transaction() {
    let mut state = state_ready_to_snap();
    apply(&mut state, Event::ZoneSnapRequested { direction: ZoneSnapDirection::Left });
    let transaction = stored(recorded_drafts(&state)[0], 1);
    state.persistence_intents.clear();
    state.effects.clear();
    apply(&mut state, Event::UndoHistoryLoaded(Some(transaction)));

    apply(&mut state, Event::UndoRequested);

    assert_eq!(
        placements(&state),
        vec![(WindowId(7), DisplayId(1), Rect::new(10, 10, 500, 500))],
        "undo puts the window back where the command found it"
    );
    assert_eq!(
        state.persistence_intents,
        vec![PersistenceIntent::ConsumeUndoTransaction(
            UndoTransactionId(1)
        )],
        "a successful undo consumes its transaction"
    );
    assert!(state.newest_undo.is_none());
    assert!(matches!(
        state.last_undo_result,
        Some(UndoResult::Applied(_))
    ));
}

#[test]
fn undo_records_no_transaction_of_its_own() {
    let mut state = state_ready_to_snap();
    apply(&mut state, Event::ZoneSnapRequested { direction: ZoneSnapDirection::Left });
    let transaction = stored(recorded_drafts(&state)[0], 1);
    apply(&mut state, Event::UndoHistoryLoaded(Some(transaction)));
    state.persistence_intents.clear();

    apply(&mut state, Event::UndoRequested);

    assert!(
        recorded_drafts(&state).is_empty(),
        "undo must not become undoable"
    );
}

#[test]
fn undo_refuses_and_keeps_the_transaction_when_the_topology_changed() {
    let mut state = state_ready_to_snap();
    apply(&mut state, Event::ZoneSnapRequested { direction: ZoneSnapDirection::Left });
    let transaction = stored(recorded_drafts(&state)[0], 1);
    apply(&mut state, Event::UndoHistoryLoaded(Some(transaction.clone())));
    apply(
        &mut state,
        topology_changed(vec![
            display(1, "DISPLAY1", 0),
            display(2, "DISPLAY2", 1920),
        ]),
    );
    state.effects.clear();
    state.persistence_intents.clear();

    apply(&mut state, Event::UndoRequested);

    assert!(
        placements(&state).is_empty(),
        "a refusal must happen before any window moves"
    );
    assert!(state.persistence_intents.is_empty());
    assert_eq!(
        state.newest_undo,
        Some(transaction),
        "a refused transaction is kept for retry"
    );
    let Some(UndoResult::Refused(refusal)) = &state.last_undo_result else {
        panic!("expected a refusal, got {:?}", state.last_undo_result);
    };
    assert!(matches!(
        refusal,
        UndoRefusal::TopologyChanged { transaction_id: UndoTransactionId(1), .. }
    ));
}

#[test]
fn undo_refuses_when_the_target_window_is_gone() {
    let mut state = state_ready_to_snap();
    apply(&mut state, Event::ZoneSnapRequested { direction: ZoneSnapDirection::Left });
    let transaction = stored(recorded_drafts(&state)[0], 1);
    apply(&mut state, Event::UndoHistoryLoaded(Some(transaction.clone())));
    apply(&mut state, Event::WindowsObserved { windows: vec![] });
    state.effects.clear();
    state.persistence_intents.clear();

    apply(&mut state, Event::UndoRequested);

    assert!(placements(&state).is_empty());
    assert_eq!(state.newest_undo, Some(transaction));
    let Some(UndoResult::Refused(refusal)) = &state.last_undo_result else {
        panic!("expected a refusal");
    };
    assert!(matches!(refusal, UndoRefusal::TargetsUnresolved { .. }));
}

#[test]
fn undo_refuses_rather_than_guessing_between_two_identical_windows() {
    let mut state = state_ready_to_snap();
    apply(&mut state, Event::ZoneSnapRequested { direction: ZoneSnapDirection::Left });
    let transaction = stored(recorded_drafts(&state)[0], 1);
    apply(&mut state, Event::UndoHistoryLoaded(Some(transaction.clone())));
    apply(
        &mut state,
        Event::WindowsObserved {
            windows: vec![
                window_at(7, 1, Rect::new(0, 0, 960, 1080)),
                window_at(8, 1, Rect::new(0, 0, 960, 1080)),
            ],
        },
    );
    state.effects.clear();
    state.persistence_intents.clear();

    apply(&mut state, Event::UndoRequested);

    assert!(
        placements(&state).is_empty(),
        "Mosaix must never move the wrong window"
    );
    assert_eq!(state.newest_undo, Some(transaction));
    let Some(UndoResult::Refused(UndoRefusal::TargetsUnresolved { targets, .. })) =
        &state.last_undo_result
    else {
        panic!(
            "expected an unresolved refusal, got {:?}",
            state.last_undo_result
        );
    };
    assert_eq!(targets.len(), 1);
    assert!(
        matches!(targets[0].outcome, MatchOutcome::Ambiguous { .. }),
        "the refusal must say it was a tie, not that the window vanished"
    );
}

#[test]
fn undo_refuses_while_the_state_database_is_degraded() {
    let mut state = state_ready_to_snap();
    apply(&mut state, Event::ZoneSnapRequested { direction: ZoneSnapDirection::Left });
    let transaction = stored(recorded_drafts(&state)[0], 1);
    apply(&mut state, Event::UndoHistoryLoaded(Some(transaction.clone())));
    apply(
        &mut state,
        Event::PersistenceHealthChanged(PersistenceHealth::Degraded {
            last_durable_revision: 4,
            reason: PersistenceFailure::WriteFailed,
        }),
    );
    state.effects.clear();
    state.persistence_intents.clear();

    apply(&mut state, Event::UndoRequested);

    assert!(
        placements(&state).is_empty(),
        "undo that cannot be consumed could be applied twice"
    );
    assert_eq!(state.newest_undo, Some(transaction));
    let Some(UndoResult::Refused(refusal)) = &state.last_undo_result else {
        panic!("expected a refusal");
    };
    assert!(matches!(refusal, UndoRefusal::PersistenceDegraded { .. }));
}

#[test]
fn undo_with_empty_history_refuses_without_naming_a_transaction() {
    let mut state = state_ready_to_snap();

    apply(&mut state, Event::UndoRequested);

    assert!(placements(&state).is_empty());
    assert_eq!(
        state.last_undo_result,
        Some(UndoResult::Refused(UndoRefusal::NothingToUndo))
    );
}

#[test]
fn there_is_no_way_to_force_a_refused_undo() {
    let mut state = state_ready_to_snap();
    apply(&mut state, Event::ZoneSnapRequested { direction: ZoneSnapDirection::Left });
    let transaction = stored(recorded_drafts(&state)[0], 1);
    apply(&mut state, Event::UndoHistoryLoaded(Some(transaction.clone())));
    apply(&mut state, Event::WindowsObserved { windows: vec![] });

    for _ in 0..5 {
        state.effects.clear();
        apply(&mut state, Event::UndoRequested);
        assert!(
            placements(&state).is_empty(),
            "repeating a refused undo must not wear it down into a guess"
        );
        assert_eq!(state.newest_undo, Some(transaction.clone()));
    }
}

fn state_ready_for_a_two_window_command() -> Rig {
    let mut state =
        state_with_saved_layout("halves", &[(0.0, 0.0, 0.5, 1.0), (0.5, 0.0, 0.5, 1.0)]);
    state.displays = vec![display(1, "DISPLAY1", 0)];
    apply(
        &mut state,
        Event::WindowsObserved {
            windows: vec![
                window_at(11, 1, Rect::new(10, 10, 400, 300)),
                window_at(12, 1, Rect::new(500, 400, 400, 300)),
            ],
        },
    );
    apply(
        &mut state,
        Event::FocusDisplayRequested {
            display_id: DisplayId(1),
        },
    );
    state.effects.clear();
    state.persistence_intents.clear();
    state
}

#[test]
fn one_multi_window_command_records_one_transaction_covering_every_window() {
    let mut state = state_ready_for_a_two_window_command();

    apply(&mut state, Event::SavedLayoutApplyRequested { name: "halves".to_owned() });

    let drafts = recorded_drafts(&state);
    assert_eq!(
        drafts.len(),
        1,
        "two windows moved by one command is still one transaction"
    );
    let mut priors: Vec<Rect> = drafts[0]
        .members
        .iter()
        .map(|member| member.prior_placement)
        .collect();
    priors.sort_by_key(|rect| (rect.x, rect.y));
    assert_eq!(
        priors,
        vec![Rect::new(10, 10, 400, 300), Rect::new(500, 400, 400, 300)],
        "every window's own prior placement is recorded, not just the first"
    );
    let ordinals: Vec<u32> = drafts[0]
        .members
        .iter()
        .map(|member| member.ordinal)
        .collect();
    assert_eq!(ordinals, vec![0, 1], "members are ordinal-addressable");
}

#[test]
fn undoing_a_multi_window_command_restores_every_window_at_once() {
    let mut state = state_ready_for_a_two_window_command();
    apply(&mut state, Event::SavedLayoutApplyRequested { name: "halves".to_owned() });
    let transaction = stored(recorded_drafts(&state)[0], 5);
    state.persistence_intents.clear();
    state.effects.clear();
    apply(&mut state, Event::UndoHistoryLoaded(Some(transaction)));

    apply(&mut state, Event::UndoRequested);

    let mut restored: Vec<(WindowId, Rect)> = placements(&state)
        .into_iter()
        .map(|(window_id, _, bounds)| (window_id, bounds))
        .collect();
    restored.sort_by_key(|(window_id, _)| window_id.0);
    assert_eq!(
        restored,
        vec![
            (WindowId(11), Rect::new(10, 10, 400, 300)),
            (WindowId(12), Rect::new(500, 400, 400, 300)),
        ],
        "one undo reverses the whole command, not one window of it"
    );
    assert_eq!(
        state.persistence_intents,
        vec![PersistenceIntent::ConsumeUndoTransaction(
            UndoTransactionId(5)
        )],
        "consumption is committed in the same transition as the placements"
    );
}

#[test]
fn one_unresolvable_member_stops_the_whole_multi_window_undo() {
    let mut state = state_ready_for_a_two_window_command();
    apply(&mut state, Event::SavedLayoutApplyRequested { name: "halves".to_owned() });
    let transaction = stored(recorded_drafts(&state)[0], 5);
    apply(&mut state, Event::UndoHistoryLoaded(Some(transaction.clone())));
    apply(
        &mut state,
        Event::WindowsObserved {
            windows: vec![window_at(11, 1, Rect::new(0, 0, 960, 1080))],
        },
    );
    state.effects.clear();
    state.persistence_intents.clear();

    apply(&mut state, Event::UndoRequested);

    assert!(
        placements(&state).is_empty(),
        "a partial undo would leave a half-restored layout, so none of it runs"
    );
    assert!(
        state.persistence_intents.is_empty(),
        "a refused transaction is not consumed"
    );
    assert_eq!(state.newest_undo, Some(transaction));
    let Some(UndoResult::Refused(UndoRefusal::TargetsUnresolved { targets, .. })) =
        &state.last_undo_result
    else {
        panic!(
            "expected an unresolved refusal, got {:?}",
            state.last_undo_result
        );
    };
    assert_eq!(
        targets.len(),
        2,
        "both members are reported, not only the failing one"
    );
    assert_eq!(
        targets.iter().filter(|target| target.outcome.confident_window().is_some()).count(),
        1,
        "the report distinguishes the member that was found from the one that was not"
    );
}

#[test]
fn a_refused_newest_transaction_is_never_skipped_for_an_older_one() {
    let mut state =
        state_with_saved_layout("halves", &[(0.0, 0.0, 0.5, 1.0), (0.5, 0.0, 0.5, 1.0)]);
    state.displays = vec![display(1, "DISPLAY1", 0)];
    apply(
        &mut state,
        Event::WindowsObserved {
            windows: vec![
                app_window_at(11, "alpha.exe", 1, Rect::new(10, 10, 400, 300)),
                app_window_at(12, "beta.exe", 1, Rect::new(500, 400, 400, 300)),
            ],
        },
    );
    apply(
        &mut state,
        Event::FocusDisplayRequested {
            display_id: DisplayId(1),
        },
    );
    state.persistence_intents.clear();

    apply(&mut state, Event::SavedLayoutApplyRequested { name: "halves".to_owned() });
    let older = stored(recorded_drafts(&state)[0], 1);
    state.persistence_intents.clear();
    apply(
        &mut state,
        Event::WindowFocused {
            window_id: WindowId(11),
            display_id: DisplayId(1),
            bounds: Rect::new(0, 0, 960, 1080),
        },
    );
    apply(&mut state, Event::ZoneSnapRequested { direction: ZoneSnapDirection::Right });
    let newest = stored(recorded_drafts(&state)[0], 2);
    assert_ne!(older.id, newest.id);

    apply(&mut state, Event::UndoHistoryLoaded(Some(newest.clone())));
    apply(
        &mut state,
        Event::WindowsObserved {
            windows: vec![app_window_at(
                12,
                "beta.exe",
                1,
                Rect::new(960, 0, 960, 1080),
            )],
        },
    );
    state.effects.clear();
    state.persistence_intents.clear();

    apply(&mut state, Event::UndoRequested);

    assert!(
        placements(&state).is_empty(),
        "undo must not reach past an unavailable newest transaction"
    );
    assert_eq!(
        state.newest_undo,
        Some(newest),
        "the newest transaction stays newest; it is not discarded to reach the older one"
    );
    assert_eq!(
        state
            .last_undo_result
            .as_ref()
            .map(|result| matches!(result, UndoResult::Applied(_))),
        Some(false)
    );
    assert_ne!(
        state.newest_undo.as_ref().map(|held| held.id),
        Some(older.id)
    );
}

#[test]
fn an_explicit_command_and_the_reflow_it_causes_share_one_transaction() {
    let mut state = tiling_state_with_saved_layout("halves", &[(0.0, 0.0, 0.5, 1.0)]);
    state.displays = vec![display(1, "DISPLAY1", 0)];
    apply(
        &mut state,
        Event::WindowsObserved {
            windows: vec![
                window_at(21, 1, Rect::new(10, 10, 400, 300)),
                window_at(22, 1, Rect::new(500, 10, 400, 300)),
            ],
        },
    );
    apply(
        &mut state,
        Event::WindowFocused {
            window_id: WindowId(21),
            display_id: DisplayId(1),
            bounds: Rect::new(10, 10, 400, 300),
        },
    );
    state.persistence_intents.clear();

    apply(&mut state, Event::ZoneSnapRequested { direction: ZoneSnapDirection::Left });

    let drafts = recorded_drafts(&state);
    assert_eq!(
        drafts.len(),
        1,
        "the reflow is part of the command, not a second one"
    );
    let moved: HashSet<WindowId> = placements(&state)
        .into_iter()
        .map(|(window_id, _, _)| window_id)
        .collect();
    assert!(
        moved.len() > 1,
        "this test only means something if the snap provoked a reflow"
    );
    assert_eq!(
        drafts[0].members.len(),
        moved.len(),
        "every window the command moved is reversible with it"
    );
}

#[test]
fn no_passive_event_class_creates_an_undo_transaction() {
    let mut state = state_ready_for_a_two_window_command();

    apply(
        &mut state,
        Event::WindowBoundsObserved {
            window_id: WindowId(11),
            display_id: DisplayId(1),
            bounds: Rect::new(77, 77, 400, 300),
        },
    );
    apply(
        &mut state,
        Event::WindowsObserved {
            windows: vec![window_at(11, 1, Rect::new(77, 77, 400, 300))],
        },
    );
    apply(&mut state, topology_changed(vec![display(2, "DISPLAY2", 0)]));
    apply(&mut state, topology_changed(vec![display(1, "DISPLAY1", 0)]));
    apply(
        &mut state,
        wake(
            vec![display(1, "DISPLAY1", 0)],
            Some(vec![window_at(11, 1, Rect::new(77, 77, 400, 300))]),
        ),
    );

    assert!(
        recorded_drafts(&state).is_empty(),
        "undo must never claim it can reverse an application closing or a monitor \
         being unplugged"
    );
}

fn tiling_state_with_two_windows() -> Rig {
    let mut state = tiling_state_with_saved_layout("halves", &[(0.0, 0.0, 0.5, 1.0)]);
    state.displays = vec![display(1, "DISPLAY1", 0), display(2, "DISPLAY2", 1920)];
    apply(
        &mut state,
        Event::WindowsObserved {
            windows: vec![
                app_window_at(31, "alpha.exe", 1, Rect::new(10, 10, 400, 300)),
                app_window_at(32, "beta.exe", 1, Rect::new(500, 10, 400, 300)),
            ],
        },
    );
    apply(
        &mut state,
        Event::WindowFocused {
            window_id: WindowId(31),
            display_id: DisplayId(1),
            bounds: Rect::new(10, 10, 400, 300),
        },
    );
    state.effects.clear();
    state.persistence_intents.clear();
    state
}

type CommandCase = (&'static str, Box<dyn Fn(&mut Rig)>);

#[test]
fn every_explicit_placement_command_records_exactly_one_transaction() {
    let commands: Vec<CommandCase> = vec![
        (
            "zone snap",
            Box::new(|state: &mut Rig| {
                apply(
                    state,
                    Event::ZoneSnapRequested { direction: ZoneSnapDirection::Left },
                )
            }),
        ),
        (
            "throw to display",
            Box::new(|state: &mut Rig| {
                apply(
                    state,
                    Event::WindowThrowToDisplayRequested {
                        window_id: WindowId(31),
                        direction: DisplayDirection::Next,
                    },
                )
            }),
        ),
        (
            "directional swap",
            Box::new(|state: &mut Rig| {
                apply(
                    state,
                    Event::DirectionalSwapRequested { direction: CardinalDirection::Right },
                )
            }),
        ),
        (
            "toggle floating",
            Box::new(|state: &mut Rig| apply(state, Event::ToggleFloatingRequested)),
        ),
        (
            "toggle automatic tiling back on",
            Box::new(|state: &mut Rig| {
                apply(state, Event::ToggleAutomaticTilingRequested);
                for id in [31, 32] {
                    if let Some(placement) = state.windows.get(id).copied() {
                        let bounds = Rect::new(5, 5, 100, 100);
                        state.windows.insert(id, WindowPlacement { bounds, ..placement });
                    }
                }
                apply(state, Event::ToggleAutomaticTilingRequested);
            }),
        ),
    ];

    for (name, run) in commands {
        let mut state = tiling_state_with_two_windows();
        run(&mut state);
        let drafts = recorded_drafts(&state);
        assert_eq!(
            drafts.len(),
            1,
            "{name} moved windows but recorded {} transactions",
            drafts.len()
        );
        assert!(
            !drafts[0].members.is_empty(),
            "{name} recorded a transaction with nothing in it"
        );
    }
}

#[test]
fn a_rearrange_records_its_reflow_as_one_transaction() {
    let mut state = tiling_state_with_two_windows();

    apply(&mut state, Event::RearrangeRequested);
    apply(
        &mut state,
        Event::RearrangeReconciliationComplete {
            windows: vec![
                app_window_at(31, "alpha.exe", 1, Rect::new(10, 10, 400, 300)),
                app_window_at(32, "beta.exe", 1, Rect::new(500, 10, 400, 300)),
                app_window_at(33, "gamma.exe", 1, Rect::new(900, 10, 400, 300)),
            ],
        },
    );

    let drafts = recorded_drafts(&state);
    assert_eq!(drafts.len(), 1, "one rearrange, one transaction");
    assert_eq!(drafts[0].command, "rearrange");
}

#[test]
fn restore_keeps_its_own_meaning_and_is_still_durably_reversible() {
    let mut state = state_ready_to_snap();
    apply(&mut state, Event::ZoneSnapRequested { direction: ZoneSnapDirection::Left });
    state.persistence_intents.clear();
    state.effects.clear();

    apply(&mut state, Event::WindowRestoreRequested { window_id: WindowId(7) });

    assert_eq!(
        placements(&state),
        vec![(WindowId(7), DisplayId(1), Rect::new(10, 10, 500, 500))],
        "restore still returns the window to its remembered placement"
    );
    let drafts = recorded_drafts(&state);
    assert_eq!(drafts.len(), 1, "restore is an explicit placement command");
    assert_eq!(drafts[0].command, "restore");
    assert_eq!(
        drafts[0].members[0].prior_placement,
        Rect::new(0, 0, 960, 1080),
        "undoing a restore returns the window to where the restore found it"
    );

    state.effects.clear();
    state.persistence_intents.clear();
    apply(&mut state, Event::WindowRestoreRequested { window_id: WindowId(7) });
    assert!(
        placements(&state).is_empty(),
        "restore remembers one placement, not a history"
    );
    assert!(recorded_drafts(&state).is_empty());
}

#[test]
fn commands_that_change_no_placement_record_nothing() {
    let mut state = tiling_state_with_two_windows();

    apply(&mut state, Event::PauseRequested);
    apply(&mut state, Event::ResumeRequested);
    apply(
        &mut state,
        Event::DirectionalFocusRequested { direction: CardinalDirection::Right },
    );
    apply(
        &mut state,
        Event::FocusDisplayRequested {
            display_id: DisplayId(2),
        },
    );
    apply(&mut state, Event::HotkeyCaptureStarted);
    apply(&mut state, Event::HotkeyCaptureEnded);

    assert!(
        recorded_drafts(&state).is_empty(),
        "pausing, focusing, and opening the hotkey editor move no window, \
         so none of them belong in undo history"
    );
}

#[test]
fn a_command_that_moves_nothing_records_nothing() {
    let mut state = state_ready_to_snap();

    apply(
        &mut state,
        Event::WindowThrowToDisplayRequested {
            window_id: WindowId(7),
            direction: DisplayDirection::Next,
        },
    );

    assert!(
        recorded_drafts(&state).is_empty(),
        "undo must not offer to reverse a command that did nothing"
    );
}

fn tree_state() -> Rig {
    rig(EngineState {
        displays: vec![display(1, "DISPLAY1", 0)],
        automatic_tiling_active: true,
        resolved_config: ResolvedConfig {
            automatic_tiling_enabled: true,
            tiling_mode: TilingMode::Tree,
            ..ResolvedConfig::default()
        },
        ..EngineState::default()
    })
}

fn observe(state: &mut Rig, windows: Vec<Window>) {
    apply(state, Event::WindowsObserved { windows });
}

fn arrangement(state: &Rig) -> Vec<(isize, Rect)> {
    state
        .windows
        .keys()
        .into_iter()
        .map(|id| (id, state.windows.get(id).unwrap().bounds))
        .collect()
}

#[test]
fn tree_mode_gives_the_first_window_the_whole_work_area() {
    let mut state = tree_state();

    observe(&mut state, vec![window_at(1, 1, Rect::new(0, 0, 400, 300))]);

    assert_eq!(arrangement(&state), vec![(1, Rect::new(0, 0, 1920, 1080))]);
    assert_eq!(state.tree(1).open().len(), 1);
}

#[test]
fn a_new_window_splits_the_focused_leaf_in_half_on_its_longer_axis() {
    let mut state = tree_state();
    observe(&mut state, vec![window_at(1, 1, Rect::new(0, 0, 400, 300))]);

    observe(
        &mut state,
        vec![
            window_at(1, 1, Rect::new(0, 0, 1920, 1080)),
            window_at(2, 1, Rect::new(0, 0, 400, 300)),
        ],
    );

    assert_eq!(
        arrangement(&state),
        vec![
            (1, Rect::new(0, 0, 960, 1080)),
            (2, Rect::new(960, 0, 960, 1080)),
        ],
        "a 1920x1080 leaf is wider than tall, so it divides side by side"
    );

    apply(
        &mut state,
        Event::WindowFocused {
            window_id: WindowId(2),
            display_id: DisplayId(1),
            bounds: Rect::new(960, 0, 960, 1080),
        },
    );
    observe(
        &mut state,
        vec![
            window_at(1, 1, Rect::new(0, 0, 960, 1080)),
            window_at(2, 1, Rect::new(960, 0, 960, 1080)),
            window_at(3, 1, Rect::new(0, 0, 400, 300)),
        ],
    );

    assert_eq!(
        arrangement(&state),
        vec![
            (1, Rect::new(0, 0, 960, 1080)),
            (2, Rect::new(960, 0, 960, 540)),
            (3, Rect::new(960, 540, 960, 540)),
        ],
        "insertion follows focus and reshapes nothing else"
    );
}

#[test]
fn a_closed_window_gives_its_space_back_to_its_sibling() {
    let mut state = tree_state();
    observe(&mut state, vec![window_at(1, 1, Rect::new(0, 0, 400, 300))]);
    observe(
        &mut state,
        vec![
            window_at(1, 1, Rect::new(0, 0, 1920, 1080)),
            window_at(2, 1, Rect::new(0, 0, 400, 300)),
        ],
    );

    observe(
        &mut state,
        vec![window_at(1, 1, Rect::new(0, 0, 960, 1080))],
    );

    assert_eq!(arrangement(&state), vec![(1, Rect::new(0, 0, 1920, 1080))]);
    assert_eq!(state.tree(1).open().len(), 1);
}

#[test]
fn the_arrangement_does_not_depend_on_the_order_windows_were_observed() {
    let mut incremental = tree_state();
    observe(
        &mut incremental,
        vec![window_at(1, 1, Rect::new(0, 0, 400, 300))],
    );
    observe(
        &mut incremental,
        vec![
            window_at(1, 1, Rect::new(0, 0, 1920, 1080)),
            window_at(2, 1, Rect::new(0, 0, 400, 300)),
        ],
    );
    observe(
        &mut incremental,
        vec![
            window_at(1, 1, Rect::new(0, 0, 960, 1080)),
            window_at(2, 1, Rect::new(960, 0, 960, 1080)),
            window_at(3, 1, Rect::new(0, 0, 400, 300)),
        ],
    );

    let mut at_once = tree_state();
    observe(
        &mut at_once,
        vec![
            window_at(1, 1, Rect::new(0, 0, 400, 300)),
            window_at(2, 1, Rect::new(500, 0, 400, 300)),
            window_at(3, 1, Rect::new(1000, 0, 400, 300)),
        ],
    );

    assert_eq!(arrangement(&incremental), arrangement(&at_once));
}

#[test]
fn a_tree_command_and_its_reflow_form_one_undo_transaction() {
    let mut state = tree_state();
    observe(
        &mut state,
        vec![
            window_at(41, 1, Rect::new(0, 0, 400, 300)),
            window_at(42, 1, Rect::new(500, 0, 400, 300)),
        ],
    );
    apply(
        &mut state,
        Event::WindowFocused {
            window_id: WindowId(41),
            display_id: DisplayId(1),
            bounds: Rect::new(0, 0, 960, 1080),
        },
    );
    state.persistence_intents.clear();
    state.effects.clear();

    apply(
        &mut state,
        Event::DirectionalSwapRequested { direction: CardinalDirection::Right },
    );

    let drafts = recorded_drafts(&state);
    assert_eq!(
        drafts.len(),
        1,
        "the command and the BSP reflow it caused are one transaction"
    );
    assert_eq!(
        drafts[0].members.len(),
        2,
        "exactly the two swapped windows are reversible together"
    );
}

fn rich_tree_state() -> Rig {
    let mut state = tree_state();
    observe(
        &mut state,
        vec![known_window_at(
            1,
            "alpha.exe",
            1,
            Rect::new(0, 0, 400, 300),
        )],
    );
    observe(
        &mut state,
        vec![
            known_window_at(1, "alpha.exe", 1, Rect::new(0, 0, 1920, 1080)),
            known_window_at(2, "beta.exe", 1, Rect::new(0, 0, 400, 300)),
        ],
    );
    focus(&mut state, 2, Rect::new(960, 0, 960, 1080));
    observe(
        &mut state,
        vec![
            known_window_at(1, "alpha.exe", 1, Rect::new(0, 0, 960, 1080)),
            known_window_at(2, "beta.exe", 1, Rect::new(960, 0, 960, 1080)),
            known_window_at(4, "delta.exe", 1, Rect::new(0, 0, 400, 300)),
        ],
    );
    focus(&mut state, 4, Rect::new(960, 540, 960, 540));
    observe(
        &mut state,
        vec![
            known_window_at(1, "alpha.exe", 1, Rect::new(0, 0, 960, 1080)),
            known_window_at(2, "beta.exe", 1, Rect::new(960, 0, 960, 540)),
            known_window_at(4, "delta.exe", 1, Rect::new(960, 540, 960, 540)),
            known_window_at(3, "gamma.exe", 1, Rect::new(0, 0, 400, 300)),
        ],
    );
    observe(
        &mut state,
        vec![
            known_window_at(1, "alpha.exe", 1, Rect::new(0, 0, 960, 1080)),
            known_window_at(2, "beta.exe", 1, Rect::new(960, 0, 960, 360)),
            known_window_at(3, "gamma.exe", 1, Rect::new(960, 720, 960, 360)),
        ],
    );
    assert_eq!(state.tree(1).dormant().len(), 1);
    focus(&mut state, 2, Rect::new(960, 0, 960, 540));
    resize(&mut state, CardinalDirection::Left);
    assert_eq!(
        arrangement(&state),
        vec![
            (1, Rect::new(0, 0, 864, 1080)),
            (2, Rect::new(864, 0, 1056, 540)),
            (3, Rect::new(864, 540, 1056, 540)),
        ]
    );
    state.effects.clear();
    state.persistence_intents.clear();
    state
}

#[test]
fn swap_selects_exactly_the_neighbor_directional_focus_selects() {
    let mut state = rich_tree_state();
    for id in [1, 2, 3] {
        let bounds = state.windows.get(id).unwrap().bounds;
        focus(&mut state, id, bounds);
        for direction in [
            CardinalDirection::Left,
            CardinalDirection::Right,
            CardinalDirection::Up,
            CardinalDirection::Down,
        ] {
            let focus_target = state.neighbor(direction);
            let swap_target = state.swap_plan(direction)
                .ok()
                .map(|plan| plan.neighbor_id);
            assert_eq!(
                focus_target, swap_target,
                "from {id} going {direction:?}: focus and swap must name one neighbor"
            );
        }
    }
}

#[test]
fn swap_exchanges_only_two_bindings_and_leaves_every_other_slot_alone() {
    let mut state = rich_tree_state();
    let tree_before = state.tree(1);
    focus(&mut state, 1, Rect::new(0, 0, 864, 1080));

    apply(
        &mut state,
        Event::DirectionalSwapRequested { direction: CardinalDirection::Right },
    );

    let tree_after = state.tree(1);
    let unswapped = tree_after
        .changed(&TreeChange::SwapLeaves { a: WindowId(2), b: WindowId(1) })
        .expect("both windows are in the tree");
    assert_eq!(unswapped, tree_before);
    assert_eq!(
        tree_after.dormant().len(),
        1,
        "the dormant slot in the right column is untouched"
    );
    assert_eq!(
        placements(&state)
            .iter()
            .map(|(id, _, _)| id.0)
            .collect::<BTreeSet<_>>(),
        [1, 2].into_iter().collect(),
        "only the two swapped windows are placed; window 3 does not move"
    );
    assert_eq!(
        state.windows.get(3).unwrap().bounds,
        Rect::new(864, 540, 1056, 540)
    );
}

#[test]
fn focus_stays_on_the_same_window_which_now_sits_where_its_neighbor_was() {
    let mut state = rich_tree_state();
    focus(&mut state, 1, Rect::new(0, 0, 864, 1080));
    let neighbor_was = state.windows.get(2).unwrap().bounds;

    apply(
        &mut state,
        Event::DirectionalSwapRequested { direction: CardinalDirection::Right },
    );

    assert_eq!(state.focused_window, Some(WindowId(1)));
    assert_eq!(state.windows.get(1).unwrap().bounds, neighbor_was);
    assert!(
        !state
            .effects
            .iter()
            .any(|effect| matches!(effect, EngineEffect::FocusWindow { .. })),
        "no focus effect is needed: the same window keeps focus"
    );
    let drafts = recorded_drafts(&state);
    assert_eq!(drafts.len(), 1);
    assert_eq!(drafts[0].command, "swap-right");
    assert_eq!(drafts[0].members.len(), 2);
}

#[test]
fn swap_refuses_typed_at_boundaries_and_for_ineligible_endpoints() {
    let mut state = rich_tree_state();

    focus(&mut state, 1, Rect::new(0, 0, 864, 1080));
    assert_eq!(
        state.swap_plan(CardinalDirection::Left),
        Err(DirectionalSwapRefusal::NoNeighbor {
            command: CommandLabel::Swap(CardinalDirection::Left)
        })
    );
    let tree_before = state.tree(1);
    apply(&mut state, Event::DirectionalSwapRequested { direction: CardinalDirection::Left });
    assert_eq!(state.tree(1), tree_before);
    assert!(recorded_drafts(&state).is_empty());

    focus(&mut state, 3, Rect::new(864, 540, 1056, 540));
    apply(&mut state, Event::ToggleFloatingRequested);
    assert_eq!(
        state.swap_plan(CardinalDirection::Up),
        Err(DirectionalSwapRefusal::NotArranged {
            window_id: WindowId(3)
        })
    );
    focus(&mut state, 2, Rect::new(864, 0, 1056, 1080));
    assert!(matches!(
        state.swap_plan(CardinalDirection::Down),
        Err(DirectionalSwapRefusal::NoNeighbor { .. })
    ));

    state.paused = true;
    assert_eq!(
        state.swap_plan(CardinalDirection::Left),
        Err(DirectionalSwapRefusal::Paused)
    );
    state.focused_window = None;
    state.paused = false;
    assert_eq!(
        state.swap_plan(CardinalDirection::Left),
        Err(DirectionalSwapRefusal::NoFocusedWindow)
    );
}

#[test]
fn swap_never_crosses_a_display_where_display_transfer_would() {
    let mut state = tree_state();
    state.displays = vec![display(1, "DISPLAY1", 0), display(2, "DISPLAY2", 1920)];
    observe(
        &mut state,
        vec![
            known_window_at(1, "alpha.exe", 1, Rect::new(0, 0, 400, 300)),
            known_window_at(2, "beta.exe", 2, Rect::new(1920, 0, 400, 300)),
        ],
    );
    focus(&mut state, 1, Rect::new(0, 0, 1920, 1080));

    assert_eq!(
        state.swap_plan(CardinalDirection::Right),
        Err(DirectionalSwapRefusal::NoNeighbor {
            command: CommandLabel::Swap(CardinalDirection::Right)
        }),
        "the window on the next display is not a neighbor"
    );
    apply(
        &mut state,
        Event::WindowThrowToDisplayRequested {
            window_id: WindowId(1),
            direction: DisplayDirection::Next,
        },
    );
    assert_eq!(state.windows.get(1).unwrap().display_id, DisplayId(2));
}

fn known_window_at(id: isize, application: &str, display_id: isize, bounds: Rect) -> Window {
    let mut window = app_window_at(id, application, display_id, bounds);
    window.native_class = Some(format!("{application}-class"));
    window.executable_path = Some(format!("C:/apps/{application}"));
    window
}

fn two_apps_state() -> Rig {
    let mut state = tree_state();
    observe(
        &mut state,
        vec![
            known_window_at(1, "alpha.exe", 1, Rect::new(0, 0, 400, 300)),
            known_window_at(2, "beta.exe", 1, Rect::new(500, 0, 400, 300)),
        ],
    );
    assert_eq!(
        arrangement(&state),
        vec![
            (1, Rect::new(0, 0, 960, 1080)),
            (2, Rect::new(960, 0, 960, 1080)),
        ]
    );
    state.effects.clear();
    state.persistence_intents.clear();
    state
}

fn dormant_in(tree: &Tree<WindowId>) -> Vec<(u64, String, i64)> {
    tree.dormant()
        .into_iter()
        .map(|slot| {
            (slot.position, slot.dormant.evidence.application_id.0, slot.dormant.since_unix)
        })
        .collect()
}

fn dormant_positions(state: &Rig) -> Vec<(u64, String, i64)> {
    dormant_in(&state.tree(1))
}

#[test]
fn a_closed_window_leaves_a_dormant_slot_that_reserves_no_space() {
    let mut state = two_apps_state();

    observe(
        &mut state,
        vec![known_window_at(
            1,
            "alpha.exe",
            1,
            Rect::new(0, 0, 960, 1080),
        )],
    );

    assert_eq!(
        arrangement(&state),
        vec![(1, Rect::new(0, 0, 1920, 1080))],
        "alpha uses the whole display; the slot holds no space open"
    );
    let dormant = dormant_positions(&state);
    assert_eq!(dormant.len(), 1);
    assert_eq!(dormant[0].0, 1, "the slot keeps its insertion number");
    assert_eq!(
        dormant[0].1, "beta.exe",
        "and privacy-safe evidence of who held it"
    );
    assert!(
        recorded_drafts(&state).is_empty(),
        "a passive close is not an undo transaction"
    );
    assert!(
        state
            .persistence_intents
            .iter()
            .any(|intent| matches!(intent, PersistenceIntent::SaveContainerTree { .. })),
        "the dormant slot is durable"
    );
}

#[test]
fn a_returning_window_reclaims_its_slot_on_a_confident_match() {
    let mut state = two_apps_state();
    let tree_before = state.tree(1);
    observe(
        &mut state,
        vec![known_window_at(
            1,
            "alpha.exe",
            1,
            Rect::new(0, 0, 960, 1080),
        )],
    );
    assert_eq!(dormant_positions(&state).len(), 1);

    focus(&mut state, 1, Rect::new(0, 0, 1920, 1080));
    observe(
        &mut state,
        vec![
            known_window_at(1, "alpha.exe", 1, Rect::new(0, 0, 1920, 1080)),
            known_window_at(77, "beta.exe", 1, Rect::new(300, 300, 400, 300)),
        ],
    );

    assert_eq!(
        arrangement(&state),
        vec![
            (1, Rect::new(0, 0, 960, 1080)),
            (77, Rect::new(960, 0, 960, 1080)),
        ],
        "beta is back on the right, where its slot was"
    );
    assert!(dormant_positions(&state).is_empty());
    assert_eq!(
        state.tree(1).number_of(&WindowId(77)),
        tree_before.number_of(&WindowId(2)),
        "the reclaimed slot is the original slot, metadata and all"
    );
}

#[test]
fn an_ambiguous_return_inserts_fresh_and_leaves_the_slot_alone() {
    let mut state = two_apps_state();
    observe(
        &mut state,
        vec![known_window_at(
            1,
            "alpha.exe",
            1,
            Rect::new(0, 0, 960, 1080),
        )],
    );

    observe(
        &mut state,
        vec![
            known_window_at(1, "alpha.exe", 1, Rect::new(0, 0, 1920, 1080)),
            known_window_at(77, "beta.exe", 1, Rect::new(300, 300, 400, 300)),
            known_window_at(78, "beta.exe", 1, Rect::new(300, 300, 400, 300)),
        ],
    );

    assert_eq!(
        dormant_positions(&state).len(),
        1,
        "an ambiguous match must not mutate the tree"
    );
    assert_eq!(
        state.tree(1).open().len(),
        3,
        "both were inserted fresh"
    );
}

#[test]
fn dormant_slots_expire_after_seven_days_on_the_next_reflow() {
    let mut state = two_apps_state();
    observe(
        &mut state,
        vec![known_window_at(
            1,
            "alpha.exe",
            1,
            Rect::new(0, 0, 960, 1080),
        )],
    );
    let since_unix = now_unix() - DORMANT_RETENTION_SECONDS - 1;
    let aged = state.tree(1).mapped(&mut |leaf| {
        Some(match &leaf.held {
            Held::Open(window_id) => Held::Open(*window_id),
            Held::Closed(dormant) => Held::Closed(DormantPosition {
                evidence: dormant.evidence.clone(),
                since_unix,
            }),
        })
    });
    state.set_tree(1, aged);

    observe(
        &mut state,
        vec![known_window_at(
            1,
            "alpha.exe",
            1,
            Rect::new(2, 2, 1916, 1076),
        )],
    );

    assert!(
        dormant_positions(&state).is_empty(),
        "the aged slot is pruned"
    );
    assert!(
        matches!(state.tree(1).root, Some(Node::Leaf(_))),
        "and the container that located it is gone"
    );
}

#[test]
fn removing_a_dormant_position_is_explicit_typed_and_undoable() {
    let mut state = two_apps_state();
    observe(
        &mut state,
        vec![known_window_at(
            1,
            "alpha.exe",
            1,
            Rect::new(0, 0, 960, 1080),
        )],
    );
    let tree_before = state.tree(1);
    state.persistence_intents.clear();

    assert_eq!(
        state.remove_plan(DisplayId(1), 5),
        Err(RemovePositionRefusal::UnknownPosition {
            display_id: DisplayId(1),
            position: 5
        })
    );
    assert_eq!(
        state.remove_plan(DisplayId(1), 0),
        Err(RemovePositionRefusal::UnknownPosition {
            display_id: DisplayId(1),
            position: 0
        }),
        "a live slot is not removable this way"
    );
    assert_eq!(
        state.remove_plan(DisplayId(9), 1),
        Err(RemovePositionRefusal::DisplayUnavailable {
            display_id: DisplayId(9)
        })
    );
    let applied = state.remove_plan(DisplayId(1), 1).expect("the slot exists");
    assert_eq!(applied.application, "beta.exe");

    apply(
        &mut state,
        Event::TreePositionRemoveRequested {
            display_id: DisplayId(1),
            position: 1,
        },
    );

    assert!(dormant_positions(&state).is_empty());
    let drafts = recorded_drafts(&state);
    assert_eq!(
        drafts.len(),
        1,
        "a structural change with no placements is still a transaction"
    );
    assert_eq!(drafts[0].command, "remove-position");
    assert_eq!(drafts[0].prior_trees.len(), 1);

    let stored = stored(drafts[0], 1);
    apply(&mut state, Event::UndoHistoryLoaded(Some(stored)));
    apply(&mut state, Event::UndoRequested);

    assert!(matches!(
        state.last_undo_result,
        Some(UndoResult::Applied(_))
    ));
    assert_eq!(
        dormant_positions(&state),
        dormant_in(&tree_before),
        "undo puts the dormant slot back"
    );
}

#[test]
fn a_stored_arrangement_whose_window_is_missing_keeps_its_slot_dormant() {
    let mut first = two_apps_state();
    let durable = first.durable(1);
    let stored = first.outside.get_mut().persisted(durable).clone();

    let mut state = tree_state();
    observe(
        &mut state,
        vec![known_window_at(
            501,
            "alpha.exe",
            1,
            Rect::new(0, 0, 400, 300),
        )],
    );
    let loaded = trees_loaded(&mut state, stored);
    apply(&mut state, loaded);
    observe(
        &mut state,
        vec![known_window_at(
            501,
            "alpha.exe",
            1,
            Rect::new(0, 0, 1920, 1080),
        )],
    );
    assert_eq!(
        arrangement(&state),
        vec![(501, Rect::new(0, 0, 1920, 1080))]
    );
    assert_eq!(dormant_positions(&state).len(), 1, "beta is remembered");

    observe(
        &mut state,
        vec![
            known_window_at(501, "alpha.exe", 1, Rect::new(0, 0, 1920, 1080)),
            known_window_at(502, "beta.exe", 1, Rect::new(10, 10, 400, 300)),
        ],
    );
    assert_eq!(
        arrangement(&state),
        vec![
            (501, Rect::new(0, 0, 960, 1080)),
            (502, Rect::new(960, 0, 960, 1080)),
        ],
        "beta reclaims the right-hand slot across the restart"
    );
    assert!(dormant_positions(&state).is_empty());
}

/// A stored tree, as the database of this engine hands it over.
fn trees_loaded(state: &mut Rig, stored: Tree<WindowEvidence>) -> Event {
    let tree = state.outside.get_mut().store(stored);
    Event::ContainerTreesLoaded(vec![StoredTree {
        display_fingerprint: "DISPLAY1".to_owned(),
        tree,
    }])
}

fn nested_tree_state() -> Rig {
    let mut state = tree_state();
    observe(&mut state, vec![window_at(1, 1, Rect::new(0, 0, 400, 300))]);
    observe(
        &mut state,
        vec![
            window_at(1, 1, Rect::new(0, 0, 1920, 1080)),
            window_at(2, 1, Rect::new(0, 0, 400, 300)),
        ],
    );
    focus(&mut state, 2, Rect::new(960, 0, 960, 1080));
    observe(
        &mut state,
        vec![
            window_at(1, 1, Rect::new(0, 0, 960, 1080)),
            window_at(2, 1, Rect::new(960, 0, 960, 1080)),
            window_at(3, 1, Rect::new(0, 0, 400, 300)),
        ],
    );
    assert_eq!(
        arrangement(&state),
        vec![
            (1, Rect::new(0, 0, 960, 1080)),
            (2, Rect::new(960, 0, 960, 540)),
            (3, Rect::new(960, 540, 960, 540)),
        ]
    );
    state.effects.clear();
    state.persistence_intents.clear();
    state
}

fn focus(state: &mut Rig, id: isize, bounds: Rect) {
    apply(
        state,
        Event::WindowFocused {
            window_id: WindowId(id),
            display_id: DisplayId(1),
            bounds,
        },
    );
}

fn resize(state: &mut Rig, direction: CardinalDirection) {
    apply(state, Event::TreeResizeRequested { direction });
}

#[test]
fn resizing_moves_the_nearest_divider_by_five_points_and_reflows() {
    let mut state = nested_tree_state();
    focus(&mut state, 3, Rect::new(960, 540, 960, 540));

    resize(&mut state, CardinalDirection::Up);

    assert_eq!(
        arrangement(&state),
        vec![
            (1, Rect::new(0, 0, 960, 1080)),
            (2, Rect::new(960, 0, 960, 486)),
            (3, Rect::new(960, 486, 960, 594)),
        ],
        "the focused window grew upward and its sibling gave the space; nothing else moved"
    );
}

#[test]
fn resizing_climbs_to_the_outer_divider_when_the_parent_cannot_face_that_way() {
    let mut state = nested_tree_state();
    focus(&mut state, 3, Rect::new(960, 540, 960, 540));

    resize(&mut state, CardinalDirection::Left);

    assert_eq!(
        arrangement(&state),
        vec![
            (1, Rect::new(0, 0, 864, 1080)),
            (2, Rect::new(864, 0, 1056, 540)),
            (3, Rect::new(864, 540, 1056, 540)),
        ]
    );
}

#[test]
fn resizing_at_the_arrangement_edge_is_a_typed_no_op() {
    let mut state = nested_tree_state();
    focus(&mut state, 1, Rect::new(0, 0, 960, 1080));
    let before = state.tree(1);

    assert_eq!(
        state.resize_plan(CardinalDirection::Left),
        Err(TreeResizeRefusal::NoDivider {
            command: CommandLabel::Resize(CardinalDirection::Left)
        })
    );
    assert!(matches!(
        state.resize_plan(CardinalDirection::Up),
        Err(TreeResizeRefusal::NoDivider { .. })
    ));
    resize(&mut state, CardinalDirection::Left);

    assert_eq!(
        state.tree(1),
        before,
        "no unrelated axis was touched"
    );
    assert!(placements(&state).is_empty());
    assert!(
        recorded_drafts(&state).is_empty(),
        "a refused resize records no transaction"
    );
}

#[test]
fn resizing_is_refused_for_windows_the_tree_does_not_arrange() {
    let mut state = nested_tree_state();
    assert_eq!(
        rig(EngineState::default()).resize_plan(CardinalDirection::Left),
        Err(TreeResizeRefusal::NotTreeMode)
    );
    state.focused_window = None;
    assert_eq!(
        state.resize_plan(CardinalDirection::Left),
        Err(TreeResizeRefusal::NoFocusedWindow)
    );

    focus(&mut state, 2, Rect::new(960, 0, 960, 540));
    apply(&mut state, Event::ToggleFloatingRequested);
    assert_eq!(
        state.resize_plan(CardinalDirection::Left),
        Err(TreeResizeRefusal::NotArranged {
            window_id: WindowId(2)
        })
    );

    state.paused = true;
    assert_eq!(
        state.resize_plan(CardinalDirection::Left),
        Err(TreeResizeRefusal::Paused)
    );
}

#[test]
fn resizing_clamps_to_the_largest_step_that_respects_minimum_sizes() {
    let mut state = tree_state();
    observe(
        &mut state,
        vec![
            window_needing(1, 1, Rect::new(0, 0, 400, 300), (940, 100)),
            window_at(2, 1, Rect::new(500, 0, 400, 300)),
        ],
    );
    focus(&mut state, 2, Rect::new(960, 0, 960, 1080));
    state.persistence_intents.clear();

    let plan = state.resize_plan(CardinalDirection::Left).expect("one point fits");
    assert_eq!(plan.applied.percentage_points, 1);
    resize(&mut state, CardinalDirection::Left);
    assert_eq!(state.windows.get(1).unwrap().bounds.width, 941);
    assert!(
        state.constraint_overflow.is_empty(),
        "the clamp never overflows a window"
    );

    assert_eq!(
        state.resize_plan(CardinalDirection::Left),
        Err(TreeResizeRefusal::MinimumSizeReached {
            command: CommandLabel::Resize(CardinalDirection::Left)
        })
    );
    let before = state.tree(1);
    resize(&mut state, CardinalDirection::Left);
    assert_eq!(state.tree(1), before);
}

#[test]
fn resizing_never_pays_for_itself_with_gaps() {
    let mut state = tree_state();
    state.resolved_config.gaps = Gaps::new(20, 12);
    observe(
        &mut state,
        vec![
            window_needing(1, 1, Rect::new(0, 0, 400, 300), (940, 100)),
            window_at(2, 1, Rect::new(500, 0, 400, 300)),
        ],
    );
    focus(&mut state, 2, Rect::new(960, 0, 960, 1080));

    assert!(matches!(
        state.resize_plan(CardinalDirection::Left),
        Err(TreeResizeRefusal::MinimumSizeReached { .. })
    ));
}

#[test]
fn a_resize_and_its_placements_are_one_undo_transaction_that_restores_the_tree() {
    let mut state = nested_tree_state();
    focus(&mut state, 3, Rect::new(960, 540, 960, 540));
    let tree_before = state.tree(1);
    let arrangement_before = arrangement(&state);

    resize(&mut state, CardinalDirection::Up);

    let drafts = recorded_drafts(&state);
    assert_eq!(drafts.len(), 1, "one command, one transaction");
    assert_eq!(drafts[0].command, "resize-up");
    assert_eq!(drafts[0].members.len(), 2, "both moved windows are members");
    assert_eq!(
        drafts[0].prior_trees.len(),
        1,
        "and the tree as it was rides along"
    );
    assert_eq!(drafts[0].prior_trees[0].display_fingerprint, "DISPLAY1");

    let stored = stored(drafts[0], 1);
    apply(&mut state, Event::UndoHistoryLoaded(Some(stored)));
    state.effects.clear();
    apply(&mut state, Event::UndoRequested);

    assert!(matches!(
        state.last_undo_result,
        Some(UndoResult::Applied(_))
    ));
    assert_eq!(
        arrangement(&state),
        arrangement_before,
        "the windows are back"
    );
    assert_eq!(
        state.tree(1),
        tree_before,
        "and so are the weights, so the next reflow does not redo the resize"
    );

    state.effects.clear();
    observe(
        &mut state,
        vec![
            window_at(1, 1, Rect::new(0, 0, 960, 1080)),
            window_at(2, 1, Rect::new(960, 0, 960, 540)),
            window_at(3, 1, Rect::new(960, 540, 960, 540)),
        ],
    );
    assert!(placements(&state).is_empty());
}

#[test]
fn undoing_a_swap_restores_the_tree_as_well_as_the_windows() {
    let mut state = nested_tree_state();
    focus(&mut state, 1, Rect::new(0, 0, 960, 1080));
    let tree_before = state.tree(1);

    apply(
        &mut state,
        Event::DirectionalSwapRequested { direction: CardinalDirection::Right },
    );
    assert_ne!(state.tree(1), tree_before);
    let drafts = recorded_drafts(&state);
    assert_eq!(drafts.len(), 1);
    assert_eq!(drafts[0].prior_trees.len(), 1);
    let stored = stored(drafts[0], 1);
    apply(&mut state, Event::UndoHistoryLoaded(Some(stored)));

    apply(&mut state, Event::UndoRequested);

    assert_eq!(state.tree(1), tree_before);
}

fn contains(area: Rect, rect: Rect) -> bool {
    rect.x >= area.x
        && rect.y >= area.y
        && rect.x + rect.width <= area.x + area.width
        && rect.y + rect.height <= area.y + area.height
}

#[test]
fn resize_survives_deep_unbalanced_odd_and_negative_origin_arrangements() {
    let mut state = tree_state();
    state.displays[0].full_bounds = Rect::new(-1367, -13, 1367, 769);
    state.displays[0].work_area = Rect::new(-1367, -13, 1367, 741);
    state.displays[0].scale_factor_bits = 1.25f64.to_bits();
    state.displays.push(display(2, "DISPLAY2", 0));
    let mut windows = Vec::new();
    for id in 1..=5 {
        windows.push(window_at(
            id,
            1,
            Rect::new(-1300 + id as i32 * 10, 0, 300, 200),
        ));
        observe(&mut state, windows.clone());
        let bounds = state.windows.get(id).unwrap().bounds;
        focus(&mut state, id, bounds);
    }
    for id in 6..=8 {
        windows.push(window_at(id, 2, Rect::new(id as i32 * 10, 0, 300, 200)));
        observe(&mut state, windows.clone());
        let bounds = state.windows.get(id).unwrap().bounds;
        focus(&mut state, id, bounds);
    }
    let work_area_of_display =
        |state: &Rig, id: isize| state.displays[usize::from(id != 1)].work_area;
    for (id, direction) in [
        (5, CardinalDirection::Left),
        (5, CardinalDirection::Up),
        (3, CardinalDirection::Down),
        (2, CardinalDirection::Right),
        (4, CardinalDirection::Left),
        (7, CardinalDirection::Left),
        (8, CardinalDirection::Up),
        (6, CardinalDirection::Right),
    ] {
        let bounds = state.windows.get(id).unwrap().bounds;
        focus(&mut state, id, bounds);
        resize(&mut state, direction);
        for display_id in [1, 2] {
            let work_area = work_area_of_display(&state, display_id);
            let placed: Vec<Rect> = state
                .windows
                .keys()
                .into_iter()
                .map(|id| *state.windows.get(id).unwrap())
                .filter(|placement| placement.display_id == DisplayId(display_id))
                .map(|placement| placement.bounds)
                .collect();
            let covered: i64 = placed
                .iter()
                .map(|rect| (rect.width as i64) * (rect.height as i64))
                .sum();
            assert_eq!(
                covered,
                (work_area.width as i64) * (work_area.height as i64),
                "after {direction:?} on {id}: display {display_id} must still be tiled exactly"
            );
            for rect in &placed {
                assert!(contains(work_area, *rect), "{rect:?} escaped {work_area:?}");
            }
        }
    }
}

#[test]
fn an_overflowed_window_returns_when_the_display_grows() {
    let mut state = narrow_tree_state(1000);
    state.config_set = ResolvedConfigSet {
        base: state.resolved_config.clone(),
        profiles: Vec::new(),
    };
    observe(
        &mut state,
        vec![
            window_needing(1, 1, Rect::new(0, 0, 400, 300), (600, 100)),
            window_needing(2, 1, Rect::new(500, 0, 400, 300), (600, 100)),
        ],
    );
    assert_eq!(
        state.overflow(1),
        vec![WindowId(2)]
    );
    let tree_before = state.tree(1);

    let mut wider = display(1, "DISPLAY1", 0);
    wider.full_bounds = Rect::new(0, 0, 1400, 600);
    wider.work_area = Rect::new(0, 0, 1400, 600);
    apply(&mut state, topology_changed(vec![wider]));

    assert!(state.constraint_overflow.is_empty());
    assert_eq!(state.tree(1), tree_before, "the leaf was kept");
    assert_eq!(
        state.windows.get(2).unwrap().bounds,
        Rect::new(700, 0, 700, 600)
    );
}

#[test]
fn a_floated_or_transferred_window_leaves_the_tree_without_a_dormant_slot() {
    let mut state = two_apps_state();
    state.displays.push(display(2, "DISPLAY2", 1920));

    focus(&mut state, 2, Rect::new(960, 0, 960, 1080));
    apply(&mut state, Event::ToggleFloatingRequested);
    assert!(
        dormant_positions(&state).is_empty(),
        "a window the user floated is visible; a slot kept for it would be a ghost"
    );
    apply(&mut state, Event::ToggleFloatingRequested);

    apply(
        &mut state,
        Event::WindowThrowToDisplayRequested {
            window_id: WindowId(2),
            direction: DisplayDirection::Next,
        },
    );
    assert!(
        dormant_positions(&state).is_empty(),
        "display transfer is explicit; the source keeps no slot"
    );
}

#[test]
fn a_stored_dormant_slot_past_retention_is_pruned_on_load() {
    let mut first = two_apps_state();
    let durable = first.durable(1);
    let since_unix = now_unix() - DORMANT_RETENTION_SECONDS - 1;
    let aged = first.outside.get_mut().persisted(durable).mapped(&mut |leaf| {
        Some(match &leaf.held {
            Held::Open(evidence) if evidence.application_id.0 == "beta.exe" => {
                Held::Closed(DormantPosition { evidence: evidence.clone(), since_unix })
            }
            held => held.clone(),
        })
    });

    let mut state = tree_state();
    observe(
        &mut state,
        vec![known_window_at(
            501,
            "alpha.exe",
            1,
            Rect::new(0, 0, 400, 300),
        )],
    );
    let loaded = trees_loaded(&mut state, aged);
    apply(&mut state, loaded);
    observe(
        &mut state,
        vec![known_window_at(
            501,
            "alpha.exe",
            1,
            Rect::new(0, 0, 1920, 1080),
        )],
    );

    assert!(
        dormant_positions(&state).is_empty(),
        "retention counts from when it went dormant"
    );
    assert_eq!(state.tree(1).open().len(), 1);
}

#[test]
fn undo_refuses_when_a_leaf_of_the_prior_tree_is_ambiguous() {
    let mut state = two_apps_state();
    focus(&mut state, 1, Rect::new(0, 0, 960, 1080));
    apply(
        &mut state,
        Event::DirectionalSwapRequested { direction: CardinalDirection::Right },
    );
    let mut draft = recorded_drafts(&state)[0].clone();
    observe(
        &mut state,
        vec![
            known_window_at(1, "alpha.exe", 1, Rect::new(960, 0, 960, 1080)),
            known_window_at(2, "beta.exe", 1, Rect::new(0, 0, 960, 1080)),
            known_window_at(8, "gamma.exe", 1, Rect::new(10, 10, 300, 200)),
            known_window_at(9, "gamma.exe", 1, Rect::new(10, 10, 300, 200)),
        ],
    );
    let gamma = WindowEvidence {
        application_id: ApplicationId("gamma.exe".to_owned()),
        executable_path: Some("C:/apps/gamma.exe".to_owned()),
        native_class: Some("gamma.exe-class".to_owned()),
        role: WindowRole::Normal,
        launch_order: 5,
        last_placement: Rect::new(5000, 5000, 10, 10),
        display_fingerprint: "DISPLAY1".to_owned(),
    };
    let mut with_gamma = state.outside.get_mut().persisted(draft.prior_trees[0].tree).clone();
    let first_leaf = with_gamma.open()[0].clone();
    with_gamma.split_leaf(&first_leaf, SplitAxis::Vertical, gamma);
    draft.prior_trees[0].tree = state.outside.get_mut().store(with_gamma);
    let stored = stored(&draft, 1);
    apply(&mut state, Event::UndoHistoryLoaded(Some(stored)));
    state.effects.clear();
    let tree_before = state.tree(1);

    let planned = state.undo_plan();
    let UndoResult::Refused(UndoRefusal::TargetsUnresolved { targets, .. }) = &planned else {
        panic!("an ambiguous leaf must refuse, got {planned:?}");
    };
    assert!(targets.iter().any(|target| {
        target.application == "gamma.exe"
            && matches!(target.outcome, MatchOutcome::Ambiguous { .. })
    }));
    apply(&mut state, Event::UndoRequested);
    assert!(placements(&state).is_empty(), "nothing moved");
    assert_eq!(state.tree(1), tree_before, "nothing reshaped");
    assert!(
        state.newest_undo.is_some(),
        "the transaction is kept for retry"
    );
}

fn window_needing(id: isize, display_id: isize, bounds: Rect, minimum: (i32, i32)) -> Window {
    let mut window = window_at(id, display_id, bounds);
    window.minimum_size = Some(Size { width: minimum.0, height: minimum.1 });
    window
}

fn narrow_tree_state(width: i32) -> Rig {
    let mut state = tree_state();
    state.displays[0].full_bounds = Rect::new(0, 0, width, 600);
    state.displays[0].work_area = Rect::new(0, 0, width, 600);
    state
}

#[test]
fn a_window_the_tree_cannot_fit_overflows_and_keeps_its_leaf() {
    let mut state = narrow_tree_state(1000);
    observe(
        &mut state,
        vec![
            window_needing(1, 1, Rect::new(0, 0, 400, 300), (400, 400)),
            window_needing(2, 1, Rect::new(500, 0, 400, 300), (400, 400)),
        ],
    );
    observe(
        &mut state,
        vec![
            window_needing(1, 1, Rect::new(0, 0, 500, 600), (400, 400)),
            window_needing(2, 1, Rect::new(500, 0, 500, 600), (400, 400)),
            window_needing(3, 1, Rect::new(10, 10, 400, 300), (400, 400)),
        ],
    );

    assert_eq!(
        state.overflow(1),
        vec![WindowId(3)],
        "the newest window is the one that overflowed"
    );
    assert!(
        state.tree(1).open().contains(&WindowId(3)),
        "an overflowed window keeps its tree leaf"
    );
    assert_eq!(
        state.windows.get(3).unwrap().bounds,
        Rect::new(10, 10, 400, 300),
        "an overflowed window is left where it is, not squeezed"
    );
    assert_eq!(
        state.inventory.get(3).unwrap().eligibility,
        EligibilityReason::Eligible,
        "overflow is a planner outcome, not an eligibility change"
    );
    assert!(
        !state.session_floating.contains(3),
        "overflow is distinct from a session-floating choice"
    );
    assert_eq!(
        state.windows.get(1).unwrap().bounds,
        Rect::new(0, 0, 500, 600)
    );
    assert_eq!(
        state.windows.get(2).unwrap().bounds,
        Rect::new(500, 0, 500, 600)
    );
}

#[test]
fn an_overflowed_window_returns_to_its_leaf_when_the_tree_can_hold_it() {
    let mut state = narrow_tree_state(1000);
    observe(
        &mut state,
        vec![
            window_needing(1, 1, Rect::new(0, 0, 400, 300), (600, 100)),
            window_needing(2, 1, Rect::new(500, 0, 400, 300), (600, 100)),
        ],
    );
    assert_eq!(
        state.overflow(1),
        vec![WindowId(2)],
        "the fixture must overflow the newer window to mean anything"
    );
    state.effects.clear();
    state.persistence_intents.clear();

    observe(
        &mut state,
        vec![window_needing(
            2,
            1,
            Rect::new(500, 0, 400, 300),
            (600, 100),
        )],
    );

    assert!(
        state.constraint_overflow.is_empty(),
        "nothing overflows once the constraints can be met"
    );
    assert_eq!(
        placements(&state),
        vec![(WindowId(2), DisplayId(1), Rect::new(0, 0, 1000, 600))],
        "the returning window is placed by the reflow, in the leaf it kept"
    );
    assert!(
        recorded_drafts(&state).is_empty(),
        "overflow and re-entry are passive; neither is an undo transaction"
    );
}

#[test]
fn overflow_windows_are_not_directional_endpoints_in_tree_mode() {
    let mut state = narrow_tree_state(1000);
    observe(
        &mut state,
        vec![
            window_needing(1, 1, Rect::new(0, 0, 400, 300), (400, 400)),
            window_needing(2, 1, Rect::new(500, 0, 400, 300), (400, 400)),
            window_needing(3, 1, Rect::new(600, 10, 400, 300), (400, 400)),
        ],
    );
    assert_eq!(
        state.overflow(1),
        vec![WindowId(3)]
    );

    apply(
        &mut state,
        Event::WindowFocused {
            window_id: WindowId(3),
            display_id: DisplayId(1),
            bounds: Rect::new(600, 10, 400, 300),
        },
    );
    let tree_before = state.tree(1);
    state.effects.clear();
    apply(&mut state, Event::DirectionalSwapRequested { direction: CardinalDirection::Left });
    assert_eq!(state.tree(1), tree_before);
    assert!(placements(&state).is_empty());

    apply(
        &mut state,
        Event::WindowFocused {
            window_id: WindowId(2),
            display_id: DisplayId(1),
            bounds: Rect::new(500, 0, 500, 600),
        },
    );
    state.effects.clear();
    apply(
        &mut state,
        Event::DirectionalFocusRequested { direction: CardinalDirection::Right },
    );
    assert!(
        state.effects.is_empty(),
        "the overflowed window to the right is not a focus target"
    );
}

#[test]
fn overflow_reduces_gaps_before_it_removes_a_window() {
    let mut state = narrow_tree_state(1000);
    state.resolved_config.gaps = Gaps::new(20, 12);
    observe(
        &mut state,
        vec![
            window_needing(1, 1, Rect::new(0, 0, 400, 300), (490, 100)),
            window_needing(2, 1, Rect::new(500, 0, 400, 300), (490, 100)),
        ],
    );

    assert!(state.constraint_overflow.is_empty());
    assert!(state.windows.get(1).unwrap().bounds.width >= 490);
    assert!(state.windows.get(2).unwrap().bounds.width >= 490);
}

#[test]
fn balanced_mode_keeps_no_tree_at_all() {
    let mut state = tiling_state_with_saved_layout("unused", &[]);
    state.displays = vec![display(1, "DISPLAY1", 0)];

    observe(
        &mut state,
        vec![
            window_at(1, 1, Rect::new(0, 0, 400, 300)),
            window_at(2, 1, Rect::new(500, 0, 400, 300)),
        ],
    );

    assert!(
        state.trees.is_empty(),
        "the balanced grid is stateless; it must not accumulate structure"
    );
}

#[test]
fn a_disconnected_display_takes_its_tree_with_it() {
    let mut state = tree_state();
    state.displays = vec![display(1, "DISPLAY1", 0), display(2, "DISPLAY2", 1920)];
    observe(
        &mut state,
        vec![
            window_at(1, 1, Rect::new(0, 0, 400, 300)),
            window_at(2, 2, Rect::new(1920, 0, 400, 300)),
        ],
    );
    assert_eq!(state.trees.len(), 2);

    apply(&mut state, topology_changed(vec![display(1, "DISPLAY1", 0)]));

    assert_eq!(
        state.trees.keys(),
        vec![1],
        "a tree for a display nobody can see is structure with nowhere to go"
    );
}

#[test]
fn a_storage_failure_leaves_the_committed_arrangement_intact() {
    let mut state = state_with_saved_layout("half", &[(0.0, 0.0, 0.5, 1.0)]);
    apply(
        &mut state,
        Event::WindowsObserved {
            windows: vec![window_at(1, 1, Rect::new(0, 0, 600, 600))],
        },
    );
    apply(
        &mut state,
        Event::FocusDisplayRequested {
            display_id: DisplayId(1),
        },
    );
    apply(&mut state, Event::SavedLayoutApplyRequested { name: "half".to_owned() });
    assert!(
        !placements(&state).is_empty(),
        "the layout must have been applied for this test to mean anything"
    );
    let windows_before = state.windows.clone();
    let inventory_before = state.inventory.clone();
    state.effects.clear();

    apply(
        &mut state,
        Event::PersistenceHealthChanged(PersistenceHealth::Degraded {
            last_durable_revision: 3,
            reason: PersistenceFailure::WriteFailed,
        }),
    );

    assert_eq!(
        state.windows, windows_before,
        "a storage failure must not move a window"
    );
    assert_eq!(
        state.inventory, inventory_before,
        "a storage failure must not forget a window"
    );
    assert!(
        state.effects.is_empty(),
        "a storage failure must emit no compensating effect"
    );
    assert_eq!(
        state.persistence_health,
        PersistenceHealth::Degraded {
            last_durable_revision: 3,
            reason: PersistenceFailure::WriteFailed,
        },
        "the failure must still be reported honestly"
    );
}

#[test]
fn saved_layout_uses_an_explicit_focused_display_without_a_focused_window() {
    let mut state = state_with_saved_layout("half", &[(0.0, 0.0, 0.5, 1.0)]);
    state.displays.push(display(2, "secondary", 1920));
    apply(
        &mut state,
        Event::WindowsObserved {
            windows: vec![window_at(2, 2, Rect::new(1920, 0, 600, 600))],
        },
    );
    state.focused_window = None;
    apply(
        &mut state,
        Event::FocusDisplayRequested {
            display_id: DisplayId(2),
        },
    );
    state.effects.clear();

    apply(&mut state, Event::SavedLayoutApplyRequested { name: "half".to_owned() });

    assert_eq!(
        placements(&state),
        vec![(WindowId(2), DisplayId(2), Rect::new(1920, 0, 960, 1080))]
    );
}

#[test]
fn saved_layout_without_any_display_target_is_rejected_with_a_typed_reason() {
    let mut state = rig(EngineState::default());
    let layout = state.outside.get_mut().layout("half", &[(0.0, 0.0, 0.5, 1.0)]);
    state.resolved_config.layouts.push(layout);

    assert_eq!(
        layout_plan(&state, "half"),
        Err(SavedLayoutRejection::NoFocusedDisplay)
    );
}

fn workspace_state(display_ids: &[isize], workspaces: &[&str]) -> Rig {
    let mut state = tree_state();
    state.displays = display_ids
        .iter()
        .map(|id| display(*id, &format!("DISPLAY{id}"), (*id as i32 - 1) * 1920))
        .collect();
    state.focused_display = Some(DisplayId(display_ids[0]));
    state.resolved_config.workspaces = workspaces.iter().map(|name| ws(name)).collect();
    state.config_set.base = state.resolved_config.clone();
    state.sync_workspaces_from_config();
    state.fill_empty_displays();
    state
}

fn create(state: &mut Rig, name: &str) -> WorkspaceCommandResult {
    apply(
        state,
        Event::WorkspaceCreateRequested {
            name: requested(name),
        },
    );
    state.last_workspace_result.clone().unwrap()
}

fn focus_workspace(state: &mut Rig, name: &str) -> WorkspaceCommandResult {
    apply(
        state,
        Event::WorkspaceFocusRequested {
            name: requested(name),
        },
    );
    state.last_workspace_result.clone().unwrap()
}

fn switching_state(workspaces: &[&str], displayed: &str) -> Rig {
    let mut state = workspace_state(&[1], workspaces);
    let set = switching_set(
        &state.displays,
        workspaces,
        true,
        &[("DISPLAY1", displayed)],
    );
    apply(&mut state, Event::ConfigChanged(set));
    apply(&mut state, Event::ParkingCapabilityReported(ParkingCapability::Verified));
    assert_eq!(
        state.workspace_switching_status(),
        WorkspaceSwitchingStatus::Experimental
    );
    state
}

fn settle_switch_from(
    state: &mut Rig,
    mut cursor: usize,
    fail: &mut dyn FnMut(WindowId, ParkingStage) -> Option<String>,
) -> usize {
    let mut next_entry = 900;
    for _ in 0..64 {
        if let Some(pending) = state.pending_parking.first().cloned() {
            next_entry += 1;
            apply(
                state,
                Event::RecoveryEntryDurable {
                    token: pending.token,
                    entry_id: RecoveryEntryId(next_entry),
                },
            );
            continue;
        }
        if cursor >= state.effects.len() {
            return cursor;
        }
        let effect = state.effects[cursor];
        cursor += 1;
        match effect {
            EngineEffect::ParkWindow {
                window_id,
                entry_id,
            } => match fail(window_id, ParkingStage::Park) {
                None => apply(
                    state,
                    Event::WindowParked {
                        window_id,
                        entry_id,
                    },
                ),
                Some(reason) => apply(
                    state,
                    Event::WindowParkFailed {
                        window_id,
                        entry_id,
                        reason,
                    },
                ),
            },
            EngineEffect::RestoreWindow {
                window_id,
                entry_id,
            } => match fail(window_id, ParkingStage::Restore) {
                None => apply(state, Event::WindowRestored { window_id }),
                Some(reason) => apply(
                    state,
                    Event::WindowRestoreFailed {
                        window_id,
                        entry_id,
                        reason,
                    },
                ),
            },
            _ => {}
        }
    }
    panic!("the switch did not settle");
}

fn switch_to(state: &mut Rig, name: &str) -> WorkspaceCommandResult {
    let cursor = state.effects.len();
    focus_workspace(state, name);
    settle_switch_from(state, cursor, &mut |_, _| None);
    state.last_workspace_result.clone().unwrap()
}

fn saved_workspaces(state: &Rig) -> Vec<&PersistedWorkspace> {
    state
        .persistence_intents
        .iter()
        .filter_map(|intent| match intent {
            PersistenceIntent::SaveWorkspace(workspace) => Some(workspace),
            _ => None,
        })
        .collect()
}

#[test]
fn configuration_declares_the_pool_and_fills_displays_primary_first() {
    let state = workspace_state(&[2, 1], &["dev", "chat", "media"]);

    assert_eq!(
        state.names(),
        vec![ws("chat"), ws("dev"), ws("media")]
    );
    assert_eq!(
        state.displayed(),
        vec![(DisplayId(1), ws("dev")), (DisplayId(2), ws("chat"))],
        "the primary display is filled first, in the order configuration declares"
    );
    assert!(!state.workspaces.is_displayed(&ws("media")));
    for name in state.names() {
        assert_eq!(
            state.workspaces.get(&name).unwrap().origin,
            WorkspaceOrigin::Configuration
        );
    }
}

#[test]
fn a_display_the_pool_cannot_fill_arranges_its_windows_as_before() {
    let mut state = workspace_state(&[1, 2], &["main"]);
    observe(
        &mut state,
        vec![
            app_window_at(1, "a.exe", 1, Rect::new(0, 0, 400, 300)),
            app_window_at(2, "b.exe", 2, Rect::new(1920, 0, 400, 300)),
        ],
    );

    assert_eq!(
        state.workspaces.workspace_of(1),
        Some(&ws("main"))
    );
    assert_eq!(
        state.workspaces.workspace_of(2),
        None,
        "the engine never invents a workspace for the second display"
    );
    assert_eq!(
        arrangement(&state),
        vec![
            (1, Rect::new(0, 0, 1920, 1080)),
            (2, Rect::new(1920, 0, 1920, 1080))
        ],
        "the unfilled display still tiles what is on it"
    );
}

#[test]
fn every_new_managed_window_joins_the_workspace_displayed_where_it_appears() {
    let mut state = workspace_state(&[1, 2], &["dev", "chat"]);
    observe(
        &mut state,
        vec![
            app_window_at(1, "a.exe", 1, Rect::new(0, 0, 400, 300)),
            app_window_at(2, "b.exe", 2, Rect::new(1920, 0, 400, 300)),
        ],
    );

    assert_eq!(state.workspaces.workspace_of(1), Some(&ws("dev")));
    assert_eq!(
        state.workspaces.workspace_of(2),
        Some(&ws("chat"))
    );
}

#[test]
fn floating_windows_belong_to_a_workspace_and_excluded_windows_to_none() {
    let mut state = workspace_state(&[1], &["dev"]);
    let mut popup = app_window_at(2, "b.exe", 1, Rect::new(0, 0, 400, 300));
    popup.role = WindowRole::Popup;
    observe(
        &mut state,
        vec![
            app_window_at(1, "a.exe", 1, Rect::new(0, 0, 400, 300)),
            popup,
        ],
    );
    apply(&mut state, Event::ToggleFloatingRequested);
    focus(&mut state, 1, Rect::new(0, 0, 400, 300));
    apply(&mut state, Event::ToggleFloatingRequested);

    assert_eq!(
        state.inventory.get(1).unwrap().eligibility,
        EligibilityReason::SessionFloating
    );
    assert_eq!(state.workspaces.workspace_of(1), Some(&ws("dev")));
    assert!(
        !state.inventory.contains_key(2),
        "the built-in rules exclude popups"
    );
    assert_eq!(state.workspaces.workspace_of(2), None);
}

#[test]
fn create_is_explicit_and_refuses_duplicates_and_invalid_names() {
    let mut state = workspace_state(&[1], &["dev"]);

    assert_eq!(
        create(&mut state, "  scratch "),
        WorkspaceCommandResult::Created(WorkspaceCreateApplied {
            name: ws("scratch")
        })
    );
    assert_eq!(
        state.workspaces.get(&ws("scratch")).unwrap().origin,
        WorkspaceOrigin::Command
    );
    assert!(!state.workspaces.is_displayed(&ws("scratch")));
    assert_eq!(
        create(&mut state, "DEV"),
        WorkspaceCommandResult::Refused(WorkspaceRefusal::AlreadyExists { name: ws("dev") })
    );
    assert_eq!(
        create(&mut state, ""),
        WorkspaceCommandResult::Refused(WorkspaceRefusal::InvalidName {
            reason: WorkspaceNameError::Empty
        })
    );
    assert_eq!(state.workspaces.len(), 2);
}

#[test]
fn unknown_focus_move_and_delete_targets_are_typed_refusals_that_create_nothing() {
    let mut state = workspace_state(&[1], &["dev"]);

    assert_eq!(
        focus_workspace(&mut state, "typo"),
        WorkspaceCommandResult::Refused(WorkspaceRefusal::UnknownWorkspace {
            name: "typo".to_owned()
        })
    );
    apply(
        &mut state,
        Event::WorkspaceMoveRequested {
            name: requested("typo"),
            display_id: DisplayId(1),
        },
    );
    assert_eq!(
        state.last_workspace_result,
        Some(WorkspaceCommandResult::Refused(
            WorkspaceRefusal::UnknownWorkspace {
                name: "typo".to_owned()
            }
        ))
    );
    apply(&mut state, Event::WorkspaceDeleteRequested { name: requested("typo") });
    assert_eq!(
        state.last_workspace_result,
        Some(WorkspaceCommandResult::Refused(
            WorkspaceRefusal::UnknownWorkspace {
                name: "typo".to_owned()
            }
        ))
    );
    assert_eq!(state.names(), vec![ws("dev")]);
    assert!(saved_workspaces(&state)
        .iter()
        .all(|w| w.name != ws("typo")));
}

#[test]
fn a_rule_target_assigns_membership_and_an_unknown_target_is_recorded_not_created() {
    let mut state = workspace_state(&[1], &["dev", "chat"]);
    let rule = |id: &str, application: &str, workspace: &str| Rule {
        id: id.to_owned(),
        application: application.to_owned(),
        workspace: workspace.to_owned(),
    };
    let rules = state.outside.get_mut().rule_book(vec![
        rule("chat-app", "slack.exe", "chat"),
        rule("typo", "code.exe", "dv"),
    ]);
    apply(&mut state, Event::RulesChanged { rules });

    observe(
        &mut state,
        vec![
            app_window_at(1, "slack.exe", 1, Rect::new(0, 0, 400, 300)),
            app_window_at(2, "code.exe", 1, Rect::new(0, 0, 400, 300)),
        ],
    );

    assert_eq!(
        state.workspaces.workspace_of(1),
        Some(&ws("chat")),
        "the rule sent the window to the hidden workspace"
    );
    assert_eq!(
        state.workspaces.workspace_of(2),
        Some(&ws("dev")),
        "an unknown target leaves the window in the workspace displayed where it appeared"
    );
    assert_eq!(
        state.rule_workspace_refusals,
        vec![RuleWorkspaceRefusal {
            window_id: WindowId(2),
            rule_id: Some("typo".to_owned()),
            workspace: "dv".to_owned(),
        }]
    );
    assert_eq!(state.names(), vec![ws("chat"), ws("dev")]);
    assert_eq!(
        arrangement(&state),
        vec![
            (1, Rect::new(0, 0, 400, 300)),
            (2, Rect::new(0, 0, 1920, 1080))
        ],
        "a hidden workspace's window is not arranged; the displayed one's fills the display"
    );
}

#[test]
fn focusing_a_hidden_workspace_displays_it_on_the_focused_display_and_arranges_its_windows() {
    let mut state = switching_state(&["dev"], "dev");
    observe(
        &mut state,
        vec![
            app_window_at(1, "a.exe", 1, Rect::new(0, 0, 400, 300)),
            app_window_at(2, "b.exe", 1, Rect::new(500, 0, 400, 300)),
        ],
    );
    create(&mut state, "chat");

    assert_eq!(
        switch_to(&mut state, "chat"),
        WorkspaceCommandResult::Focused(WorkspaceFocusApplied::Displayed {
            name: ws("chat"),
            display_id: DisplayId(1),
            replaced: Some(ws("dev")),
        })
    );
    assert_eq!(
        state.displayed(),
        vec![(DisplayId(1), ws("chat"))]
    );
    assert!(
        state.stashed("dev").contains(&WindowId(1)),
        "the hidden workspace keeps its tree"
    );
    assert!(!state.trees.contains_key(1) || state.tree(1).open().is_empty());

    observe(
        &mut state,
        vec![
            app_window_at(1, "a.exe", 1, Rect::new(0, 0, 960, 1080)),
            app_window_at(2, "b.exe", 1, Rect::new(960, 0, 960, 1080)),
            app_window_at(3, "c.exe", 1, Rect::new(10, 10, 400, 300)),
        ],
    );
    assert_eq!(
        state.workspaces.workspace_of(3),
        Some(&ws("chat"))
    );
    assert_eq!(
        arrangement(&state),
        vec![
            (1, Rect::new(0, 0, 960, 1080)),
            (2, Rect::new(960, 0, 960, 1080)),
            (3, Rect::new(0, 0, 1920, 1080)),
        ]
    );

    assert_eq!(
        switch_to(&mut state, "dev"),
        WorkspaceCommandResult::Focused(WorkspaceFocusApplied::Displayed {
            name: ws("dev"),
            display_id: DisplayId(1),
            replaced: Some(ws("chat")),
        })
    );
    assert_eq!(
        state.tree(1).open(),
        vec![WindowId(1), WindowId(2)]
    );
    assert!(state.stashed("chat").contains(&WindowId(3)));
}

#[test]
fn focusing_a_workspace_displayed_elsewhere_focuses_its_last_window_and_does_not_move_it() {
    let mut state = workspace_state(&[1, 2], &["dev", "chat"]);
    observe(
        &mut state,
        vec![
            app_window_at(1, "a.exe", 2, Rect::new(1920, 0, 400, 300)),
            app_window_at(2, "b.exe", 2, Rect::new(2400, 0, 400, 300)),
        ],
    );
    apply(
        &mut state,
        Event::WindowFocused {
            window_id: WindowId(2),
            display_id: DisplayId(2),
            bounds: Rect::new(2400, 0, 400, 300),
        },
    );
    apply(
        &mut state,
        Event::FocusDisplayRequested {
            display_id: DisplayId(1),
        },
    );
    let effects_before = state.effects.len();

    assert_eq!(
        focus_workspace(&mut state, "chat"),
        WorkspaceCommandResult::Focused(WorkspaceFocusApplied::FocusedExisting {
            name: ws("chat"),
            display_id: DisplayId(2),
            focused_window: Some(WindowId(2)),
        })
    );
    assert_eq!(state.workspaces.display_of(&ws("chat")), Some(DisplayId(2)));
    assert_eq!(state.focused_display, Some(DisplayId(2)));
    assert_eq!(
        &state.effects[effects_before..],
        &[EngineEffect::FocusWindow {
            window_id: WindowId(2)
        }]
    );
}

#[test]
fn focusing_a_hidden_workspace_needs_a_focused_display_and_refuses_while_paused() {
    let mut state = workspace_state(&[1], &["dev", "chat"]);
    state.focused_display = None;
    assert_eq!(
        focus_workspace(&mut state, "chat"),
        WorkspaceCommandResult::Refused(WorkspaceRefusal::NoFocusedDisplay)
    );

    state.focused_display = Some(DisplayId(1));
    state.paused = true;
    assert_eq!(
        focus_workspace(&mut state, "chat"),
        WorkspaceCommandResult::Refused(WorkspaceRefusal::Paused)
    );
    assert_eq!(
        state.displayed(),
        vec![(DisplayId(1), ws("dev"))]
    );
}

#[test]
fn moving_a_displayed_workspace_swaps_it_with_the_target_and_keeps_its_tree() {
    let mut state = workspace_state(&[1, 2], &["dev", "chat"]);
    observe(
        &mut state,
        vec![
            app_window_at(1, "a.exe", 1, Rect::new(0, 0, 400, 300)),
            app_window_at(2, "b.exe", 1, Rect::new(500, 0, 400, 300)),
            app_window_at(3, "c.exe", 2, Rect::new(1920, 0, 400, 300)),
        ],
    );
    focus(&mut state, 1, Rect::new(0, 0, 960, 1080));
    resize(&mut state, CardinalDirection::Right);
    let shape_before = state.tree(1);
    assert_eq!(
        arrangement(&state)[0],
        (1, Rect::new(0, 0, 1056, 1080)),
        "the resize took"
    );

    apply(
        &mut state,
        Event::WorkspaceMoveRequested {
            name: requested("dev"),
            display_id: DisplayId(2),
        },
    );

    assert_eq!(
        state.last_workspace_result,
        Some(WorkspaceCommandResult::Moved(WorkspaceMoveApplied {
            name: ws("dev"),
            from_display_id: DisplayId(1),
            to_display_id: DisplayId(2),
            swapped_with: Some(ws("chat")),
        }))
    );
    assert_eq!(
        state.displayed(),
        vec![(DisplayId(1), ws("chat")), (DisplayId(2), ws("dev"))]
    );
    assert_eq!(
        state.tree(2),
        shape_before,
        "the tree travelled with the workspace, weights and all"
    );
    assert_eq!(
        arrangement(&state),
        vec![
            (1, Rect::new(1920, 0, 1056, 1080)),
            (2, Rect::new(2976, 0, 864, 1080)),
            (3, Rect::new(0, 0, 1920, 1080)),
        ]
    );
    assert_eq!(state.workspaces.workspace_of(1), Some(&ws("dev")));
    assert_eq!(
        state.workspaces.workspace_of(3),
        Some(&ws("chat"))
    );
}

#[test]
fn a_move_refuses_a_hidden_workspace_an_unknown_display_and_the_same_display() {
    let mut state = workspace_state(&[1], &["dev", "chat"]);
    let attempt = |state: &mut Rig, name: &str, display: isize| {
        apply(
            state,
            Event::WorkspaceMoveRequested {
                name: requested(name),
                display_id: DisplayId(display),
            },
        );
        state.last_workspace_result.clone().unwrap()
    };

    assert_eq!(
        attempt(&mut state, "chat", 1),
        WorkspaceCommandResult::Refused(WorkspaceRefusal::NotDisplayed { name: ws("chat") })
    );
    assert_eq!(
        attempt(&mut state, "dev", 9),
        WorkspaceCommandResult::Refused(WorkspaceRefusal::UnknownDisplay {
            display_id: DisplayId(9)
        })
    );
    assert_eq!(
        attempt(&mut state, "dev", 1),
        WorkspaceCommandResult::Refused(WorkspaceRefusal::AlreadyDisplayedThere {
            name: ws("dev"),
            display_id: DisplayId(1)
        })
    );
}

#[test]
fn delete_succeeds_only_for_a_hidden_empty_command_workspace() {
    let mut state = switching_state(&["dev"], "dev");
    observe(
        &mut state,
        vec![app_window_at(1, "a.exe", 1, Rect::new(0, 0, 400, 300))],
    );
    create(&mut state, "scratch");
    let attempt = |state: &mut Rig, name: &str| {
        apply(
            state,
            Event::WorkspaceDeleteRequested {
                name: requested(name),
            },
        );
        state.last_workspace_result.clone().unwrap()
    };

    assert_eq!(
        attempt(&mut state, "dev"),
        WorkspaceCommandResult::Refused(WorkspaceRefusal::Displayed {
            name: ws("dev"),
            display_id: DisplayId(1)
        })
    );
    switch_to(&mut state, "scratch");
    observe(
        &mut state,
        vec![
            app_window_at(1, "a.exe", 1, Rect::new(0, 0, 400, 300)),
            app_window_at(2, "b.exe", 1, Rect::new(0, 0, 400, 300)),
        ],
    );
    switch_to(&mut state, "dev");
    assert_eq!(
        attempt(&mut state, "scratch"),
        WorkspaceCommandResult::Refused(WorkspaceRefusal::NotEmpty {
            name: ws("scratch"),
            live_members: 1,
            dormant_positions: 0
        })
    );
    observe(
        &mut state,
        vec![app_window_at(1, "a.exe", 1, Rect::new(0, 0, 400, 300))],
    );
    assert_eq!(
        attempt(&mut state, "scratch"),
        WorkspaceCommandResult::Refused(WorkspaceRefusal::NotEmpty {
            name: ws("scratch"),
            live_members: 0,
            dormant_positions: 1
        })
    );
    let at = state.workspaces.find(&ws("scratch")).unwrap();
    let emptied = Workspace { stashed_tree: None, ..state.workspaces.at(at).clone() };
    state.workspaces.set(at, emptied);
    assert_eq!(
        attempt(&mut state, "scratch"),
        WorkspaceCommandResult::Deleted(WorkspaceDeleteApplied {
            name: ws("scratch")
        })
    );
    assert!(state
        .persistence_intents
        .iter()
        .any(|intent| *intent == PersistenceIntent::DeleteWorkspace(ws("scratch"))));
}

#[test]
fn a_vanished_display_hides_its_workspace_without_displacing_survivors() {
    let mut state = workspace_state(&[1, 2], &["dev", "chat"]);
    observe(
        &mut state,
        vec![
            app_window_at(1, "a.exe", 1, Rect::new(0, 0, 400, 300)),
            app_window_at(2, "b.exe", 2, Rect::new(1920, 0, 400, 300)),
        ],
    );

    apply(&mut state, topology_changed(vec![display(1, "DISPLAY1", 0)]));

    assert_eq!(
        state.displayed(),
        vec![(DisplayId(1), ws("dev"))]
    );
    assert!(state.stashed("chat").contains(&WindowId(2)));
    assert_eq!(
        state.workspaces.workspace_of(2),
        Some(&ws("chat")),
        "the migrated window keeps its membership"
    );
    assert_eq!(
        state.tree(1).open(),
        vec![WindowId(1)],
        "the survivor's workspace is untouched; the hidden member is not arranged into it"
    );

    apply(
        &mut state,
        topology_changed(vec![
            display(1, "DISPLAY1", 0),
            display(2, "DISPLAY2", 1920),
        ]),
    );
    assert_eq!(
        state.displayed(),
        vec![(DisplayId(1), ws("dev"))]
    );
    assert_eq!(state.workspaces.displayed_on(DisplayId(2)), None);

    apply(
        &mut state,
        Event::FocusDisplayRequested {
            display_id: DisplayId(2),
        },
    );
    focus_workspace(&mut state, "chat");
    assert_eq!(state.workspaces.display_of(&ws("chat")), Some(DisplayId(2)));
    assert_eq!(
        arrangement(&state)
            .iter()
            .find(|(id, _)| *id == 2)
            .unwrap()
            .1,
        Rect::new(1920, 0, 1920, 1080)
    );
}

#[test]
fn last_focused_is_forgotten_when_the_window_closes_and_focus_falls_back_to_a_member() {
    let mut state = workspace_state(&[1, 2], &["dev", "chat"]);
    observe(
        &mut state,
        vec![
            app_window_at(1, "a.exe", 2, Rect::new(1920, 0, 400, 300)),
            app_window_at(2, "b.exe", 2, Rect::new(2400, 0, 400, 300)),
        ],
    );
    apply(
        &mut state,
        Event::WindowFocused {
            window_id: WindowId(2),
            display_id: DisplayId(2),
            bounds: Rect::new(2400, 0, 400, 300),
        },
    );
    observe(
        &mut state,
        vec![app_window_at(1, "a.exe", 2, Rect::new(1920, 0, 400, 300))],
    );
    apply(
        &mut state,
        Event::FocusDisplayRequested {
            display_id: DisplayId(1),
        },
    );

    assert_eq!(
        state.workspaces.get(&ws("chat")).unwrap().last_focused,
        None
    );
    assert_eq!(
        plan_workspace_focus(&state, &requested("chat")),
        Ok(WorkspaceFocusApplied::FocusedExisting {
            name: ws("chat"),
            display_id: DisplayId(2),
            focused_window: Some(WindowId(1)),
        })
    );
}

#[test]
fn workspace_changes_are_written_as_intents_with_display_origin_and_tree() {
    let mut state = workspace_state(&[1], &["dev"]);
    observe(
        &mut state,
        vec![app_window_at(1, "a.exe", 1, Rect::new(0, 0, 400, 300))],
    );
    let dev = saved_workspaces(&state).last().copied().unwrap().clone();
    assert_eq!(dev.name, ws("dev"));
    assert_eq!(dev.origin, WorkspaceOrigin::Configuration);
    assert_eq!(dev.displayed_fingerprint.as_deref(), Some("DISPLAY1"));
    assert_eq!(state.outside.borrow().persisted(dev.tree.unwrap()).open().len(), 1);
    assert!(
        !state
            .persistence_intents
            .iter()
            .any(|intent| matches!(intent, PersistenceIntent::SaveContainerTree { .. })),
        "a display with a workspace stores its tree under the workspace"
    );

    create(&mut state, "chat");
    let chat = saved_workspaces(&state).last().copied().unwrap().clone();
    assert_eq!(
        chat,
        PersistedWorkspace {
            name: ws("chat"),
            origin: WorkspaceOrigin::Command,
            displayed_fingerprint: None,
            tree: None,
        }
    );

    let before = state.persistence_intents.len();
    observe(
        &mut state,
        vec![app_window_at(1, "a.exe", 1, Rect::new(0, 0, 1920, 1080))],
    );
    assert_eq!(
        state.persistence_intents.len(),
        before,
        "a reflow that changed nothing writes nothing"
    );
}

#[test]
fn restart_restores_command_workspaces_their_displays_and_their_trees() {
    let mut state = workspace_state(&[1, 2], &["dev"]);
    let b = app_window_at(1, "b.exe", 2, Rect::new(1920, 0, 960, 1080));
    let a = app_window_at(2, "a.exe", 2, Rect::new(2880, 0, 960, 1080));
    let stored_tree = {
        let mut tree = Tree::new();
        let fingerprint = "DISPLAY2".to_owned();
        tree.insert_first(WindowEvidence::capture(&a, 0, &fingerprint));
        tree.split_root(SplitAxis::Horizontal, WindowEvidence::capture(&b, 0, &fingerprint));
        state.outside.get_mut().store(tree)
    };

    apply(
        &mut state,
        Event::WorkspacesLoaded(vec![
            PersistedWorkspace {
                name: ws("chat"),
                origin: WorkspaceOrigin::Command,
                displayed_fingerprint: Some("DISPLAY2".to_owned()),
                tree: Some(stored_tree),
            },
            PersistedWorkspace {
                name: ws("dev"),
                origin: WorkspaceOrigin::Command,
                displayed_fingerprint: Some("DISPLAY1".to_owned()),
                tree: None,
            },
            PersistedWorkspace {
                name: ws("old"),
                origin: WorkspaceOrigin::Configuration,
                displayed_fingerprint: Some("DISPLAY9".to_owned()),
                tree: None,
            },
        ]),
    );

    assert_eq!(
        state.displayed(),
        vec![(DisplayId(1), ws("dev")), (DisplayId(2), ws("chat"))],
        "each workspace went back to the display it was on"
    );
    assert_eq!(
        state.workspaces.get(&ws("dev")).unwrap().origin,
        WorkspaceOrigin::Configuration,
        "configuration still declares dev, so configuration owns it"
    );
    assert_eq!(
        state.workspaces.get(&ws("old")).unwrap().origin,
        WorkspaceOrigin::Command,
        "a workspace configuration stopped declaring becomes deletable by command"
    );
    assert!(!state.workspaces.is_displayed(&ws("old")));

    observe(&mut state, vec![b, a]);
    assert_eq!(
        state.tree(2).open(),
        vec![WindowId(2), WindowId(1)],
        "the stored tree placed a.exe before b.exe regardless of observation order"
    );
}

#[test]
fn a_removed_declaration_keeps_the_workspace_and_a_new_one_creates_it() {
    let mut state = workspace_state(&[1], &["dev", "chat"]);
    let mut set = state.config_set.clone();
    set.base.workspaces = vec![ws("dev"), ws("media")];
    set.base.tiling_mode = TilingMode::Tree;
    set.base.automatic_tiling_enabled = true;

    apply(&mut state, Event::ConfigChanged(set));

    assert_eq!(
        state.names(),
        vec![ws("chat"), ws("dev"), ws("media")]
    );
    assert_eq!(
        state.workspaces.get(&ws("chat")).unwrap().origin,
        WorkspaceOrigin::Command
    );
    assert_eq!(
        state.workspaces.get(&ws("media")).unwrap().origin,
        WorkspaceOrigin::Configuration
    );
}

fn switching_set(
    displays: &[Display],
    workspaces: &[&str],
    experimental: bool,
    mapping: &[(&str, &str)],
) -> ResolvedConfigSet {
    let config = ResolvedConfig {
        workspaces: workspaces.iter().map(|name| ws(name)).collect(),
        workspace_switching: Some(ResolvedWorkspaceSwitching {
            experimental,
            displayed: mapping
                .iter()
                .map(|(display, name)| DisplayMapping {
                    display_fingerprint: (*display).to_owned(),
                    workspace: ws(name),
                })
                .collect(),
        }),
        automatic_tiling_enabled: true,
        tiling_mode: TilingMode::Tree,
        ..ResolvedConfig::default()
    };
    ResolvedConfigSet {
        base: ResolvedConfig {
            workspaces: config.workspaces.clone(),
            ..ResolvedConfig::default()
        },
        profiles: vec![ResolvedProfile {
            fingerprint: topology_fingerprint(displays),
            config,
        }],
    }
}

fn sorted_parked(state: &Rig) -> Vec<WindowId> {
    state.parked_windows.keys().into_iter().map(WindowId).collect()
}

fn switch_fixture() -> Rig {
    let mut state = switching_state(&["dev"], "dev");
    observe(
        &mut state,
        vec![
            app_window_at(1, "a.exe", 1, Rect::new(0, 0, 400, 300)),
            app_window_at(2, "b.exe", 1, Rect::new(500, 0, 400, 300)),
        ],
    );
    create(&mut state, "chat");
    state
}

#[test]
fn a_switch_parks_the_outgoing_windows_before_the_assignment_changes() {
    let mut state = switch_fixture();
    let cursor = state.effects.len();

    let started = focus_workspace(&mut state, "chat");

    assert_eq!(
        started,
        WorkspaceCommandResult::Focused(WorkspaceFocusApplied::SwitchStarted {
            name: ws("chat"),
            display_id: DisplayId(1),
            replaced: Some(ws("dev")),
            parking: 2,
            restoring: 0,
        })
    );
    assert_eq!(
        state.displayed(),
        vec![(DisplayId(1), ws("dev"))],
        "nothing is displayed differently until every window has moved"
    );
    assert_eq!(
        state.pending_parking.len(),
        2,
        "both windows are waiting on durable recovery data"
    );
    assert!(
        park_effects(&state).is_empty(),
        "no window leaves the screen before its way back is on disk"
    );

    settle_switch_from(&mut state, cursor, &mut |_, _| None);

    assert_eq!(
        state.displayed(),
        vec![(DisplayId(1), ws("chat"))]
    );
    assert_eq!(sorted_parked(&state), vec![WindowId(1), WindowId(2)]);
    assert!(state.switch.is_none() && state.switch_degraded.is_none());
    assert_eq!(
        state.last_workspace_result,
        Some(WorkspaceCommandResult::Focused(
            WorkspaceFocusApplied::Displayed {
                name: ws("chat"),
                display_id: DisplayId(1),
                replaced: Some(ws("dev")),
            }
        ))
    );
}

#[test]
fn a_switch_back_restores_the_target_workspaces_parked_windows_and_its_focus() {
    let mut state = switch_fixture();
    switch_to(&mut state, "chat");
    state.workspaces.note_focus(WindowId(2));
    observe(
        &mut state,
        vec![
            app_window_at(1, "a.exe", 1, Rect::new(0, 0, 400, 300)),
            app_window_at(2, "b.exe", 1, Rect::new(500, 0, 400, 300)),
            app_window_at(3, "c.exe", 1, Rect::new(10, 10, 400, 300)),
        ],
    );
    let cursor = state.effects.len();

    switch_to(&mut state, "dev");

    assert_eq!(
        state.displayed(),
        vec![(DisplayId(1), ws("dev"))]
    );
    assert_eq!(
        sorted_parked(&state),
        vec![WindowId(3)],
        "chat's window took dev's place at the parking site"
    );
    let effects: Vec<EngineEffect> = state.effects[cursor..].to_vec();
    let park_at = effects
        .iter()
        .position(|effect| matches!(effect, EngineEffect::ParkWindow { .. }))
        .expect("the outgoing window parks");
    let restore_at = effects
        .iter()
        .position(|effect| matches!(effect, EngineEffect::RestoreWindow { .. }))
        .expect("the target's window comes back");
    assert!(
        park_at < restore_at,
        "the outgoing workspace leaves the screen before the target arrives on it"
    );
    assert!(
        effects.contains(&EngineEffect::FocusWindow {
            window_id: WindowId(2)
        }),
        "the target workspace's last-focused window gets the attention back"
    );
}

#[test]
fn a_switch_that_moves_no_window_needs_no_parking_site() {
    let mut state = workspace_state(&[1], &["dev"]);
    create(&mut state, "chat");

    assert_eq!(
        focus_workspace(&mut state, "chat"),
        WorkspaceCommandResult::Focused(WorkspaceFocusApplied::Displayed {
            name: ws("chat"),
            display_id: DisplayId(1),
            replaced: Some(ws("dev")),
        })
    );
    assert_eq!(state.parking_capability, ParkingCapability::Unverified);
    assert!(state.pending_parking.is_empty());
}

#[test]
fn a_switch_that_would_move_a_window_is_refused_without_authorised_switching() {
    let mut state = workspace_state(&[1], &["dev"]);
    observe(
        &mut state,
        vec![app_window_at(1, "a.exe", 1, Rect::new(0, 0, 400, 300))],
    );
    create(&mut state, "chat");

    let refused = focus_workspace(&mut state, "chat");

    assert_eq!(
        refused,
        WorkspaceCommandResult::Refused(WorkspaceRefusal::SwitchingNotAuthorised {
            status: WorkspaceSwitchingStatus::Disabled,
        })
    );
    assert_eq!(
        switching_status_reason(&WorkspaceSwitchingStatus::Disabled)
            .and_then(|reason| reason.text()),
        Some("no matched topology profile requests it, and base config cannot".to_owned())
    );
    assert_eq!(
        state.displayed(),
        vec![(DisplayId(1), ws("dev"))],
        "a refusal moves nothing and changes no assignment"
    );
    assert!(state.pending_parking.is_empty());
}

#[test]
fn switch_preflight_refuses_a_full_screen_member_and_moves_nothing() {
    let mut state = switching_state(&["dev"], "dev");
    let mut full_screen = app_window_at(1, "a.exe", 1, Rect::new(0, 0, 1920, 1080));
    full_screen.lifecycle = WindowLifecycle::Fullscreen;
    observe(&mut state, vec![full_screen]);
    create(&mut state, "chat");

    assert_eq!(
        focus_workspace(&mut state, "chat"),
        WorkspaceCommandResult::Refused(WorkspaceRefusal::FullscreenMember {
            name: ws("dev"),
            window_id: WindowId(1),
        })
    );
    assert_eq!(
        state.displayed(),
        vec![(DisplayId(1), ws("dev"))]
    );
    assert!(state.pending_parking.is_empty());
}

#[test]
fn a_minimized_member_stays_minimized_and_is_never_parked_for_a_switch() {
    let mut state = switching_state(&["dev"], "dev");
    let mut minimized = app_window_at(2, "b.exe", 1, Rect::new(500, 0, 400, 300));
    minimized.lifecycle = WindowLifecycle::Minimized;
    observe(
        &mut state,
        vec![
            app_window_at(1, "a.exe", 1, Rect::new(0, 0, 400, 300)),
            minimized,
        ],
    );
    create(&mut state, "chat");

    let plan = state.switch_plan("chat").expect("the switch is authorised");

    assert_eq!(
        plan.park,
        vec![WindowId(1)],
        "a minimized window occupies no screen, so it is left as it is"
    );

    switch_to(&mut state, "chat");

    assert!(!state.parked_windows.contains_key(2));
}

#[test]
fn a_switch_is_refused_while_the_state_database_is_degraded() {
    let mut state = switch_fixture();
    state.persistence_health = PersistenceHealth::Degraded {
        last_durable_revision: 3,
        reason: PersistenceFailure::WriteFailed,
    };

    assert_eq!(
        focus_workspace(&mut state, "chat"),
        WorkspaceCommandResult::Refused(WorkspaceRefusal::SwitchingNotAuthorised {
            status: WorkspaceSwitchingStatus::Requested {
                pending: SwitchingPending::PersistenceDegraded,
            },
        })
    );
    assert_eq!(
        state.displayed(),
        vec![(DisplayId(1), ws("dev"))]
    );
}

#[test]
fn a_switch_refuses_a_window_already_waiting_on_an_explicit_park() {
    let mut state = switch_fixture();
    apply(&mut state, Event::ParkingAuthorizationRequested { window_id: WindowId(2) });
    assert_eq!(state.pending_parking.len(), 1);

    let refused = state.switch_plan("chat");

    assert_eq!(
        refused,
        Err(WorkspaceRefusal::MemberNotParkable {
            name: ws("dev"),
            window_id: WindowId(2),
            reason: ParkingRefusal::AlreadyPending {
                window_id: WindowId(2)
            },
        })
    );
    assert_eq!(
        focus_workspace(&mut state, "chat"),
        WorkspaceCommandResult::Refused(WorkspaceRefusal::MemberNotParkable {
            name: ws("dev"),
            window_id: WindowId(2),
            reason: ParkingRefusal::AlreadyPending {
                window_id: WindowId(2)
            },
        }),
        "the refusal reaches the command, so nothing moves"
    );
    assert_eq!(
        state.pending_parking.len(),
        1,
        "no second recovery entry was requested for the same window"
    );
}

#[test]
fn a_second_switch_is_refused_while_one_is_in_flight() {
    let mut state = switch_fixture();
    create(&mut state, "media");
    focus_workspace(&mut state, "chat");
    assert!(state.switch.is_some());

    assert_eq!(
        focus_workspace(&mut state, "media"),
        WorkspaceCommandResult::Refused(WorkspaceRefusal::SwitchInFlight {
            display_id: DisplayId(1),
        })
    );
}

#[test]
fn a_workspace_move_is_refused_while_a_switch_is_in_flight() {
    let mut state = switch_fixture();
    focus_workspace(&mut state, "chat");
    assert!(state.switch.is_some());

    let refused = plan_workspace_move(&state, &requested("dev"), DisplayId(1));

    assert_eq!(
        refused,
        Err(WorkspaceRefusal::SwitchInFlight {
            display_id: DisplayId(1)
        }),
        "exchanging what two monitors show under a switch would leave it compensating onto a display that changed underneath it"
    );
}

#[test]
fn a_failed_park_compensates_and_leaves_the_original_assignment() {
    let mut state = switch_fixture();
    let cursor = state.effects.len();

    focus_workspace(&mut state, "chat");
    settle_switch_from(&mut state, cursor, &mut |window_id, stage| {
        if window_id == WindowId(2) && stage == ParkingStage::Park {
            Some("the window refused to move".to_owned())
        } else {
            None
        }
    });

    assert_eq!(
        state.displayed(),
        vec![(DisplayId(1), ws("dev"))],
        "a failed switch preserves the original displayed assignment"
    );
    assert!(
        state.parked_windows.is_empty(),
        "the window that had parked came back"
    );
    assert!(state.switch.is_none());
    assert_eq!(state.switch_degraded, None);
    assert_eq!(
        state.last_workspace_result,
        Some(WorkspaceCommandResult::SwitchFailed(
            WorkspaceSwitchFailed {
                name: ws("chat"),
                display_id: DisplayId(1),
                reason: SwitchFailure::Reported("the window refused to move".to_owned()),
                compensated: true,
                stranded_windows: Vec::new(),
            }
        ))
    );
}

#[test]
fn a_failed_restore_parks_again_what_it_restored_and_compensates() {
    let mut state = switch_fixture();
    switch_to(&mut state, "chat");
    observe(
        &mut state,
        vec![
            app_window_at(1, "a.exe", 1, Rect::new(0, 0, 400, 300)),
            app_window_at(2, "b.exe", 1, Rect::new(500, 0, 400, 300)),
            app_window_at(3, "c.exe", 1, Rect::new(10, 10, 400, 300)),
        ],
    );
    let cursor = state.effects.len();

    focus_workspace(&mut state, "dev");
    settle_switch_from(&mut state, cursor, &mut |window_id, stage| {
        if window_id == WindowId(2) && stage == ParkingStage::Restore {
            Some("the window would not come back".to_owned())
        } else {
            None
        }
    });

    assert_eq!(
        state.displayed(),
        vec![(DisplayId(1), ws("chat"))],
        "chat is still displayed; the switch changed nothing"
    );
    assert_eq!(
        sorted_parked(&state),
        vec![WindowId(1), WindowId(2)],
        "both of dev's windows are back at the parking site"
    );
    assert!(
        !state.parked_windows.contains_key(3),
        "chat's window came back off the parking site"
    );
    assert_eq!(state.switch_degraded, None);
}

#[test]
fn a_failed_compensation_enters_workspace_switch_degraded_and_blocks_switching() {
    let mut state = switch_fixture();
    create(&mut state, "media");
    let cursor = state.effects.len();

    focus_workspace(&mut state, "chat");
    settle_switch_from(
        &mut state,
        cursor,
        &mut |window_id, stage| match (window_id, stage) {
            (WindowId(2), ParkingStage::Park) => Some("the window refused to move".to_owned()),
            (WindowId(1), ParkingStage::Restore) => {
                Some("the window would not come back".to_owned())
            }
            _ => None,
        },
    );

    let degraded = state
        .switch_degraded
        .clone()
        .expect("compensation could not put every window back");
    assert_eq!(degraded.display_id, DisplayId(1));
    assert_eq!(degraded.target, ws("chat"));
    assert_eq!(degraded.outgoing, Some(ws("dev")));
    assert_eq!(degraded.stranded_windows, vec![WindowId(1)]);
    assert_eq!(
        state.displayed(),
        vec![(DisplayId(1), ws("dev"))],
        "the displayed assignment is still the one the switch started from"
    );

    assert_eq!(
        focus_workspace(&mut state, "media"),
        WorkspaceCommandResult::Refused(WorkspaceRefusal::SwitchDegraded {
            stranded_windows: 1
        }),
        "further switching is blocked until the stranded window is reconciled"
    );
}

#[test]
fn restoring_the_stranded_windows_unblocks_switching() {
    let mut state = switch_fixture();
    create(&mut state, "media");
    let cursor = state.effects.len();
    focus_workspace(&mut state, "chat");
    settle_switch_from(
        &mut state,
        cursor,
        &mut |window_id, stage| match (window_id, stage) {
            (WindowId(2), ParkingStage::Park) => Some("the window refused to move".to_owned()),
            (WindowId(1), ParkingStage::Restore) => {
                Some("the window would not come back".to_owned())
            }
            _ => None,
        },
    );
    assert!(state.switch_degraded.is_some());

    assert_eq!(
        plan_workspace_switch_restore(&state),
        WorkspaceSwitchRestoreResult::Requested {
            windows: vec![WindowId(1)]
        }
    );
    let cursor = state.effects.len();
    apply(&mut state, Event::WorkspaceSwitchRestoreRequested);
    settle_switch_from(&mut state, cursor, &mut |_, _| None);

    assert_eq!(state.switch_degraded, None);
    assert!(state.parked_windows.is_empty());
    assert!(
        state.switch_plan("media").is_ok(),
        "switching is available again"
    );
}

fn stranded_visible_window() -> Rig {
    let mut state = switch_fixture();
    switch_to(&mut state, "chat");
    observe(
        &mut state,
        vec![
            app_window_at(1, "a.exe", 1, Rect::new(0, 0, 400, 300)),
            app_window_at(2, "b.exe", 1, Rect::new(500, 0, 400, 300)),
            app_window_at(3, "c.exe", 1, Rect::new(10, 10, 400, 300)),
        ],
    );
    let cursor = state.effects.len();
    focus_workspace(&mut state, "dev");
    settle_switch_from(&mut state, cursor, &mut |window_id, stage| {
        match (window_id, stage) {
            (WindowId(2), ParkingStage::Restore) => {
                Some("the window would not come back".to_owned())
            }
            (WindowId(1), ParkingStage::Park) => {
                Some("the window would not park again".to_owned())
            }
            _ => None,
        }
    });
    state
}

#[test]
fn a_window_stranded_in_plain_sight_is_parked_by_the_reconcile_not_declared_fine() {
    let mut state = stranded_visible_window();

    let degraded = state
        .switch_degraded
        .clone()
        .expect("compensation could not put window 1 back");
    assert_eq!(degraded.stranded_windows, vec![WindowId(1)]);
    assert_eq!(
        state.displayed(),
        vec![(DisplayId(1), ws("chat"))],
        "the switch was cancelled, so chat is still displayed"
    );
    assert!(
        !state.parked_windows.contains_key(1),
        "the stranded window is visible on a monitor showing chat, \
         while belonging to hidden dev"
    );

    assert_eq!(
        plan_workspace_switch_restore(&state),
        WorkspaceSwitchRestoreResult::Requested {
            windows: vec![WindowId(1)]
        },
        "a stranded window owes a move in whichever direction its \
         workspace requires, not only a restore"
    );

    let cursor = state.effects.len();
    apply(&mut state, Event::WorkspaceSwitchRestoreRequested);

    assert!(
        state.switch_degraded.is_some(),
        "the condition stands until the window has actually landed"
    );
    assert_eq!(
        state.pending_parking.len(),
        1,
        "it leaves the screen the only way any window does: ledger first"
    );

    settle_switch_from(&mut state, cursor, &mut |_, _| None);

    assert_eq!(state.switch_degraded, None);
    assert_eq!(sorted_parked(&state), vec![WindowId(1), WindowId(2)]);
    assert!(
        state.switch_plan("dev").is_ok(),
        "switching is available again only now"
    );
}

#[test]
fn a_failed_reconcile_leaves_the_window_stranded_and_switching_blocked() {
    let mut state = stranded_visible_window();
    apply(
        &mut state,
        Event::ParkingCapabilityReported(ParkingCapability::Refused {
            reason: "every edge is covered by a display".to_owned(),
        }),
    );

    apply(&mut state, Event::WorkspaceSwitchRestoreRequested);

    assert_eq!(
        state
            .switch_degraded
            .as_ref()
            .map(|degraded| degraded.stranded_windows.clone()),
        Some(vec![WindowId(1)]),
        "an explicit failure, not a cleared condition"
    );
    assert!(state.pending_parking.is_empty());
    assert_eq!(
        state.last_parking_refusal,
        Some(ParkingRefusal::ParkingRefused {
            reason: "every edge is covered by a display".to_owned()
        })
    );
}

#[test]
fn a_committed_switch_records_the_prior_assignment_and_placements_as_one_transaction() {
    let mut state = switch_fixture();

    switch_to(&mut state, "chat");

    let drafts = recorded_drafts(&state);
    assert_eq!(drafts.len(), 1, "one command, one undo transaction");
    let draft = drafts[0];
    assert_eq!(draft.command, "workspace-focus chat");
    assert_eq!(
        draft.prior_assignments,
        vec![UndoAssignment {
            display_fingerprint: "DISPLAY1".to_owned(),
            workspace: Some(ws("dev")),
        }]
    );
    assert_eq!(
        draft
            .members
            .iter()
            .map(|member| member.prior_placement)
            .collect::<Vec<_>>(),
        vec![Rect::new(0, 0, 960, 1080), Rect::new(960, 0, 960, 1080)],
        "each parked window's placement before the switch is what undo restores"
    );
}

#[test]
fn undoing_a_switch_switches_back_as_a_fresh_guarded_transaction() {
    let mut state = switch_fixture();
    switch_to(&mut state, "chat");
    let draft = recorded_drafts(&state).last().copied().cloned().unwrap();
    state.newest_undo = Some(stored(&draft, 7));
    let cursor = state.effects.len();

    apply(&mut state, Event::UndoRequested);
    settle_switch_from(&mut state, cursor, &mut |_, _| None);

    assert!(matches!(
        state.last_undo_result,
        Some(UndoResult::Applied(_))
    ));
    assert_eq!(
        state.displayed(),
        vec![(DisplayId(1), ws("dev"))],
        "the display is back on the workspace it showed before the command"
    );
    assert!(
        state.parked_windows.is_empty(),
        "dev's windows came off the parking site"
    );
    assert_eq!(
        recorded_drafts(&state).len(),
        1,
        "undo is not itself undoable, so the switch back records nothing"
    );
}

#[test]
fn undo_is_refused_when_the_switch_back_would_be() {
    let mut state = switch_fixture();
    switch_to(&mut state, "chat");
    let draft = recorded_drafts(&state).last().copied().cloned().unwrap();
    state.newest_undo = Some(stored(&draft, 7));
    apply(
        &mut state,
        Event::ParkingCapabilityReported(ParkingCapability::Refused {
            reason: "every edge is covered by a display".to_owned(),
        }),
    );

    apply(&mut state, Event::UndoRequested);

    let Some(UndoResult::Refused(UndoRefusal::WorkspaceSwitchRefused { reason, .. })) =
        &state.last_undo_result
    else {
        panic!(
            "undo refused for the switch's own reason: {:?}",
            state.last_undo_result
        );
    };
    assert!(
        matches!(
            reason,
            WorkspaceRefusal::SwitchingNotAuthorised {
                status: WorkspaceSwitchingStatus::Unavailable { .. }
            }
        ),
        "the switch's own typed refusal survives into undo: {reason:?}"
    );
    assert_eq!(
        state.displayed(),
        vec![(DisplayId(1), ws("chat"))],
        "a refused undo changes nothing"
    );
}

fn two_display_switching_state() -> Rig {
    let mut state = workspace_state(&[1, 2], &["dev", "chat"]);
    let set = switching_set(
        &state.displays,
        &["dev", "chat"],
        true,
        &[("DISPLAY1", "dev"), ("DISPLAY2", "chat")],
    );
    apply(&mut state, Event::ConfigChanged(set));
    apply(&mut state, Event::ParkingCapabilityReported(ParkingCapability::Verified));
    state
}

fn recorded_recovery(state: &Rig) -> Vec<&RecoveryDraft> {
    state
        .persistence_intents
        .iter()
        .filter_map(|intent| match intent {
            PersistenceIntent::RecordRecovery { draft, .. } => Some(draft),
            _ => None,
        })
        .collect()
}

#[test]
fn disconnecting_a_monitor_parks_the_windows_of_the_workspace_it_took_with_it() {
    let mut state = two_display_switching_state();
    observe(
        &mut state,
        vec![
            app_window_at(1, "a.exe", 1, Rect::new(0, 0, 400, 300)),
            app_window_at(2, "b.exe", 2, Rect::new(1920, 0, 400, 300)),
        ],
    );
    assert_eq!(
        state.workspaces.workspace_of(2),
        Some(&ws("chat"))
    );
    let cursor = state.effects.len();

    apply(&mut state, topology_changed(vec![display(1, "DISPLAY1", 0)]));

    assert_eq!(
        state.displayed(),
        vec![(DisplayId(1), ws("dev"))],
        "the surviving display keeps the workspace it showed"
    );
    assert!(
        !state.workspaces.is_displayed(&ws("chat")),
        "the vanished display's workspace is hidden, not moved onto a survivor"
    );
    let drafts = recorded_recovery(&state);
    assert_eq!(drafts.len(), 1, "one window has to leave the screen");
    assert_eq!(drafts[0].native_handle, 2);
    assert_eq!(
        drafts[0].original_display_fingerprint, "DISPLAY1",
        "the window is recorded against the survivor it migrated to"
    );

    settle_switch_from(&mut state, cursor, &mut |_, _| None);

    assert_eq!(sorted_parked(&state), vec![WindowId(2)]);
    assert_eq!(
        state.workspaces.workspace_of(2),
        Some(&ws("chat")),
        "membership is unchanged; only where the window sits is"
    );
}

#[test]
fn reconnecting_a_monitor_reveals_a_hidden_workspace_only_when_the_profile_maps_it() {
    let mut state = two_display_switching_state();
    observe(
        &mut state,
        vec![
            app_window_at(1, "a.exe", 1, Rect::new(0, 0, 400, 300)),
            app_window_at(2, "b.exe", 2, Rect::new(1920, 0, 400, 300)),
        ],
    );
    let cursor = state.effects.len();
    apply(&mut state, topology_changed(vec![display(1, "DISPLAY1", 0)]));
    settle_switch_from(&mut state, cursor, &mut |_, _| None);
    assert_eq!(sorted_parked(&state), vec![WindowId(2)]);

    apply(
        &mut state,
        topology_changed(vec![
            display(1, "DISPLAY1", 0),
            display(2, "DISPLAY2", 1920),
        ]),
    );

    assert_eq!(
        state.displayed(),
        vec![(DisplayId(1), ws("dev")), (DisplayId(2), ws("chat"))],
        "the profile's mapping is what selects a workspace on reconnect"
    );
}

#[test]
fn reconnecting_a_monitor_leaves_a_hidden_workspace_hidden_when_nothing_selects_it() {
    let mut state = workspace_state(&[1, 2], &["dev", "chat"]);
    apply(&mut state, Event::ParkingCapabilityReported(ParkingCapability::Verified));
    observe(
        &mut state,
        vec![
            app_window_at(1, "a.exe", 1, Rect::new(0, 0, 400, 300)),
            app_window_at(2, "b.exe", 2, Rect::new(1920, 0, 400, 300)),
        ],
    );
    apply(&mut state, topology_changed(vec![display(1, "DISPLAY1", 0)]));
    assert!(!state.workspaces.is_displayed(&ws("chat")));

    apply(
        &mut state,
        topology_changed(vec![
            display(1, "DISPLAY1", 0),
            display(2, "DISPLAY2", 1920),
        ]),
    );

    assert!(
        !state.workspaces.is_displayed(&ws("chat")),
        "a reconnect reveals nothing on its own"
    );
    assert_eq!(
        state.displayed(),
        vec![(DisplayId(1), ws("dev"))]
    );
}

#[test]
fn a_rule_sending_a_new_window_to_a_hidden_workspace_parks_it_without_switching_or_focus() {
    let mut state = switching_state(&["dev"], "dev");
    create(&mut state, "chat");
    let rules = state.outside.get_mut().rule_book(vec![Rule {
        id: "chat".to_owned(),
        application: "slack.exe".to_owned(),
        workspace: "chat".to_owned(),
    }]);
    state.rules = rules;
    let cursor = state.effects.len();

    observe(
        &mut state,
        vec![app_window_at(1, "slack.exe", 1, Rect::new(0, 0, 400, 300))],
    );

    assert_eq!(
        state.workspaces.workspace_of(1),
        Some(&ws("chat"))
    );
    assert_eq!(
        state.displayed(),
        vec![(DisplayId(1), ws("dev"))],
        "a rule target never switches the displayed workspace"
    );
    let drafts = recorded_recovery(&state);
    assert_eq!(
        drafts.len(),
        1,
        "the way back is recorded before the window leaves the screen"
    );
    assert_eq!(state.pending_parking.len(), 1);
    assert!(
        park_effects(&state).is_empty(),
        "nothing parks until the entry is durable"
    );

    settle_switch_from(&mut state, cursor, &mut |_, _| None);

    assert_eq!(sorted_parked(&state), vec![WindowId(1)]);
    assert!(
        !state.effects[cursor..]
            .iter()
            .any(|effect| matches!(effect, EngineEffect::FocusWindow { .. })),
        "a window parked into a hidden workspace never takes the focus"
    );
}

#[test]
fn a_minimized_member_stays_unparked_while_hidden_and_parks_when_its_application_restores_it() {
    let mut state = switching_state(&["dev"], "dev");
    create(&mut state, "chat");
    let mut minimized = app_window_at(1, "a.exe", 1, Rect::new(0, 0, 400, 300));
    minimized.lifecycle = WindowLifecycle::Minimized;
    observe(&mut state, vec![minimized.clone()]);
    let chat = ws("chat");
    state.workspaces.assign(1, &chat);
    let cursor = state.effects.len();
    observe(&mut state, vec![minimized]);

    assert!(
        recorded_recovery(&state).is_empty(),
        "a minimized window occupies no screen and is left as it is"
    );

    observe(
        &mut state,
        vec![app_window_at(1, "a.exe", 1, Rect::new(0, 0, 400, 300))],
    );

    let drafts = recorded_recovery(&state);
    assert_eq!(drafts.len(), 1);
    assert_eq!(
        drafts[0].show_state,
        ShowState::Normal
    );
    assert!(
        state.parked_windows.is_empty(),
        "nothing has moved while the entry is still pending"
    );

    settle_switch_from(&mut state, cursor, &mut |_, _| None);

    assert_eq!(sorted_parked(&state), vec![WindowId(1)]);
}

#[test]
fn a_maximized_window_records_its_show_state_and_normal_bounds_before_parking() {
    let mut state = switching_state(&["dev"], "dev");
    observe(
        &mut state,
        vec![app_window_at(1, "a.exe", 1, Rect::new(0, 0, 400, 300))],
    );
    create(&mut state, "chat");
    let normal = state.windows.get(1).unwrap().bounds;
    let mut maximized = app_window_at(1, "a.exe", 1, Rect::new(-8, -8, 1936, 1096));
    maximized.lifecycle = WindowLifecycle::Maximized;
    observe(&mut state, vec![maximized]);

    focus_workspace(&mut state, "chat");

    let drafts = recorded_recovery(&state);
    assert_eq!(drafts.len(), 1);
    assert_eq!(
        drafts[0].show_state,
        ShowState::Maximized,
        "the show state is on disk before the window is taken out of it"
    );
    assert_eq!(
        drafts[0].normal_bounds, normal,
        "the size it returns to is recorded, not its maximized extent"
    );
    assert_eq!(
        drafts[0].visible_bounds,
        Rect::new(-8, -8, 1936, 1096),
        "where it was on screen is recorded too"
    );
}

#[test]
fn a_full_screen_member_of_a_hidden_workspace_is_never_forced_out_of_full_screen() {
    let mut state = switching_state(&["dev"], "dev");
    create(&mut state, "chat");
    let mut full_screen = app_window_at(1, "a.exe", 1, Rect::new(0, 0, 1920, 1080));
    full_screen.lifecycle = WindowLifecycle::Fullscreen;
    observe(&mut state, vec![full_screen.clone()]);
    let chat = ws("chat");
    state.workspaces.assign(1, &chat);

    observe(&mut state, vec![full_screen]);

    assert!(
        recorded_recovery(&state).is_empty(),
        "nothing forces a full-screen window out of full-screen"
    );
    assert!(state.parked_windows.is_empty());
}

#[test]
fn stored_assignments_are_reapplied_by_parking_through_the_ledger() {
    let mut state = switching_state(&["dev"], "dev");
    create(&mut state, "chat");
    observe(
        &mut state,
        vec![app_window_at(1, "a.exe", 1, Rect::new(0, 0, 400, 300))],
    );
    let chat = ws("chat");
    state.workspaces.assign(1, &chat);
    let cursor = state.effects.len();

    apply(
        &mut state,
        Event::WorkspacesLoaded(vec![
            PersistedWorkspace {
                name: ws("chat"),
                origin: WorkspaceOrigin::Command,
                displayed_fingerprint: None,
                tree: None,
            },
            PersistedWorkspace {
                name: ws("dev"),
                origin: WorkspaceOrigin::Configuration,
                displayed_fingerprint: Some("DISPLAY1".to_owned()),
                tree: None,
            },
        ]),
    );

    assert_eq!(
        recorded_recovery(&state).len(),
        1,
        "no window leaves the screen without its way back on disk"
    );
    settle_switch_from(&mut state, cursor, &mut |_, _| None);
    assert_eq!(sorted_parked(&state), vec![WindowId(1)]);
}

#[test]
fn a_half_applied_stored_assignment_is_never_silent() {
    let mut state = switching_state(&["dev"], "dev");
    create(&mut state, "chat");
    observe(
        &mut state,
        vec![
            app_window_at(1, "a.exe", 1, Rect::new(0, 0, 400, 300)),
            app_window_at(2, "b.exe", 1, Rect::new(500, 0, 400, 300)),
        ],
    );
    let chat = ws("chat");
    state.workspaces.assign(1, &chat);
    state.workspaces.assign(2, &chat);
    let cursor = state.effects.len();

    apply(
        &mut state,
        Event::WorkspacesLoaded(vec![
            PersistedWorkspace {
                name: ws("chat"),
                origin: WorkspaceOrigin::Command,
                displayed_fingerprint: None,
                tree: None,
            },
            PersistedWorkspace {
                name: ws("dev"),
                origin: WorkspaceOrigin::Configuration,
                displayed_fingerprint: Some("DISPLAY1".to_owned()),
                tree: None,
            },
        ]),
    );
    settle_switch_from(&mut state, cursor, &mut |window_id, stage| {
        if window_id == WindowId(2) && stage == ParkingStage::Park {
            Some("the window refused to move".to_owned())
        } else {
            None
        }
    });

    assert_eq!(sorted_parked(&state), vec![WindowId(1)]);
    let degraded = state
        .switch_degraded
        .clone()
        .expect("a window of a hidden workspace is still on screen");
    assert_eq!(degraded.stranded_windows, vec![WindowId(2)]);
    assert_eq!(degraded.target, ws("chat"));
    assert_eq!(
        state.switch_plan("chat"),
        Err(WorkspaceRefusal::SwitchDegraded {
            stranded_windows: 1
        }),
        "switching is blocked while a workspace is split across the boundary"
    );

    let cursor = state.effects.len();
    apply(&mut state, Event::WorkspaceSwitchRestoreRequested);
    settle_switch_from(&mut state, cursor, &mut |_, _| None);

    assert_eq!(state.switch_degraded, None);
    assert_eq!(sorted_parked(&state), vec![WindowId(1), WindowId(2)]);
}

#[test]
fn a_window_of_a_hidden_workspace_stays_visible_when_no_parking_site_is_verified() {
    let mut state = switching_state(&["dev"], "dev");
    apply(
        &mut state,
        Event::ParkingCapabilityReported(ParkingCapability::Refused {
            reason: "every edge is covered by a display".to_owned(),
        }),
    );
    create(&mut state, "chat");
    observe(
        &mut state,
        vec![app_window_at(1, "a.exe", 1, Rect::new(0, 0, 400, 300))],
    );
    let chat = ws("chat");
    state.workspaces.assign(1, &chat);

    observe(
        &mut state,
        vec![app_window_at(1, "a.exe", 1, Rect::new(0, 0, 400, 300))],
    );

    assert!(recorded_recovery(&state).is_empty());
    assert!(state.parked_windows.is_empty());
    assert_eq!(
        state.last_parking_refusal,
        Some(ParkingRefusal::ParkingRefused {
            reason: "every edge is covered by a display".to_owned()
        })
    );
}

#[test]
fn the_reconciler_stands_aside_while_a_switch_is_in_flight() {
    let mut state = switch_fixture();

    focus_workspace(&mut state, "chat");
    let pending_before = state.pending_parking.len();
    observe(
        &mut state,
        vec![
            app_window_at(1, "a.exe", 1, Rect::new(0, 0, 400, 300)),
            app_window_at(2, "b.exe", 1, Rect::new(500, 0, 400, 300)),
        ],
    );

    assert_eq!(state.pending_parking.len(), pending_before);
}

#[test]
fn base_config_cannot_request_switching_so_it_stays_disabled() {
    let state = workspace_state(&[1], &["dev"]);
    assert_eq!(
        state.workspace_switching_status(),
        WorkspaceSwitchingStatus::Disabled
    );
}

#[test]
fn a_valid_profile_mapping_applies_to_every_display_at_once_and_is_requested() {
    let mut state = workspace_state(&[1, 2], &["dev", "chat", "media"]);
    observe(
        &mut state,
        vec![
            app_window_at(1, "a.exe", 1, Rect::new(0, 0, 400, 300)),
            app_window_at(2, "b.exe", 2, Rect::new(1920, 0, 400, 300)),
        ],
    );
    assert_eq!(
        state.displayed(),
        vec![(DisplayId(1), ws("dev")), (DisplayId(2), ws("chat"))]
    );
    let set = switching_set(
        &state.displays,
        &["dev", "chat", "media"],
        true,
        &[("DISPLAY1", "media"), ("DISPLAY2", "dev")],
    );

    apply(&mut state, Event::ConfigChanged(set));

    assert_eq!(
        state.displayed(),
        vec![(DisplayId(1), ws("media")), (DisplayId(2), ws("dev"))],
        "the whole mapping applied as one transition"
    );
    assert!(
        state.stashed("chat").contains(&WindowId(2)),
        "the displaced workspace kept its tree"
    );
    assert_eq!(
        state.tree(2).open(),
        vec![WindowId(1)],
        "dev carried its tree to its new display"
    );
    assert_eq!(
        state.workspace_switching_status(),
        WorkspaceSwitchingStatus::Requested {
            pending: SwitchingPending::ParkingCapabilityUnverified
        },
        "the mapping is in effect; switching itself waits for a verified parking site"
    );
}

#[test]
fn an_inert_mapping_changes_nothing_and_reports_disabled() {
    let mut state = workspace_state(&[1, 2], &["dev", "chat"]);
    let set = switching_set(
        &state.displays,
        &["dev", "chat"],
        false,
        &[("DISPLAY1", "chat"), ("DISPLAY2", "dev")],
    );

    apply(&mut state, Event::ConfigChanged(set));

    assert_eq!(
        state.displayed(),
        vec![(DisplayId(1), ws("dev")), (DisplayId(2), ws("chat"))]
    );
    assert_eq!(
        state.workspace_switching_status(),
        WorkspaceSwitchingStatus::Disabled
    );
}

#[test]
fn a_mapping_that_cannot_be_completed_changes_nothing_and_is_unavailable() {
    let mut state = workspace_state(&[1, 2], &["dev", "chat"]);
    let before = state.displayed();

    let unknown = switching_set(
        &state.displays,
        &["dev", "chat"],
        true,
        &[("DISPLAY1", "chat"), ("DISPLAY2", "media")],
    );
    apply(&mut state, Event::ConfigChanged(unknown));
    assert_eq!(state.displayed(), before);
    assert_eq!(
        state.workspace_switching_status(),
        WorkspaceSwitchingStatus::Unavailable {
            reason: WorkspaceSwitchingUnavailable::UnknownWorkspace {
                name: "media".to_owned()
            }
        }
    );
    assert_eq!(
        state.names(),
        vec![ws("chat"), ws("dev")],
        "no name was invented"
    );

    let incomplete = switching_set(
        &state.displays,
        &["dev", "chat"],
        true,
        &[("DISPLAY1", "chat")],
    );
    apply(&mut state, Event::ConfigChanged(incomplete));
    assert_eq!(state.displayed(), before);
    assert_eq!(
        state.workspace_switching_status(),
        WorkspaceSwitchingStatus::Unavailable {
            reason: WorkspaceSwitchingUnavailable::MappingIncomplete {
                display_fingerprint: "DISPLAY2".to_owned()
            }
        }
    );

    let stray = switching_set(
        &state.displays,
        &["dev", "chat"],
        true,
        &[
            ("DISPLAY1", "chat"),
            ("DISPLAY2", "dev"),
            ("DISPLAY9", "dev"),
        ],
    );
    apply(&mut state, Event::ConfigChanged(stray));
    assert_eq!(state.displayed(), before);
    assert_eq!(
        state.workspace_switching_status(),
        WorkspaceSwitchingStatus::Unavailable {
            reason: WorkspaceSwitchingUnavailable::DisplayNotConnected {
                display_fingerprint: "DISPLAY9".to_owned()
            }
        }
    );
}

#[test]
fn a_mapping_already_in_effect_leaves_the_trees_alone_on_reload() {
    let mut state = workspace_state(&[1], &["dev"]);
    observe(
        &mut state,
        vec![
            app_window_at(1, "a.exe", 1, Rect::new(0, 0, 400, 300)),
            app_window_at(2, "b.exe", 1, Rect::new(500, 0, 400, 300)),
        ],
    );
    let set = switching_set(&state.displays, &["dev"], true, &[("DISPLAY1", "dev")]);
    apply(&mut state, Event::ConfigChanged(set.clone()));
    let tree = state.tree(1);
    let mut again = set;
    again.base.gaps = Gaps::new(4, 4);

    apply(&mut state, Event::ConfigChanged(again));

    assert_eq!(state.tree(1), tree);
    assert!(state
        .workspaces
        .get(&ws("dev"))
        .unwrap()
        .stashed_tree
        .is_none());
}

#[test]
fn switching_status_follows_persistence_health_and_parking_capability() {
    let mut state = workspace_state(&[1], &["dev"]);
    let set = switching_set(&state.displays, &["dev"], true, &[("DISPLAY1", "dev")]);
    apply(&mut state, Event::ConfigChanged(set));

    apply(
        &mut state,
        Event::PersistenceHealthChanged(PersistenceHealth::Degraded {
            last_durable_revision: 1,
            reason: PersistenceFailure::WriteFailed,
        }),
    );
    assert_eq!(
        state.workspace_switching_status(),
        WorkspaceSwitchingStatus::Requested {
            pending: SwitchingPending::PersistenceDegraded
        }
    );

    apply(
        &mut state,
        Event::PersistenceHealthChanged(PersistenceHealth::Healthy {
            last_durable_revision: 2,
        }),
    );
    state.parking_capability = ParkingCapability::Verified;
    assert_eq!(
        state.workspace_switching_status(),
        WorkspaceSwitchingStatus::Experimental
    );

    state.parking_capability = ParkingCapability::Refused {
        reason: "no off-screen edge".to_owned(),
    };
    assert_eq!(
        state.workspace_switching_status(),
        WorkspaceSwitchingStatus::Unavailable {
            reason: WorkspaceSwitchingUnavailable::ParkingRefused {
                reason: "no off-screen edge".to_owned()
            }
        }
    );
}

#[test]
fn a_profile_mapping_outranks_a_remembered_assignment_at_restart() {
    let mut state = workspace_state(&[1], &["dev", "chat"]);
    let set = switching_set(
        &state.displays,
        &["dev", "chat"],
        true,
        &[("DISPLAY1", "chat")],
    );
    apply(&mut state, Event::ConfigChanged(set));
    assert_eq!(
        state.displayed(),
        vec![(DisplayId(1), ws("chat"))]
    );

    apply(
        &mut state,
        Event::WorkspacesLoaded(vec![PersistedWorkspace {
            name: ws("dev"),
            origin: WorkspaceOrigin::Configuration,
            displayed_fingerprint: Some("DISPLAY1".to_owned()),
            tree: None,
        }]),
    );

    assert_eq!(
        state.displayed(),
        vec![(DisplayId(1), ws("chat"))]
    );
}

fn parkable_state() -> Rig {
    let mut state = workspace_state(&[1], &["dev"]);
    state.session_id = "session-1".to_owned();
    state.parking_capability = ParkingCapability::Verified;
    observe(
        &mut state,
        vec![app_window_at(1, "a.exe", 1, Rect::new(0, 0, 400, 300))],
    );
    state
}

fn recovery_intents(state: &Rig) -> Vec<&PersistenceIntent> {
    state
        .persistence_intents
        .iter()
        .filter(|intent| {
            matches!(
                intent,
                PersistenceIntent::RecordRecovery { .. }
                    | PersistenceIntent::MarkParked(_)
                    | PersistenceIntent::MarkRestored(_)
            )
        })
        .collect()
}

fn park_effects(state: &Rig) -> Vec<(WindowId, RecoveryEntryId)> {
    state
        .effects
        .iter()
        .filter_map(|effect| match effect {
            EngineEffect::ParkWindow {
                window_id,
                entry_id,
            } => Some((*window_id, *entry_id)),
            _ => None,
        })
        .collect()
}

#[test]
fn parking_is_authorised_only_after_the_ledger_acknowledges_the_entry() {
    let mut state = parkable_state();

    apply(&mut state, Event::ParkingAuthorizationRequested { window_id: WindowId(1) });

    assert_eq!(state.last_parking_refusal, None);
    assert_eq!(
        state.pending_parking,
        vec![PendingParking {
            token: 1,
            window_id: WindowId(1),
            transaction: None,
        }]
    );
    let intents = recovery_intents(&state);
    assert_eq!(intents.len(), 1);
    let PersistenceIntent::RecordRecovery { token, draft } = intents[0] else {
        panic!("expected a recovery intent");
    };
    assert_eq!(*token, 1);
    assert_eq!(draft.session_id, "session-1");
    assert_eq!(draft.native_handle, 1);
    assert_eq!(draft.original_display_fingerprint, "DISPLAY1");
    assert_eq!(draft.visible_bounds, Rect::new(0, 0, 1920, 1080));
    assert!(
        park_effects(&state).is_empty(),
        "nothing may move before the entry is durable"
    );

    apply(
        &mut state,
        Event::RecoveryEntryDurable {
            token: 1,
            entry_id: RecoveryEntryId(9),
        },
    );

    assert!(state.pending_parking.is_empty());
    assert_eq!(
        park_effects(&state),
        vec![(WindowId(1), RecoveryEntryId(9))]
    );
}

#[test]
fn a_refused_ledger_write_parks_nothing() {
    let mut state = parkable_state();
    apply(&mut state, Event::ParkingAuthorizationRequested { window_id: WindowId(1) });

    apply(&mut state, Event::RecoveryEntryRefused { token: 1 });

    assert!(state.pending_parking.is_empty());
    assert!(park_effects(&state).is_empty());
}

#[test]
fn a_degraded_state_database_refuses_new_parking_but_tiling_continues() {
    let mut state = parkable_state();
    apply(
        &mut state,
        Event::PersistenceHealthChanged(PersistenceHealth::Degraded {
            last_durable_revision: 1,
            reason: PersistenceFailure::WriteFailed,
        }),
    );

    apply(&mut state, Event::ParkingAuthorizationRequested { window_id: WindowId(1) });
    assert_eq!(
        state.last_parking_refusal,
        Some(ParkingRefusal::PersistenceDegraded)
    );
    assert!(recovery_intents(&state).is_empty());

    observe(
        &mut state,
        vec![
            app_window_at(1, "a.exe", 1, Rect::new(0, 0, 1920, 1080)),
            app_window_at(2, "b.exe", 1, Rect::new(0, 0, 400, 300)),
        ],
    );
    assert_eq!(
        arrangement(&state),
        vec![
            (1, Rect::new(0, 0, 960, 1080)),
            (2, Rect::new(960, 0, 960, 1080))
        ]
    );
}

#[test]
fn parking_refuses_without_a_verified_site_a_fullscreen_or_minimized_window_or_an_unmanaged_one(
) {
    let mut state = parkable_state();
    state.parking_capability = ParkingCapability::Unverified;
    assert_eq!(
        plan_parking_authorization(&state, WindowId(1), NOW),
        Err(ParkingRefusal::ParkingCapabilityUnverified)
    );
    state.parking_capability = ParkingCapability::Refused {
        reason: "no edge".to_owned(),
    };
    assert_eq!(
        plan_parking_authorization(&state, WindowId(1), NOW),
        Err(ParkingRefusal::ParkingRefused {
            reason: "no edge".to_owned()
        })
    );
    state.parking_capability = ParkingCapability::Verified;
    assert_eq!(
        plan_parking_authorization(&state, WindowId(99), NOW),
        Err(ParkingRefusal::NotManaged {
            window_id: WindowId(99)
        })
    );
    let mut fullscreen = app_window_at(1, "a.exe", 1, Rect::new(0, 0, 1920, 1080));
    fullscreen.lifecycle = WindowLifecycle::Fullscreen;
    observe(&mut state, vec![fullscreen]);
    assert_eq!(
        plan_parking_authorization(&state, WindowId(1), NOW),
        Err(ParkingRefusal::Fullscreen {
            window_id: WindowId(1)
        })
    );
    let mut minimized = app_window_at(1, "a.exe", 1, Rect::new(0, 0, 400, 300));
    minimized.lifecycle = WindowLifecycle::Minimized;
    observe(&mut state, vec![minimized]);
    assert_eq!(
        plan_parking_authorization(&state, WindowId(1), NOW),
        Err(ParkingRefusal::Minimized {
            window_id: WindowId(1)
        }),
        "a minimized window occupies no screen and is left as it is"
    );
}

#[test]
fn a_parked_window_is_marked_in_the_ledger_and_restoration_consumes_the_entry() {
    let mut state = parkable_state();
    apply(&mut state, Event::ParkingAuthorizationRequested { window_id: WindowId(1) });
    apply(
        &mut state,
        Event::RecoveryEntryDurable {
            token: 1,
            entry_id: RecoveryEntryId(9),
        },
    );

    apply(
        &mut state,
        Event::WindowParked {
            window_id: WindowId(1),
            entry_id: RecoveryEntryId(9),
        },
    );
    assert_eq!(
        state.parked_windows.get(1),
        Some(&RecoveryEntryId(9))
    );
    assert_eq!(
        plan_parking_authorization(&state, WindowId(1), NOW).map(|_| ()),
        Ok(()),
        "a parked window may be re-recorded; the ledger keeps every entry"
    );

    apply(&mut state, Event::WindowRestored { window_id: WindowId(1) });
    assert!(state.parked_windows.is_empty());
    assert!(recovery_intents(&state)
        .iter()
        .any(|intent| matches!(intent, PersistenceIntent::MarkRestored(RecoveryEntryId(9)))));
}

#[test]
fn an_acknowledgement_for_a_window_that_left_management_parks_nothing() {
    let mut state = parkable_state();
    apply(&mut state, Event::ParkingAuthorizationRequested { window_id: WindowId(1) });
    observe(&mut state, vec![]);

    apply(
        &mut state,
        Event::RecoveryEntryDurable {
            token: 1,
            entry_id: RecoveryEntryId(9),
        },
    );

    assert!(park_effects(&state).is_empty());
}

fn restore_effects(state: &Rig) -> Vec<(WindowId, RecoveryEntryId)> {
    state
        .effects
        .iter()
        .filter_map(|effect| match effect {
            EngineEffect::RestoreWindow {
                window_id,
                entry_id,
            } => Some((*window_id, *entry_id)),
            _ => None,
        })
        .collect()
}

fn park(state: &mut Rig, window_id: isize, entry: i64) {
    apply(
        state,
        Event::ParkingAuthorizationRequested { window_id: WindowId(window_id) },
    );
    let token = state
        .pending_parking
        .iter()
        .find(|pending| pending.window_id == WindowId(window_id))
        .expect("the request was accepted")
        .token;
    apply(
        state,
        Event::RecoveryEntryDurable {
            token,
            entry_id: RecoveryEntryId(entry),
        },
    );
    apply(
        state,
        Event::WindowParked {
            window_id: WindowId(window_id),
            entry_id: RecoveryEntryId(entry),
        },
    );
}

#[test]
fn a_failed_park_is_recorded_and_leaves_the_window_unparked() {
    let mut state = parkable_state();
    apply(&mut state, Event::ParkingAuthorizationRequested { window_id: WindowId(1) });
    apply(
        &mut state,
        Event::RecoveryEntryDurable {
            token: 1,
            entry_id: RecoveryEntryId(9),
        },
    );

    apply(
        &mut state,
        Event::WindowParkFailed {
            window_id: WindowId(1),
            entry_id: RecoveryEntryId(9),
            reason: "SetWindowPos failed".to_owned(),
        },
    );

    assert!(state.parked_windows.is_empty());
    assert_eq!(
        state.last_parking_failure,
        Some(ParkingFailure {
            window_id: WindowId(1),
            entry_id: RecoveryEntryId(9),
            stage: ParkingStage::Park,
            reason: "SetWindowPos failed".to_owned(),
        })
    );
    assert!(
        !recovery_intents(&state)
            .iter()
            .any(|intent| matches!(intent, PersistenceIntent::MarkParked(_))),
        "an entry whose park failed is never marked parked"
    );
}

#[test]
fn restoring_parked_windows_asks_for_each_and_a_failed_restore_keeps_the_entry_open() {
    let mut state = parkable_state();
    observe(
        &mut state,
        vec![
            app_window_at(1, "a.exe", 1, Rect::new(0, 0, 400, 300)),
            app_window_at(2, "b.exe", 1, Rect::new(0, 0, 400, 300)),
        ],
    );
    park(&mut state, 1, 9);
    park(&mut state, 2, 10);

    apply(&mut state, Event::RestoreParkedWindowsRequested);

    assert_eq!(
        restore_effects(&state),
        vec![
            (WindowId(1), RecoveryEntryId(9)),
            (WindowId(2), RecoveryEntryId(10))
        ]
    );

    apply(&mut state, Event::WindowRestored { window_id: WindowId(1) });
    apply(
        &mut state,
        Event::WindowRestoreFailed {
            window_id: WindowId(2),
            entry_id: RecoveryEntryId(10),
            reason: "SetWindowPlacement failed".to_owned(),
        },
    );

    assert_eq!(
        state.parked_windows.get(2),
        Some(&RecoveryEntryId(10)),
        "a window whose restore failed stays parked, so recovery still finds it"
    );
    assert!(!state.parked_windows.contains_key(1));
    assert_eq!(
        state
            .last_parking_failure
            .as_ref()
            .map(|failure| failure.stage),
        Some(ParkingStage::Restore)
    );
    assert!(recovery_intents(&state)
        .iter()
        .any(|intent| matches!(intent, PersistenceIntent::MarkRestored(RecoveryEntryId(9)))));
    assert!(!recovery_intents(&state)
        .iter()
        .any(|intent| matches!(intent, PersistenceIntent::MarkRestored(RecoveryEntryId(10)))));
}

#[test]
fn a_parked_window_that_closes_releases_its_entry() {
    let mut state = parkable_state();
    park(&mut state, 1, 9);

    observe(&mut state, vec![]);

    assert!(state.parked_windows.is_empty());
    assert!(recovery_intents(&state)
        .iter()
        .any(|intent| matches!(intent, PersistenceIntent::MarkRestored(RecoveryEntryId(9)))));
}

#[test]
fn startup_recovery_outcomes_are_published() {
    let mut state = parkable_state();
    let outcome = RecoveryOutcome {
        entry_id: RecoveryEntryId(3),
        native_handle: 77,
        application_id: ApplicationId("code.exe".to_owned()),
        verdict: HandleVerdict::Stale,
        restored: false,
        failure: None,
    };

    apply(&mut state, Event::RecoveryReported(vec![outcome.clone()]));

    assert_eq!(state.recovery_outcomes, vec![outcome]);
}

#[test]
fn undo_refuses_when_two_targets_claim_one_window() {
    let mut state = state_ready_to_snap();
    apply(&mut state, Event::ZoneSnapRequested { direction: ZoneSnapDirection::Left });
    let mut transaction = stored(recorded_drafts(&state)[0], 1);
    let mut again = transaction.members[0].clone();
    again.ordinal = 1;
    transaction.members.push(again);
    apply(&mut state, Event::UndoHistoryLoaded(Some(transaction)));

    apply(&mut state, Event::UndoRequested);

    assert_eq!(
        state.last_undo_result,
        Some(UndoResult::Refused(UndoRefusal::TargetsCollide {
            transaction_id: UndoTransactionId(1),
            window_id: WindowId(7),
            ordinals: vec![0, 1],
        }))
    );
    assert!(state.newest_undo.is_some());
}

#[test]
fn undo_refuses_to_leave_a_display_without_a_workspace() {
    let mut state = switch_fixture();
    switch_to(&mut state, "chat");
    let mut draft = recorded_drafts(&state).last().copied().cloned().unwrap();
    draft.prior_assignments[0].workspace = None;
    state.newest_undo = Some(stored(&draft, 7));

    apply(&mut state, Event::UndoRequested);

    assert_eq!(
        state.last_undo_result,
        Some(UndoResult::Refused(UndoRefusal::WorkspaceSwitchRefused {
            transaction_id: UndoTransactionId(7),
            reason: WorkspaceRefusal::CannotHideWithoutReplacement {
                display_fingerprint: "DISPLAY1".to_owned(),
            },
        }))
    );
}

#[test]
fn a_workspace_configuration_declares_is_not_deleted_by_command() {
    let mut state = workspace_state(&[1], &["dev", "chat"]);

    apply(&mut state, Event::WorkspaceDeleteRequested { name: requested("chat") });

    assert_eq!(
        state.last_workspace_result,
        Some(WorkspaceCommandResult::Refused(WorkspaceRefusal::DeclaredByConfiguration {
            name: ws("chat"),
        }))
    );
    assert_eq!(state.names(), vec![ws("chat"), ws("dev")]);
}

#[test]
fn one_entry_the_ledger_refuses_cancels_the_whole_switch() {
    let mut state = switch_fixture();
    focus_workspace(&mut state, "chat");
    let token = state.pending_parking[1].token;

    apply(&mut state, Event::RecoveryEntryRefused { token });

    assert!(state.switch.is_none());
    assert!(state.pending_parking.is_empty());
    assert!(park_effects(&state).is_empty());
    assert_eq!(state.displayed(), vec![(DisplayId(1), ws("dev"))]);
    assert_eq!(
        state.last_workspace_result,
        Some(WorkspaceCommandResult::SwitchFailed(WorkspaceSwitchFailed {
            name: ws("chat"),
            display_id: DisplayId(1),
            reason: SwitchFailure::EntryNotDurable,
            compensated: true,
            stranded_windows: Vec::new(),
        }))
    );
}

#[test]
fn parking_refuses_a_window_that_is_waiting_and_one_whose_display_is_gone() {
    let mut state = parkable_state();
    apply(&mut state, Event::ParkingAuthorizationRequested { window_id: WindowId(1) });
    assert_eq!(
        plan_parking_authorization(&state, WindowId(1), NOW),
        Err(ParkingRefusal::AlreadyPending { window_id: WindowId(1) })
    );
    apply(&mut state, Event::RecoveryEntryRefused { token: 1 });
    state.displays.clear();
    assert_eq!(
        plan_parking_authorization(&state, WindowId(1), NOW),
        Err(ParkingRefusal::UnknownDisplay { window_id: WindowId(1) })
    );
}

#[test]
fn tree_commands_refuse_without_a_display_a_tree_or_while_paused() {
    let mut state = two_apps_state();
    focus(&mut state, 1, Rect::new(0, 0, 960, 1080));
    state.displays.clear();
    assert_eq!(
        state.swap_plan(CardinalDirection::Right),
        Err(DirectionalSwapRefusal::DisplayUnavailable { display_id: DisplayId(1) })
    );
    assert_eq!(
        state.resize_plan(CardinalDirection::Right),
        Err(TreeResizeRefusal::DisplayUnavailable { display_id: DisplayId(1) })
    );
    state.paused = true;
    assert_eq!(state.remove_plan(DisplayId(1), 0), Err(RemovePositionRefusal::Paused));
    state.paused = false;
    state.automatic_tiling_active = false;
    assert_eq!(state.remove_plan(DisplayId(1), 0), Err(RemovePositionRefusal::NotTreeMode));
}

#[test]
fn nothing_is_placed_while_paused() {
    let mut state = nested_tree_state();
    focus(&mut state, 2, Rect::new(960, 0, 960, 540));
    apply(&mut state, Event::PauseRequested);
    let before = state.state.clone();

    for event in [
        Event::WindowPlaced {
            window_id: WindowId(1),
            display_id: DisplayId(1),
            bounds: Rect::new(5, 5, 50, 50),
        },
        Event::WindowThrowToDisplayRequested {
            window_id: WindowId(1),
            direction: DisplayDirection::Next,
        },
        Event::ZoneSnapRequested { direction: ZoneSnapDirection::Top },
        Event::SavedLayoutApplyRequested { name: "half".to_owned() },
        Event::DirectionalSwapRequested { direction: CardinalDirection::Left },
        Event::TreeResizeRequested { direction: CardinalDirection::Left },
        Event::TreePositionRemoveRequested { display_id: DisplayId(1), position: 0 },
        Event::UndoRequested,
    ] {
        apply(&mut state, event);
        assert_eq!(state.state, before);
    }
}

#[test]
fn saying_the_same_thing_twice_changes_nothing_the_second_time() {
    for event in [
        Event::PauseRequested,
        Event::ResumeRequested,
        Event::DesktopFocused,
        Event::FocusDisplayRequested { display_id: DisplayId(1) },
        Event::ParkingCapabilityReported(ParkingCapability::Verified),
        Event::HotkeyRegistrationReported { unregistered: vec!["snap-left".to_owned()] },
        Event::PlacementAccepted { window_id: WindowId(1) },
        Event::WindowBoundsObserved {
            window_id: WindowId(1),
            display_id: DisplayId(1),
            bounds: Rect::new(7, 7, 70, 70),
        },
        Event::ConfigChanged(ResolvedConfigSet::default()),
        topology_changed(vec![display(3, "DISPLAY3", 0), display(1, "DISPLAY1", 1920)]),
        Event::PersistenceHealthChanged(PersistenceHealth::Healthy { last_durable_revision: 9 }),
    ] {
        let mut state = nested_tree_state();
        apply(&mut state, event.clone());
        let before = state.state.clone();
        apply(&mut state, event);
        assert_eq!(state.state, before);
    }
}

#[test]
fn a_missing_answer_comes_back_as_the_question() {
    let state = tree_state();
    let nothing_known = Answers { now_unix: NOW, known: Vec::new() };
    let window = window_at(1, 1, Rect::new(0, 0, 400, 300));

    let asked = next_state(
        &state,
        Event::WindowsObserved { windows: vec![window.clone()] },
        &nothing_known,
    );

    assert_eq!(asked, Err(Question::Verdict { rules: state.rules, window }));
}

#[test]
fn an_answer_of_the_wrong_shape_is_no_answer() {
    let state = tree_state();
    let window = window_at(1, 1, Rect::new(0, 0, 400, 300));
    let question = Question::Verdict { rules: state.rules, window: window.clone() };
    let confused = Answers {
        now_unix: NOW,
        known: vec![Known { question, answer: Answer::Present(true) }],
    };

    let asked = next_state(&state, Event::WindowsObserved { windows: vec![window] }, &confused);

    assert!(matches!(asked, Err(Question::Verdict { .. })));
}

#[test]
fn every_window_on_a_display_that_vanished_is_carried_to_a_surviving_one() {
    let mut state = tree_state();
    state.displays = vec![
        display(1, "DISPLAY1", 0),
        display(2, "DISPLAY2", 1920),
        display(3, "DISPLAY3", 3840),
    ];
    observe(
        &mut state,
        vec![
            window_at(1, 1, Rect::new(0, 0, 400, 300)),
            window_at(2, 3, Rect::new(3840, 0, 400, 300)),
        ],
    );

    apply(
        &mut state,
        topology_changed(vec![display(1, "DISPLAY1", 0), display(2, "DISPLAY2", 1920)]),
    );

    assert_eq!(
        state.windows.get(2).unwrap().display_id,
        DisplayId(2),
        "the nearest survivor takes it"
    );
    assert_eq!(state.windows.get(1).unwrap().display_id, DisplayId(1));
}

#[test]
fn a_workspace_moved_there_and_back_leaves_every_display_as_it_was() {
    let mut state = workspace_state(&[1, 2], &["dev", "chat"]);
    let before = state.displayed();
    for to in [2, 1] {
        apply(
            &mut state,
            Event::WorkspaceMoveRequested { name: requested("dev"), display_id: DisplayId(to) },
        );
    }
    assert_eq!(state.displayed(), before);
}

#[test]
fn windows_of_one_application_are_numbered_by_their_handles() {
    let mut state = tree_state();
    observe(
        &mut state,
        vec![
            app_window_at(9, "a.exe", 1, Rect::new(0, 0, 400, 300)),
            app_window_at(4, "a.exe", 1, Rect::new(500, 0, 400, 300)),
            app_window_at(6, "b.exe", 1, Rect::new(900, 0, 400, 300)),
        ],
    );
    assert_eq!(state.launch_order_of(WindowId(4)), 0);
    assert_eq!(state.launch_order_of(WindowId(9)), 1);
    assert_eq!(state.launch_order_of(WindowId(6)), 0);
    assert_eq!(state.launch_order_of(WindowId(1)), 0);
}

#[test]
fn a_command_remembers_only_where_it_first_found_a_window() {
    let mut state = state_ready_to_snap();
    let here = (DisplayId(1), Rect::new(10, 10, 500, 500));
    let there = (DisplayId(1), Rect::new(0, 0, 960, 1080));
    state.open_undo_scope(CommandLabel::Rearrange);
    state.record_undo_member(WindowId(7), Some(here));
    state.record_undo_member(WindowId(7), Some(there));
    let scope = state.undo_scope.clone().expect("the scope is open");
    assert_eq!(scope.members.len(), 1);
    assert_eq!(scope.members[0].prior_placement, here.1);
}

#[test]
fn a_parked_window_of_a_displayed_workspace_is_asked_back() {
    let mut state = parkable_state();
    park(&mut state, 1, 9);
    assert!(restore_effects(&state).is_empty());

    observe(&mut state, vec![app_window_at(1, "a.exe", 1, Rect::new(0, 0, 400, 300))]);

    assert_eq!(restore_effects(&state), vec![(WindowId(1), RecoveryEntryId(9))]);
}

#[test]
fn focusing_a_displayed_workspace_leaves_every_display_as_it_is() {
    let mut state = workspace_state(&[1, 2], &["dev", "chat"]);
    let before = state.displayed();
    focus_workspace(&mut state, "chat");
    assert_eq!(state.displayed(), before);
    assert_eq!(state.focused_display, Some(DisplayId(2)));
}

#[test]
fn an_entry_that_became_durable_late_parks_only_the_window_it_was_for() {
    let mut state = parkable_state();
    apply(&mut state, Event::ParkingAuthorizationRequested { window_id: WindowId(1) });
    apply(&mut state, Event::RecoveryEntryDurable { token: 77, entry_id: RecoveryEntryId(5) });
    assert!(park_effects(&state).is_empty(), "nothing waits for that token");
    apply(&mut state, Event::RecoveryEntryDurable { token: 1, entry_id: RecoveryEntryId(6) });
    assert_eq!(park_effects(&state), vec![(WindowId(1), RecoveryEntryId(6))]);
}

#[test]
fn further_answers_change_no_result() {
    let state = tree_state();
    let window = window_at(1, 1, Rect::new(0, 0, 400, 300));
    let event = Event::WindowsObserved { windows: vec![window] };
    let mut answers = Answers { now_unix: NOW, known: Vec::new() };
    let settled = loop {
        match next_state(&state, event.clone(), &answers) {
            Ok(next) => break next,
            Err(question) => {
                let answer = state.outside.borrow_mut().answer(&question);
                answers.known.push(Known { question, answer });
            }
        }
    };
    let asked = answers.known.len();
    answers.known.push(Known {
        question: Question::Grid { area: Rect::new(0, 0, 10, 10), count: 1 },
        answer: Answer::Cells(vec![Rect::new(0, 0, 10, 10)]),
    });
    assert!(asked > 3, "a reflow asks for more than a verdict");
    assert_eq!(next_state(&state, event, &answers), Ok(settled));
}

// Starting up.

#[test]
fn spawned_engine_starts_with_initial_state_and_applies_events() {
    let displays = vec![display(1, "MON-A", 0)];
    let topology = topology_fingerprint(&displays);
    let mut state = rig(initial_state(
        displays,
        topology,
        ResolvedConfigSet::default(),
        "session".to_owned(),
    ));
    assert_eq!(state.revision, 0);
    assert_eq!(state.displays.len(), 1);
    assert_eq!(state.focused_display, Some(DisplayId(1)));
    assert_eq!(state.session_id, "session");

    apply(
        &mut state,
        topology_changed(vec![display(1, "MON-A", 0), display(2, "MON-B", 1920)]),
    );

    assert_eq!(state.revision, 1, "expected the reducer to apply the event");
    assert_eq!(state.displays.len(), 2);
}

#[test]
fn state_reader_diff_reports_the_window_a_snap_hotkey_just_placed() {
    let displays = vec![display(1, "MON-A", 0)];
    let topology = topology_fingerprint(&displays);
    let mut state = rig(initial_state(
        displays,
        topology,
        ResolvedConfigSet::default(),
        "session".to_owned(),
    ));
    let before = state.windows.clone();

    apply(
        &mut state,
        Event::WindowFocused {
            window_id: WindowId(1),
            display_id: DisplayId(1),
            bounds: Rect::new(100, 100, 800, 600),
        },
    );
    apply(
        &mut state,
        Event::ZoneSnapRequested {
            direction: ZoneSnapDirection::Left,
        },
    );

    assert_eq!(
        diff_placements(&before, &state.windows)
            .into_iter()
            .map(|moved| (moved.window_id, moved.display_id, moved.bounds))
            .collect::<Vec<_>>(),
        vec![(WindowId(1), DisplayId(1), Rect::new(0, 0, 960, 1080))],
        "an executor polling before/after this snap must be told to move WindowId(1)"
    );
}

// The revision.

#[test]
fn a_change_of_health_is_a_revision_and_its_repetition_is_none() {
    let mut state = rig(EngineState::default());
    let degraded = PersistenceHealth::Degraded {
        last_durable_revision: 0,
        reason: PersistenceFailure::WriteFailed,
    };

    apply(&mut state, Event::PersistenceHealthChanged(degraded));
    assert_eq!(state.persistence_health, degraded);
    assert_eq!(state.revision, 1);

    apply(&mut state, Event::PersistenceHealthChanged(degraded));
    assert_eq!(state.revision, 1);
}

#[test]
fn every_rejection_that_counts_is_a_revision() {
    let mut state = state_ready_to_snap();
    let before = state.revision;

    apply(&mut state, Event::PlacementRejected { window_id: WindowId(7) });
    assert_eq!(state.windows.get(7).unwrap().rejection_count, 1);
    assert_eq!(state.revision, before + 1, "below the threshold too");

    apply(&mut state, Event::PlacementRejected { window_id: WindowId(8) });
    assert_eq!(state.revision, before + 1, "an untracked window counts nothing");
}

#[test]
fn a_manual_placement_the_breaker_suppresses_still_floats_the_window_and_is_a_revision() {
    let mut state = tiling_state_with_two_windows();
    for _ in 0..3 {
        apply(&mut state, Event::PlacementRejected { window_id: WindowId(31) });
    }
    assert_eq!(state.circuit_breaker_count(), 1);
    let before = state.revision;
    let at = state.windows.get(31).unwrap().bounds;

    apply(
        &mut state,
        Event::WindowPlaced {
            window_id: WindowId(31),
            display_id: DisplayId(1),
            bounds: Rect::new(5, 5, 300, 300),
        },
    );

    assert!(state.session_floating.contains(31));
    assert_eq!(state.windows.get(31).unwrap().bounds, at);
    assert!(state.revision > before);
}

#[test]
fn an_observation_that_repeats_what_is_known_is_no_revision() {
    let mut state = tiling_state_with_two_windows();
    let windows: Vec<Window> =
        state.inventory.keys().iter().map(|id| state.inventory.get(*id).unwrap().window.clone()).collect();
    let before = state.revision;

    observe(&mut state, windows);

    assert_eq!(state.revision, before);
}

#[test]
fn an_observation_that_only_forgets_an_override_is_a_revision() {
    let mut state = tiling_state_with_two_windows();
    let windows: Vec<Window> =
        state.inventory.keys().iter().map(|id| state.inventory.get(*id).unwrap().window.clone()).collect();
    state.session_tiled.insert(99);
    let before = state.revision;

    observe(&mut state, windows);

    assert!(!state.session_tiled.contains(99), "nothing is remembered of a window that is gone");
    assert_eq!(state.revision, before + 1);
}

#[test]
fn the_revision_stays_at_the_limit_of_its_type() {
    let mut state = rig(EngineState { revision: u64::MAX, ..EngineState::default() });
    apply(&mut state, Event::PauseRequested);
    assert!(state.paused);
    assert_eq!(state.revision, u64::MAX);
}

// Displays.

#[test]
fn a_wake_forgets_the_layout_of_a_display_that_is_gone() {
    let mut state = rig(EngineState {
        displays: vec![display(1, "MON-A", 0)],
        ..EngineState::default()
    });
    state.last_applied_layouts.insert(1, "half".to_owned());

    apply(&mut state, wake(vec![display(2, "MON-B", 0)], None));

    assert!(state.last_applied_layouts.is_empty());
}

#[test]
fn scale_factors_are_compared_as_numbers() {
    let scaled = |scale: f64| {
        let mut scaled = display(1, "MON-A", 0);
        scaled.scale_factor_bits = scale.to_bits();
        scaled
    };
    let mut state = rig(EngineState {
        displays: vec![scaled(0.0)],
        ..EngineState::default()
    });

    apply(&mut state, topology_changed(vec![scaled(-0.0)]));
    assert_eq!(state.revision, 0, "zero is zero, whatever its sign");

    apply(&mut state, topology_changed(vec![scaled(1.5)]));
    assert_eq!(state.revision, 1);
    apply(&mut state, topology_changed(vec![scaled(1.5)]));
    assert_eq!(state.revision, 1);

    apply(&mut state, topology_changed(vec![scaled(f64::NAN)]));
    assert_eq!(state.revision, 2);
    apply(&mut state, topology_changed(vec![scaled(f64::NAN)]));
    assert_eq!(state.revision, 3, "what is no number never repeats itself");

    assert!(same_numbers(f64::INFINITY.to_bits(), f64::INFINITY.to_bits()));
    assert!(!same_numbers(f64::INFINITY.to_bits(), f64::NEG_INFINITY.to_bits()));
    assert!(!same_numbers(1.0f64.to_bits(), (-1.0f64).to_bits()));
}

#[test]
fn a_throw_into_the_very_cell_the_tiling_gives_is_told_to_the_adapter() {
    let mut state = tiling_state_with_saved_layout("unused", &[]);
    state.displays = vec![display(1, "a", 0), display(2, "b", 1920)];
    state.resolved_config.tiling_mode = TilingMode::Balanced;
    observe(&mut state, vec![window_at(1, 1, Rect::new(0, 0, 400, 300))]);
    assert_eq!(state.windows.get(1).unwrap().bounds, Rect::new(0, 0, 1920, 1080));
    let start = state.effects.len();

    apply(
        &mut state,
        Event::WindowThrowToDisplayRequested {
            window_id: WindowId(1),
            direction: DisplayDirection::Next,
        },
    );

    assert!(state.effects[start..].contains(&EngineEffect::PlaceWindow {
        window_id: WindowId(1),
        display_id: DisplayId(2),
        bounds: Rect::new(1920, 0, 1920, 1080),
    }));
    assert_eq!(
        state.effects[start..]
            .iter()
            .filter(|effect| matches!(effect, EngineEffect::PlaceWindow { .. }))
            .count(),
        1,
        "and it is told once"
    );
}

#[test]
fn a_throw_of_a_window_whose_breaker_is_open_moves_it_and_issues_no_placement() {
    let mut state = tiling_state_with_two_windows();
    for _ in 0..3 {
        apply(&mut state, Event::PlacementRejected { window_id: WindowId(31) });
    }
    let start = state.effects.len();
    let recorded = recorded_drafts(&state).len();
    let before = state.revision;
    assert_eq!(state.windows.get(31).unwrap().bounds, Rect::new(0, 0, 960, 1080));

    apply(
        &mut state,
        Event::WindowThrowToDisplayRequested {
            window_id: WindowId(31),
            direction: DisplayDirection::Next,
        },
    );

    let thrown = state.windows.get(31).unwrap();
    assert_eq!(thrown.display_id, DisplayId(2));
    assert_eq!(thrown.bounds, Rect::new(1920, 0, 960, 1080));
    assert_eq!(thrown.rejection_count, 3, "only a snap resets the breaker");
    assert_eq!(state.inventory.get(31).unwrap().window.display_id, DisplayId(2));
    assert_eq!(listed(&state.visual_window_order, 1), vec![WindowId(32)]);
    assert_eq!(listed(&state.visual_window_order, 2), vec![WindowId(31)]);
    assert!(
        state.effects[start..].iter().all(|effect| !matches!(
            effect,
            EngineEffect::PlaceWindow { window_id: WindowId(31), .. }
        )),
        "no placement is issued while the breaker is open"
    );
    let drafts = recorded_drafts(&state);
    assert_eq!(drafts.len(), recorded + 1);
    assert_eq!(drafts[recorded].command, "throw-next-display");
    assert_eq!(drafts[recorded].members[0].prior_placement, Rect::new(0, 0, 960, 1080));
    assert_eq!(state.revision, before + 1);
}

#[test]
fn a_throw_of_a_window_whose_breaker_is_open_does_nothing_off_tiling() {
    let mut state = state_ready_to_snap();
    state.displays.push(display(2, "b", 1920));
    for _ in 0..3 {
        apply(&mut state, Event::PlacementRejected { window_id: WindowId(7) });
    }
    let before = state.revision;
    let placed = *state.windows.get(7).unwrap();

    apply(
        &mut state,
        Event::WindowThrowToDisplayRequested {
            window_id: WindowId(7),
            direction: DisplayDirection::Next,
        },
    );

    assert_eq!(*state.windows.get(7).unwrap(), placed);
    assert!(recorded_drafts(&state).is_empty());
    assert_eq!(state.revision, before);
}

#[test]
fn a_saved_layout_lands_on_the_display_of_the_focused_managed_window() {
    let mut state = state_with_saved_layout("whole", &[(0.0, 0.0, 1.0, 1.0)]);
    state.displays.push(display(2, "b", 1920));
    observe(&mut state, vec![window_at(1, 2, Rect::new(1920, 0, 400, 300))]);
    state.focused_window = Some(WindowId(1));
    state.focused_display = Some(DisplayId(1));

    let plan = layout_plan(&state, "whole").unwrap();
    assert_eq!(plan.display_id, DisplayId(2));
    assert_eq!(plan.placements.len(), 1);

    state.focused_window = Some(WindowId(99));
    let plan = layout_plan(&state, "whole").unwrap();
    assert_eq!(plan.display_id, DisplayId(1), "an unmanaged window has no say");
}

// Switches that fail while moves are under way.

/// A switch to "chat" with both windows told to park and neither answered.
fn both_parks_under_way() -> (Rig, Vec<(WindowId, RecoveryEntryId)>) {
    let mut state = switch_fixture();
    focus_workspace(&mut state, "chat");
    let tokens: Vec<u64> = state.pending_parking.iter().map(|pending| pending.token).collect();
    for (k, token) in tokens.into_iter().enumerate() {
        apply(
            &mut state,
            Event::RecoveryEntryDurable { token, entry_id: RecoveryEntryId(50 + k as i64) },
        );
    }
    let parks = state
        .effects
        .iter()
        .filter_map(|effect| match effect {
            EngineEffect::ParkWindow { window_id, entry_id } => Some((*window_id, *entry_id)),
            _ => None,
        })
        .collect();
    (state, parks)
}

#[test]
fn a_park_that_lands_after_the_switch_failed_is_put_back() {
    let (mut state, parks) = both_parks_under_way();
    let (first, first_entry) = parks[0];
    let (second, second_entry) = parks[1];

    apply(
        &mut state,
        Event::WindowParkFailed {
            window_id: first,
            entry_id: first_entry,
            reason: "refused".to_owned(),
        },
    );
    let switch = state.switch.as_ref().expect("the other park is still under way");
    assert_eq!(switch.in_flight, vec![second]);

    apply(&mut state, Event::WindowParked { window_id: second, entry_id: second_entry });
    assert_eq!(
        state.effects.last(),
        Some(&EngineEffect::RestoreWindow { window_id: second, entry_id: second_entry })
    );
    assert!(state.switch.is_some());

    apply(&mut state, Event::WindowRestored { window_id: second });
    assert!(state.switch.is_none() && state.switch_degraded.is_none());
    assert!(state.parked_windows.is_empty());
    assert_eq!(state.displayed(), vec![(DisplayId(1), ws("dev"))]);
    assert!(matches!(
        &state.last_workspace_result,
        Some(WorkspaceCommandResult::SwitchFailed(WorkspaceSwitchFailed { compensated: true, .. }))
    ));
}

#[test]
fn a_second_park_that_fails_after_the_switch_failed_strands_nothing() {
    let (mut state, parks) = both_parks_under_way();
    for (window_id, entry_id) in parks {
        apply(
            &mut state,
            Event::WindowParkFailed { window_id, entry_id, reason: "refused".to_owned() },
        );
    }
    assert!(state.switch.is_none());
    assert!(state.switch_degraded.is_none(), "both windows are where they belong");
}

/// Back from "chat" to "dev" with both restores under way.
fn both_restores_under_way() -> Rig {
    let mut state = switch_fixture();
    switch_to(&mut state, "chat");
    focus_workspace(&mut state, "dev");
    assert_eq!(state.switch.as_ref().unwrap().in_flight, vec![WindowId(1), WindowId(2)]);
    state
}

#[test]
fn a_restore_that_lands_after_the_switch_failed_is_parked_again() {
    let mut state = both_restores_under_way();
    let first_entry = *state.parked_windows.get(1).unwrap();

    apply(
        &mut state,
        Event::WindowRestoreFailed {
            window_id: WindowId(1),
            entry_id: first_entry,
            reason: "refused".to_owned(),
        },
    );
    assert_eq!(state.switch.as_ref().unwrap().in_flight, vec![WindowId(2)]);

    apply(&mut state, Event::WindowRestored { window_id: WindowId(2) });
    assert_eq!(state.pending_parking.len(), 1, "it needs a fresh entry to go back");
    let token = state.pending_parking[0].token;

    apply(
        &mut state,
        Event::RecoveryEntryDurable { token, entry_id: RecoveryEntryId(70) },
    );
    assert_eq!(
        state.effects.last(),
        Some(&EngineEffect::ParkWindow { window_id: WindowId(2), entry_id: RecoveryEntryId(70) })
    );

    apply(
        &mut state,
        Event::WindowParked { window_id: WindowId(2), entry_id: RecoveryEntryId(70) },
    );
    assert!(state.switch.is_none() && state.switch_degraded.is_none());
    assert_eq!(sorted_parked(&state), vec![WindowId(1), WindowId(2)]);
    assert_eq!(state.displayed(), vec![(DisplayId(1), ws("chat"))]);
}

#[test]
fn an_entry_refused_while_compensating_strands_its_window() {
    let mut state = both_restores_under_way();
    let second_entry = *state.parked_windows.get(2).unwrap();
    apply(&mut state, Event::WindowRestored { window_id: WindowId(1) });
    apply(
        &mut state,
        Event::WindowRestoreFailed {
            window_id: WindowId(2),
            entry_id: second_entry,
            reason: "refused".to_owned(),
        },
    );
    assert_eq!(state.pending_parking.len(), 1, "the first window has to go back");
    let token = state.pending_parking[0].token;

    apply(&mut state, Event::RecoveryEntryRefused { token });

    assert!(state.switch.is_none(), "nothing is left to wait for");
    let degraded = state.switch_degraded.as_ref().expect("one window could not be put back");
    assert_eq!(degraded.stranded_windows, vec![WindowId(1)]);
    assert!(matches!(
        &state.last_workspace_result,
        Some(WorkspaceCommandResult::SwitchFailed(WorkspaceSwitchFailed { compensated: false, .. }))
    ));
}

#[test]
fn a_window_whose_display_went_away_is_simply_not_parked() {
    let mut state = switch_fixture();
    let plan = state.switch_plan("chat").expect("both windows can be moved");
    assert_eq!(plan.park, vec![WindowId(1), WindowId(2)]);
    let mut gone = state.inventory.get(2).unwrap().clone();
    gone.window.display_id = DisplayId(9);
    state.inventory.insert(2, gone);

    let answers = Answers { now_unix: NOW, known: Vec::new() };
    assert!(state.state.begin_workspace_switch(&answers, plan, None).is_ok());

    let switch = state.switch.as_ref().expect("the switch carries on without it");
    assert!(switch.failure.is_none());
    assert_eq!(
        state.pending_parking.iter().map(|pending| pending.window_id).collect::<Vec<_>>(),
        vec![WindowId(1)]
    );
}

// What the laws say, on concrete values.

#[test]
fn a_durable_entry_is_heard_once() {
    let mut state = switch_fixture();
    focus_workspace(&mut state, "chat");
    let token = state.pending_parking[0].token;
    let parked = |state: &Rig| {
        state.effects.iter().filter(|effect| matches!(effect, EngineEffect::ParkWindow { .. })).count()
    };

    apply(&mut state, Event::RecoveryEntryDurable { token, entry_id: RecoveryEntryId(5) });
    assert_eq!(parked(&state), 1);
    assert!(state.pending_parking.iter().all(|pending| pending.token != token));
    let revision = state.revision;

    apply(&mut state, Event::RecoveryEntryDurable { token, entry_id: RecoveryEntryId(5) });
    assert_eq!(parked(&state), 1);
    assert_eq!(state.revision, revision);
}

#[test]
fn a_complete_mapping_is_shown_exactly_and_carries_the_trees() {
    let mut state = workspace_state(&[1, 2], &["dev", "web"]);
    observe(
        &mut state,
        vec![
            app_window_at(1, "a.exe", 1, Rect::new(0, 0, 400, 300)),
            app_window_at(2, "b.exe", 2, Rect::new(2000, 0, 400, 300)),
        ],
    );
    assert_eq!(state.displayed(), vec![(DisplayId(1), ws("dev")), (DisplayId(2), ws("web"))]);
    let dev_tree = state.trees.get(1).copied();
    let web_tree = state.trees.get(2).copied();
    state.resolved_config.workspace_switching = Some(ResolvedWorkspaceSwitching {
        experimental: true,
        displayed: vec![
            DisplayMapping { display_fingerprint: "DISPLAY1".to_owned(), workspace: ws("web") },
            DisplayMapping { display_fingerprint: "DISPLAY2".to_owned(), workspace: ws("dev") },
        ],
    });

    for _ in 0..2 {
        state.apply_switching_mapping();
        assert_eq!(state.displayed(), vec![(DisplayId(1), ws("web")), (DisplayId(2), ws("dev"))]);
        assert_eq!(state.trees.get(1).copied(), web_tree);
        assert_eq!(state.trees.get(2).copied(), dev_tree);
        assert!(state.switching_unavailable.is_none());
    }
}

/// Reflows once more, with nothing new to say.
fn reflow(rig: &mut Rig) {
    let mut answers = Answers { now_unix: NOW, known: Vec::new() };
    loop {
        let mut again = rig.state.clone();
        match again.reconcile_arrangements(&answers) {
            Ok(()) => {
                rig.state = again;
                return;
            }
            Err(question) => {
                let answer = rig.outside.borrow_mut().answer(&question);
                answers.known.push(Known { question, answer });
            }
        }
    }
}

#[test]
fn a_second_reflow_of_the_same_trees_changes_nothing() {
    let mut state = two_apps_state();
    let before = state.state.clone();
    let tree = state.tree(1);

    reflow(&mut state);

    // What would recognise the windows is captured anew, where they are now.
    state.leaf_evidence = before.leaf_evidence.clone();
    assert_eq!(state.state, before);
    assert_eq!(state.tree(1), tree);
}

#[test]
fn a_second_reflow_notes_every_overflow_as_it_was() {
    let mut state = narrow_tree_state(1000);
    let mut beside = state.displays[0].clone();
    beside.id = DisplayId(2);
    beside.stable_fingerprint = "DISPLAY2".to_owned();
    beside.full_bounds = Rect::new(1000, 0, 1000, 600);
    beside.work_area = Rect::new(1000, 0, 1000, 600);
    beside.is_primary = false;
    state.displays.push(beside);
    let crowd = |count: isize| -> Vec<Window> {
        (0..count)
            .flat_map(|k| {
                [
                    window_needing(1 + k, 1, Rect::new(10 * k as i32, 0, 400, 300), (400, 400)),
                    window_needing(11 + k, 2, Rect::new(1000 + 10 * k as i32, 0, 400, 300), (400, 400)),
                ]
            })
            .collect()
    };
    observe(&mut state, crowd(3));
    assert!(!state.overflow(1).is_empty() && !state.overflow(2).is_empty());
    let before = state.state.clone();

    reflow(&mut state);

    // What would recognise the windows is captured anew, where they are now.
    state.leaf_evidence = before.leaf_evidence.clone();
    assert_eq!(state.state, before);
}

#[test]
fn the_grid_takes_over_without_the_trees() {
    let mut state = two_apps_state();
    assert!(!state.trees.is_empty());
    let windows: Vec<Window> = state
        .inventory
        .keys()
        .iter()
        .map(|id| state.inventory.get(*id).unwrap().window.clone())
        .collect();
    state.resolved_config.tiling_mode = TilingMode::Balanced;

    apply(&mut state, Event::RearrangeReconciliationComplete { windows });

    assert!(state.trees.is_empty(), "the grid keeps no structure between reflows");
}
