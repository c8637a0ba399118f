//! What the engine asks of the geometry planners, the container-tree
//! library, the window matcher and the rule evaluator, and what they
//! answered.
//!
//! None of these is decided here. A step of the engine looks each answer up
//! by the question's arguments; where the answer is not there, the step stops
//! and the question itself is its result.

use vstd::prelude::*;

verus! {

use crate::geometry::{
    CycleStep, DisplayDirection, DisplayId, Gaps, HalfZone, HorizontalDirection, Rect, Size,
    SplitAxis, Toward, WindowId,
};
use crate::name::RequestedName;
use crate::text::{copy_option, first_index, lemma_first_hit, same_option, same_text_option};
use crate::window::{
    identical_display_lists, identical_displays, same_evidence, same_window, Display, ManageAction,
    Window, WindowEvidence,
};

/// A live container tree, by its identity in the tree library. Equal trees
/// have equal identities, and `0` is the tree with nothing in it.
#[derive(Debug, Clone, Copy, PartialEq, Eq, Structural)]
pub struct ContainerTree {
    pub id: u64,
}

impl ContainerTree {
    pub open spec fn empty() -> ContainerTree {
        ContainerTree { id: 0 }
    }

    pub fn new() -> (tree: ContainerTree)
        ensures
            tree == ContainerTree::empty(),
    {
        ContainerTree { id: 0 }
    }
}

/// A durable container tree: the same structure with each window replaced by
/// evidence. Identified as [`ContainerTree`] is.
#[derive(Debug, Clone, Copy, PartialEq, Eq, Structural)]
pub struct PersistedTree {
    pub id: u64,
}

/// The compiled rules in force, by their identity in the rule evaluator.
#[derive(Debug, Clone, Copy, PartialEq, Eq, Structural)]
pub struct RuleBook {
    pub id: u64,
}

/// The normalized cells of one saved layout, by their identity in
/// configuration.
#[derive(Debug, Clone, Copy, PartialEq, Eq, Structural)]
pub struct LayoutCells {
    pub id: u64,
}

/// A zone a window can be snapped to.
#[derive(Debug, Clone, Copy, PartialEq, Eq, Structural)]
pub enum Zone {
    Cycle(HorizontalDirection, CycleStep),
    Half(HalfZone),
}

/// What the rules conclude about a window.
#[derive(Debug, PartialEq)]
pub struct Verdict {
    pub manage: ManageAction,
    pub workspace: Option<RequestedName>,
    pub rule_id: Option<String>,
}

/// What matching one piece of evidence against the open windows concluded.
#[derive(Debug, Clone, Copy, PartialEq, Eq, Structural)]
pub enum MatchOutcome {
    Confident { window_id: WindowId },
    Ambiguous { candidates: u32 },
    Unmatched,
}

impl MatchOutcome {
    pub open spec fn confident(self) -> Option<WindowId> {
        match self {
            MatchOutcome::Confident { window_id } => Some(window_id),
            _ => None,
        }
    }

    /// The one window this is confidently about.
    pub fn confident_window(&self) -> (window: Option<WindowId>)
        ensures
            window == self.confident(),
    {
        match self {
            MatchOutcome::Confident { window_id } => Some(*window_id),
            _ => None,
        }
    }
}

/// An open window offered to the matcher.
#[derive(Debug, PartialEq)]
pub struct Candidate {
    pub window: Window,
    pub display_fingerprint: Option<String>,
    pub launch_order: u32,
}

pub open spec fn same_candidate(a: Candidate, b: Candidate) -> bool {
    &&& same_window(a.window, b.window)
    &&& same_option(a.display_fingerprint, b.display_fingerprint)
    &&& a.launch_order == b.launch_order
}

pub open spec fn same_candidates(a: Seq<Candidate>, b: Seq<Candidate>) -> bool {
    a.len() == b.len() && forall|i: int| 0 <= i < a.len() ==> #[trigger] same_candidate(a[i], b[i])
}

/// A tree position kept for a window that closed.
#[derive(Debug, PartialEq)]
pub struct DormantPosition {
    pub evidence: WindowEvidence,
    pub since_unix: i64,
}

pub open spec fn same_dormant(a: DormantPosition, b: DormantPosition) -> bool {
    same_evidence(a.evidence, b.evidence) && a.since_unix == b.since_unix
}

/// A dormant position with the number its tree gave it.
#[derive(Debug, PartialEq)]
pub struct DormantSlot {
    pub position: u64,
    pub dormant: DormantPosition,
}

/// What a leaf of a durable tree holds.
#[derive(Debug, PartialEq)]
pub enum Occupant {
    Live(WindowEvidence),
    Dormant(DormantPosition),
}

/// What a leaf becomes when a durable tree is made live again.
#[derive(Debug, PartialEq)]
pub enum LeafFate {
    Live(WindowId),
    Dormant(DormantPosition),
}

pub open spec fn same_fate(a: LeafFate, b: LeafFate) -> bool {
    match (a, b) {
        (LeafFate::Live(x), LeafFate::Live(y)) => x == y,
        (LeafFate::Dormant(x), LeafFate::Dormant(y)) => same_dormant(x, y),
        _ => false,
    }
}

pub open spec fn same_fates(a: Seq<LeafFate>, b: Seq<LeafFate>) -> bool {
    a.len() == b.len() && forall|i: int| 0 <= i < a.len() ==> #[trigger] same_fate(a[i], b[i])
}

pub open spec fn same_evidence_option(
    a: Option<WindowEvidence>,
    b: Option<WindowEvidence>,
) -> bool {
    match (a, b) {
        (Some(x), Some(y)) => same_evidence(x, y),
        (None, None) => true,
        _ => false,
    }
}

pub open spec fn same_evidence_list(
    a: Seq<Option<WindowEvidence>>,
    b: Seq<Option<WindowEvidence>>,
) -> bool {
    a.len() == b.len() && forall|i: int|
        0 <= i < a.len() ==> #[trigger] same_evidence_option(a[i], b[i])
}

/// One reshaping of a live tree.
#[derive(Debug, PartialEq)]
pub enum TreeChange {
    MakeDormant { window_id: WindowId, dormant: DormantPosition },
    Remove { window_id: WindowId },
    PruneDormant { now_unix: i64 },
    Reclaim { position: u64, window_id: WindowId },
    InsertFirst { window_id: WindowId },
    SplitRoot { axis: SplitAxis, window_id: WindowId },
    SplitLeaf { target: WindowId, axis: SplitAxis, window_id: WindowId },
    SwapLeaves { a: WindowId, b: WindowId },
    RemovePosition { position: u64 },
}

pub open spec fn same_change(a: TreeChange, b: TreeChange) -> bool {
    match (a, b) {
        (
            TreeChange::MakeDormant { window_id: w, dormant: d },
            TreeChange::MakeDormant { window_id: v, dormant: e },
        ) => w == v && same_dormant(d, e),
        (TreeChange::MakeDormant { .. }, _) => false,
        (_, TreeChange::MakeDormant { .. }) => false,
        _ => a == b,
    }
}

/// Where a new window goes: beside `target`, along `axis`.
#[derive(Debug, Clone, Copy, PartialEq, Eq, Structural)]
pub struct Insertion {
    pub target: WindowId,
    pub axis: SplitAxis,
}

/// The minimum size of one window of a tree, if it has one.
#[derive(Debug, Clone, Copy, PartialEq, Eq, Structural)]
pub struct MinimumSize {
    pub window_id: WindowId,
    pub size: Option<Size>,
}

/// The bit patterns of the weights on the two sides of a divider.
#[derive(Debug, Clone, Copy, PartialEq, Eq, Structural)]
pub struct WeightBits {
    pub grown: u64,
    pub shrunk: u64,
}

/// What moving a divider did: which children took and gave, and their
/// weights before and after.
#[derive(Debug, Clone, Copy, PartialEq, Eq, Structural)]
pub struct DividerChange {
    pub grew: usize,
    pub shrank: usize,
    pub weights_before: WeightBits,
    pub weights_after: WeightBits,
}

/// A tree with one divider moved.
#[derive(Debug, Clone, Copy, PartialEq, Eq, Structural)]
pub struct ResizedTree {
    pub tree: ContainerTree,
    pub change: DividerChange,
}

/// Something only an outside library can work out.
#[derive(Debug, PartialEq)]
#[allow(inconsistent_fields)]
pub enum Question {
    /// `raw` with the gaps of an arrangement over `area` taken off.
    Gapped { raw: Rect, area: Rect, gaps: Gaps },
    /// The balanced grid of `count` cells over `area`.
    Grid { area: Rect, count: usize },
    /// The bounds of `zone` on `area`.
    Zone { area: Rect, zone: Zone },
    /// `bounds` carried from one work area to another, keeping its ratio.
    Thrown { bounds: Rect, from: Rect, to: Rect },
    /// The display next to `from` among `displays`.
    Adjacent { displays: Vec<Display>, from: DisplayId, direction: DisplayDirection },
    /// The cells of a saved layout over `area`.
    Cells { area: Rect, cells: LayoutCells },
    /// What the rules say of `window`.
    Verdict { rules: RuleBook, window: Window },
    /// Which of `candidates` the evidence is about.
    Match { evidence: WindowEvidence, candidates: Vec<Candidate> },
    /// The windows and the dormant positions of a live tree.
    Shape { tree: ContainerTree },
    /// The leaves of a durable tree.
    Leaves { stored: PersistedTree },
    /// A live tree after one reshaping.
    Change { tree: ContainerTree, change: TreeChange },
    /// Where a new window goes in a tree laid out over `area`.
    Insertion { tree: ContainerTree, area: Rect, focused: Option<WindowId> },
    /// Whether a divider faces that way from the window.
    Divider { tree: ContainerTree, window_id: WindowId, axis: SplitAxis, toward: Toward },
    /// The tree with that divider moved by `points` percentage points.
    Resize {
        tree: ContainerTree,
        window_id: WindowId,
        axis: SplitAxis,
        toward: Toward,
        points: u32,
    },
    /// The placements of a tree over `area`, honouring minimum sizes.
    Plan { tree: ContainerTree, area: Rect, gaps: Gaps, minimums: Vec<MinimumSize> },
    /// A durable tree made live, each leaf by its fate.
    Convert { stored: PersistedTree, fates: Vec<LeafFate> },
    /// A live tree made durable, each window by its evidence.
    Durable { tree: ContainerTree, evidence: Vec<Option<WindowEvidence>> },
}

/// A [`Question`] with its lists as sequences.
#[allow(inconsistent_fields)]
pub ghost enum Query {
    Gapped { raw: Rect, area: Rect, gaps: Gaps },
    Grid { area: Rect, count: usize },
    Zone { area: Rect, zone: Zone },
    Thrown { bounds: Rect, from: Rect, to: Rect },
    Adjacent { displays: Seq<Display>, from: DisplayId, direction: DisplayDirection },
    Cells { area: Rect, cells: LayoutCells },
    Verdict { rules: RuleBook, window: Window },
    Match { evidence: WindowEvidence, candidates: Seq<Candidate> },
    Shape { tree: ContainerTree },
    Leaves { stored: PersistedTree },
    Change { tree: ContainerTree, change: TreeChange },
    Insertion { tree: ContainerTree, area: Rect, focused: Option<WindowId> },
    Divider { tree: ContainerTree, window_id: WindowId, axis: SplitAxis, toward: Toward },
    Resize {
        tree: ContainerTree,
        window_id: WindowId,
        axis: SplitAxis,
        toward: Toward,
        points: u32,
    },
    Plan { tree: ContainerTree, area: Rect, gaps: Gaps, minimums: Seq<MinimumSize> },
    Convert { stored: PersistedTree, fates: Seq<LeafFate> },
    Durable { tree: ContainerTree, evidence: Seq<Option<WindowEvidence>> },
}

impl View for Question {
    type V = Query;

    open spec fn view(&self) -> Query {
        match *self {
            Question::Gapped { raw, area, gaps } => Query::Gapped { raw, area, gaps },
            Question::Grid { area, count } => Query::Grid { area, count },
            Question::Zone { area, zone } => Query::Zone { area, zone },
            Question::Thrown { bounds, from, to } => Query::Thrown { bounds, from, to },
            Question::Adjacent { displays, from, direction } => Query::Adjacent {
                displays: displays@,
                from,
                direction,
            },
            Question::Cells { area, cells } => Query::Cells { area, cells },
            Question::Verdict { rules, window } => Query::Verdict { rules, window },
            Question::Match { evidence, candidates } => Query::Match {
                evidence,
                candidates: candidates@,
            },
            Question::Shape { tree } => Query::Shape { tree },
            Question::Leaves { stored } => Query::Leaves { stored },
            Question::Change { tree, change } => Query::Change { tree, change },
            Question::Insertion { tree, area, focused } => Query::Insertion { tree, area, focused },
            Question::Divider { tree, window_id, axis, toward } => Query::Divider {
                tree,
                window_id,
                axis,
                toward,
            },
            Question::Resize { tree, window_id, axis, toward, points } => Query::Resize {
                tree,
                window_id,
                axis,
                toward,
                points,
            },
            Question::Plan { tree, area, gaps, minimums } => Query::Plan {
                tree,
                area,
                gaps,
                minimums: minimums@,
            },
            Question::Convert { stored, fates } => Query::Convert { stored, fates: fates@ },
            Question::Durable { tree, evidence } => Query::Durable { tree, evidence: evidence@ },
        }
    }
}

/// Two questions that ask the same thing.
pub open spec fn same_query(a: Query, b: Query) -> bool {
    match (a, b) {
        (
            Query::Adjacent { displays, from, direction },
            Query::Adjacent { displays: d, from: f, direction: r },
        ) => identical_displays(displays, d) && from == f && direction == r,
        (Query::Verdict { rules, window }, Query::Verdict { rules: r, window: w }) => rules == r
            && same_window(window, w),
        (Query::Match { evidence, candidates }, Query::Match { evidence: e, candidates: c }) =>
            same_evidence(evidence, e) && same_candidates(candidates, c),
        (Query::Change { tree, change }, Query::Change { tree: t, change: c }) => tree == t
            && same_change(change, c),
        (Query::Convert { stored, fates }, Query::Convert { stored: s, fates: f }) => stored == s
            && same_fates(fates, f),
        (Query::Durable { tree, evidence }, Query::Durable { tree: t, evidence: e }) => tree == t
            && same_evidence_list(evidence, e),
        (Query::Adjacent { .. }, _) => false,
        (Query::Verdict { .. }, _) => false,
        (Query::Match { .. }, _) => false,
        (Query::Change { .. }, _) => false,
        (Query::Convert { .. }, _) => false,
        (Query::Durable { .. }, _) => false,
        _ => a == b,
    }
}

fn same_candidate_lists(a: &Vec<Candidate>, b: &Vec<Candidate>) -> (same: bool)
    ensures
        same == same_candidates(a@, b@),
{
    if a.len() != b.len() {
        return false;
    }
    let mut i: usize = 0;
    while i < a.len()
        invariant
            i <= a@.len(),
            a@.len() == b@.len(),
            forall|j: int| 0 <= j < i ==> #[trigger] same_candidate(a@[j], b@[j]),
        decreases a@.len() - i,
    {
        let same = a[i].window.same(&b[i].window) && same_text_option(
            &a[i].display_fingerprint,
            &b[i].display_fingerprint,
        ) && a[i].launch_order == b[i].launch_order;
        if !same {
            assert(!same_candidate(a@[i as int], b@[i as int]));
            return false;
        }
        i += 1;
    }
    true
}

fn same_dormants(a: &DormantPosition, b: &DormantPosition) -> (same: bool)
    ensures
        same == same_dormant(*a, *b),
{
    a.evidence.same(&b.evidence) && a.since_unix == b.since_unix
}

fn same_leaf_fates(a: &LeafFate, b: &LeafFate) -> (same: bool)
    ensures
        same == same_fate(*a, *b),
{
    match (a, b) {
        (LeafFate::Live(x), LeafFate::Live(y)) => *x == *y,
        (LeafFate::Dormant(x), LeafFate::Dormant(y)) => same_dormants(x, y),
        _ => false,
    }
}

fn same_fate_lists(a: &Vec<LeafFate>, b: &Vec<LeafFate>) -> (same: bool)
    ensures
        same == same_fates(a@, b@),
{
    if a.len() != b.len() {
        return false;
    }
    let mut i: usize = 0;
    while i < a.len()
        invariant
            i <= a@.len(),
            a@.len() == b@.len(),
            forall|j: int| 0 <= j < i ==> #[trigger] same_fate(a@[j], b@[j]),
        decreases a@.len() - i,
    {
        if !same_leaf_fates(&a[i], &b[i]) {
            assert(!same_fate(a@[i as int], b@[i as int]));
            return false;
        }
        i += 1;
    }
    true
}

fn same_evidence_options(a: &Option<WindowEvidence>, b: &Option<WindowEvidence>) -> (same: bool)
    ensures
        same == same_evidence_option(*a, *b),
{
    match (a, b) {
        (Some(x), Some(y)) => x.same(y),
        (None, None) => true,
        _ => false,
    }
}

fn same_evidence_lists(a: &Vec<Option<WindowEvidence>>, b: &Vec<Option<WindowEvidence>>) -> (same:
    bool)
    ensures
        same == same_evidence_list(a@, b@),
{
    if a.len() != b.len() {
        return false;
    }
    let mut i: usize = 0;
    while i < a.len()
        invariant
            i <= a@.len(),
            a@.len() == b@.len(),
            forall|j: int| 0 <= j < i ==> #[trigger] same_evidence_option(a@[j], b@[j]),
        decreases a@.len() - i,
    {
        if !same_evidence_options(&a[i], &b[i]) {
            assert(!same_evidence_option(a@[i as int], b@[i as int]));
            return false;
        }
        i += 1;
    }
    true
}

fn same_minimum_lists(a: &Vec<MinimumSize>, b: &Vec<MinimumSize>) -> (same: bool)
    ensures
        same == (a@ == b@),
{
    if a.len() != b.len() {
        return false;
    }
    let mut i: usize = 0;
    while i < a.len()
        invariant
            i <= a@.len(),
            a@.len() == b@.len(),
            forall|j: int| 0 <= j < i ==> a@[j] == b@[j],
        decreases a@.len() - i,
    {
        let same_size = match (a[i].size, b[i].size) {
            (Some(x), Some(y)) => x == y,
            (None, None) => true,
            _ => false,
        };
        if !(a[i].window_id == b[i].window_id && same_size) {
            return false;
        }
        i += 1;
    }
    assert(a@ =~= b@);
    true
}

fn same_changes(a: &TreeChange, b: &TreeChange) -> (same: bool)
    ensures
        same == same_change(*a, *b),
{
    match (a, b) {
        (
            TreeChange::MakeDormant { window_id: w, dormant: d },
            TreeChange::MakeDormant { window_id: v, dormant: e },
        ) => *w == *v && same_dormants(d, e),
        (TreeChange::Remove { window_id: w }, TreeChange::Remove { window_id: v }) => *w == *v,
        (TreeChange::PruneDormant { now_unix: n }, TreeChange::PruneDormant { now_unix: m }) => *n
            == *m,
        (
            TreeChange::Reclaim { position: p, window_id: w },
            TreeChange::Reclaim { position: q, window_id: v },
        ) => *p == *q && *w == *v,
        (TreeChange::InsertFirst { window_id: w }, TreeChange::InsertFirst { window_id: v }) => *w
            == *v,
        (
            TreeChange::SplitRoot { axis: x, window_id: w },
            TreeChange::SplitRoot { axis: y, window_id: v },
        ) => *x == *y && *w == *v,
        (
            TreeChange::SplitLeaf { target: t, axis: x, window_id: w },
            TreeChange::SplitLeaf { target: u, axis: y, window_id: v },
        ) => *t == *u && *x == *y && *w == *v,
        (TreeChange::SwapLeaves { a: w, b: x }, TreeChange::SwapLeaves { a: v, b: y }) => *w == *v
            && *x == *y,
        (
            TreeChange::RemovePosition { position: p },
            TreeChange::RemovePosition { position: q },
        ) => *p == *q,
        _ => false,
    }
}

fn same_focus(a: &Option<WindowId>, b: &Option<WindowId>) -> (same: bool)
    ensures
        same == (*a == *b),
{
    match (a, b) {
        (Some(x), Some(y)) => *x == *y,
        (None, None) => true,
        _ => false,
    }
}

impl Question {
    /// Whether two questions ask the same thing.
    pub fn same(&self, other: &Question) -> (same: bool)
        ensures
            same == same_query(self@, other@),
    {
        match (self, other) {
            (
                Question::Gapped { raw, area, gaps },
                Question::Gapped { raw: r, area: a, gaps: g },
            ) => *raw == *r && *area == *a && *gaps == *g,
            (Question::Grid { area, count }, Question::Grid { area: a, count: c }) => *area == *a
                && *count == *c,
            (Question::Zone { area, zone }, Question::Zone { area: a, zone: z }) => *area == *a
                && *zone == *z,
            (
                Question::Thrown { bounds, from, to },
                Question::Thrown { bounds: b, from: f, to: t },
            ) => *bounds == *b && *from == *f && *to == *t,
            (
                Question::Adjacent { displays, from, direction },
                Question::Adjacent { displays: d, from: f, direction: r },
            ) => identical_display_lists(displays, d) && *from == *f && *direction == *r,
            (Question::Cells { area, cells }, Question::Cells { area: a, cells: c }) => *area == *a
                && *cells == *c,
            (Question::Verdict { rules, window }, Question::Verdict { rules: r, window: w }) =>
                *rules == *r && window.same(w),
            (
                Question::Match { evidence, candidates },
                Question::Match { evidence: e, candidates: c },
            ) => evidence.same(e) && same_candidate_lists(candidates, c),
            (Question::Shape { tree }, Question::Shape { tree: t }) => *tree == *t,
            (Question::Leaves { stored }, Question::Leaves { stored: s }) => *stored == *s,
            (Question::Change { tree, change }, Question::Change { tree: t, change: c }) => *tree
                == *t && same_changes(change, c),
            (
                Question::Insertion { tree, area, focused },
                Question::Insertion { tree: t, area: a, focused: f },
            ) => *tree == *t && *area == *a && same_focus(focused, f),
            (
                Question::Divider { tree, window_id, axis, toward },
                Question::Divider { tree: t, window_id: w, axis: a, toward: d },
            ) => *tree == *t && *window_id == *w && *axis == *a && *toward == *d,
            (
                Question::Resize { tree, window_id, axis, toward, points },
                Question::Resize { tree: t, window_id: w, axis: a, toward: d, points: p },
            ) => *tree == *t && *window_id == *w && *axis == *a && *toward == *d && *points == *p,
            (
                Question::Plan { tree, area, gaps, minimums },
                Question::Plan { tree: t, area: a, gaps: g, minimums: m },
            ) => *tree == *t && *area == *a && *gaps == *g && same_minimum_lists(minimums, m),
            (Question::Convert { stored, fates }, Question::Convert { stored: s, fates: f }) =>
                *stored == *s && same_fate_lists(fates, f),
            (
                Question::Durable { tree, evidence },
                Question::Durable { tree: t, evidence: e },
            ) => *tree == *t && same_evidence_lists(evidence, e),
            _ => false,
        }
    }
}

impl Clone for DormantPosition {
    fn clone(&self) -> (copy: DormantPosition)
        ensures
            copy == *self,
    {
        DormantPosition { evidence: self.evidence.clone(), since_unix: self.since_unix }
    }
}

/// The windows of a live tree in layout order, and its dormant positions.
#[derive(Debug, PartialEq)]
pub struct TreeShape {
    pub windows: Vec<WindowId>,
    pub dormant: Vec<DormantSlot>,
}

/// Where one window of a planned tree goes.
#[derive(Debug, Clone, Copy, PartialEq, Eq, Structural)]
pub struct PlannedPlacement {
    pub window_id: WindowId,
    pub bounds: Rect,
}

/// A planned tree: what does not fit, the gaps it could keep, and where the
/// rest goes.
#[derive(Debug, PartialEq)]
pub struct TreePlan {
    pub overflow: Vec<WindowId>,
    pub gaps: Gaps,
    pub placements: Vec<PlannedPlacement>,
}

/// What an outside library answered. A reshaping that did not apply answers
/// with no tree.
#[derive(Debug, PartialEq)]
pub enum Answer {
    Bounds(Rect),
    Cells(Vec<Rect>),
    Display(Option<DisplayId>),
    Verdict(Verdict),
    Outcome(MatchOutcome),
    Shape(TreeShape),
    Leaves(Vec<Occupant>),
    Tree(Option<ContainerTree>),
    Insertion(Option<Insertion>),
    Present(bool),
    Resized(Option<ResizedTree>),
    Plan(TreePlan),
    Stored(PersistedTree),
}

/// One question with its answer.
#[derive(Debug, PartialEq)]
pub struct Known {
    pub question: Question,
    pub answer: Answer,
}

/// Everything a step may look up, and the time it happens at.
#[derive(Debug, PartialEq)]
pub struct Answers {
    pub now_unix: i64,
    pub known: Vec<Known>,
}

/// A looked-up value against what the answers hold.
pub open spec fn told<T>(reply: Result<T, Question>, truth: Result<T, Query>) -> bool {
    match (reply, truth) {
        (Ok(value), Ok(expected)) => value == expected,
        (Err(question), Err(query)) => question@ == query,
        _ => false,
    }
}

/// A looked-up list against what the answers hold.
pub open spec fn told_list<T>(reply: Result<&Vec<T>, Question>, truth: Result<Seq<T>, Query>) -> bool {
    match (reply, truth) {
        (Ok(list), Ok(expected)) => list@ == expected,
        (Err(question), Err(query)) => question@ == query,
        _ => false,
    }
}

impl Answers {
    pub open spec fn asks(self, query: Query) -> spec_fn(int) -> bool {
        |i: int| same_query(self.known@[i].question@, query)
    }

    /// The answer to `query`: the first one recorded for it.
    pub open spec fn look_up(self, query: Query) -> Option<Answer> {
        match first_index(self.known@.len(), self.asks(query)) {
            Some(i) => Some(self.known@[i].answer),
            None => None,
        }
    }

    fn find(&self, question: &Question) -> (answer: Option<&Answer>)
        ensures
            match answer {
                Some(found) => self.look_up(question@) == Some(*found),
                None => self.look_up(question@) is None,
            },
    {
        let mut i: usize = 0;
        while i < self.known.len()
            invariant
                i <= self.known@.len(),
                first_index(i as nat, self.asks(question@)) is None,
            decreases self.known@.len() - i,
        {
            if self.known[i].question.same(question) {
                proof {
                    assert(self.asks(question@)(i as int));
                    lemma_first_hit(self.known@.len(), self.asks(question@), i as int);
                }
                return Some(&self.known[i].answer);
            }
            assert(!self.asks(question@)(i as int));
            i += 1;
        }
        None
    }

    pub open spec fn bounds_for(self, query: Query) -> Result<Rect, Query> {
        match self.look_up(query) {
            Some(Answer::Bounds(bounds)) => Ok(bounds),
            _ => Err(query),
        }
    }

    fn bounds(&self, question: Question) -> (reply: Result<Rect, Question>)
        ensures
            told(reply, self.bounds_for(question@)),
    {
        match self.find(&question) {
            Some(Answer::Bounds(bounds)) => Ok(*bounds),
            _ => Err(question),
        }
    }

    pub open spec fn gapped_spec(self, raw: Rect, area: Rect, gaps: Gaps) -> Result<Rect, Query> {
        self.bounds_for(Query::Gapped { raw, area, gaps })
    }

    pub fn gapped(&self, raw: Rect, area: Rect, gaps: Gaps) -> (reply: Result<Rect, Question>)
        ensures
            told(reply, self.gapped_spec(raw, area, gaps)),
    {
        self.bounds(Question::Gapped { raw, area, gaps })
    }

    pub open spec fn zone_spec(self, area: Rect, zone: Zone) -> Result<Rect, Query> {
        self.bounds_for(Query::Zone { area, zone })
    }

    pub fn zone(&self, area: Rect, zone: Zone) -> (reply: Result<Rect, Question>)
        ensures
            told(reply, self.zone_spec(area, zone)),
    {
        self.bounds(Question::Zone { area, zone })
    }

    pub open spec fn thrown_spec(self, bounds: Rect, from: Rect, to: Rect) -> Result<Rect, Query> {
        self.bounds_for(Query::Thrown { bounds, from, to })
    }

    pub fn thrown(&self, bounds: Rect, from: Rect, to: Rect) -> (reply: Result<Rect, Question>)
        ensures
            told(reply, self.thrown_spec(bounds, from, to)),
    {
        self.bounds(Question::Thrown { bounds, from, to })
    }

    pub open spec fn cells_for(self, query: Query) -> Result<Seq<Rect>, Query> {
        match self.look_up(query) {
            Some(Answer::Cells(cells)) => Ok(cells@),
            _ => Err(query),
        }
    }

    fn cells(&self, question: Question) -> (reply: Result<&Vec<Rect>, Question>)
        ensures
            told_list(reply, self.cells_for(question@)),
    {
        match self.find(&question) {
            Some(Answer::Cells(cells)) => Ok(cells),
            _ => Err(question),
        }
    }

    pub open spec fn grid_spec(self, area: Rect, count: usize) -> Result<Seq<Rect>, Query> {
        self.cells_for(Query::Grid { area, count })
    }

    pub fn grid(&self, area: Rect, count: usize) -> (reply: Result<&Vec<Rect>, Question>)
        ensures
            told_list(reply, self.grid_spec(area, count)),
    {
        self.cells(Question::Grid { area, count })
    }

    pub open spec fn layout_spec(self, area: Rect, cells: LayoutCells) -> Result<Seq<Rect>, Query> {
        self.cells_for(Query::Cells { area, cells })
    }

    pub fn layout(&self, area: Rect, cells: LayoutCells) -> (reply: Result<&Vec<Rect>, Question>)
        ensures
            told_list(reply, self.layout_spec(area, cells)),
    {
        self.cells(Question::Cells { area, cells })
    }

    pub open spec fn adjacent_spec(
        self,
        displays: Seq<Display>,
        from: DisplayId,
        direction: DisplayDirection,
    ) -> Result<Option<DisplayId>, Query> {
        let query = Query::Adjacent { displays, from, direction };
        match self.look_up(query) {
            Some(Answer::Display(display_id)) => Ok(display_id),
            _ => Err(query),
        }
    }

    pub fn adjacent(&self, displays: &Vec<Display>, from: DisplayId, direction: DisplayDirection)
        -> (reply: Result<Option<DisplayId>, Question>)
        ensures
            told(reply, self.adjacent_spec(displays@, from, direction)),
    {
        let question = Question::Adjacent { displays: copy_displays(displays), from, direction };
        match self.find(&question) {
            Some(Answer::Display(display_id)) => Ok(*display_id),
            _ => Err(question),
        }
    }

    pub open spec fn verdict_spec(self, rules: RuleBook, window: Window) -> Result<Verdict, Query> {
        let query = Query::Verdict { rules, window };
        match self.look_up(query) {
            Some(Answer::Verdict(verdict)) => Ok(verdict),
            _ => Err(query),
        }
    }

    pub fn verdict(&self, rules: RuleBook, window: &Window) -> (reply: Result<Verdict, Question>)
        ensures
            told(reply, self.verdict_spec(rules, *window)),
    {
        let question = Question::Verdict { rules, window: window.clone() };
        match self.find(&question) {
            Some(Answer::Verdict(verdict)) => Ok(verdict.clone()),
            _ => Err(question),
        }
    }

    pub open spec fn outcome_spec(
        self,
        evidence: WindowEvidence,
        candidates: Seq<Candidate>,
    ) -> Result<MatchOutcome, Query> {
        let query = Query::Match { evidence, candidates };
        match self.look_up(query) {
            Some(Answer::Outcome(outcome)) => Ok(outcome),
            _ => Err(query),
        }
    }

    pub fn outcome(&self, evidence: &WindowEvidence, candidates: &Vec<Candidate>) -> (reply: Result<
        MatchOutcome,
        Question,
    >)
        ensures
            told(reply, self.outcome_spec(*evidence, candidates@)),
    {
        let question = Question::Match {
            evidence: evidence.clone(),
            candidates: copy_candidates(candidates),
        };
        match self.find(&question) {
            Some(Answer::Outcome(outcome)) => Ok(*outcome),
            _ => Err(question),
        }
    }

    pub open spec fn windows_spec(self, tree: ContainerTree) -> Result<Seq<WindowId>, Query> {
        match self.look_up(Query::Shape { tree }) {
            Some(Answer::Shape(shape)) => Ok(shape.windows@),
            _ => Err(Query::Shape { tree }),
        }
    }

    /// The windows of a live tree, in layout order.
    pub fn windows(&self, tree: ContainerTree) -> (reply: Result<&Vec<WindowId>, Question>)
        ensures
            told_list(reply, self.windows_spec(tree)),
    {
        let question = Question::Shape { tree };
        match self.find(&question) {
            Some(Answer::Shape(shape)) => Ok(&shape.windows),
            _ => Err(question),
        }
    }

    pub open spec fn dormant_spec(self, tree: ContainerTree) -> Result<Seq<DormantSlot>, Query> {
        match self.look_up(Query::Shape { tree }) {
            Some(Answer::Shape(shape)) => Ok(shape.dormant@),
            _ => Err(Query::Shape { tree }),
        }
    }

    /// The dormant positions of a live tree.
    pub fn dormant(&self, tree: ContainerTree) -> (reply: Result<&Vec<DormantSlot>, Question>)
        ensures
            told_list(reply, self.dormant_spec(tree)),
    {
        let question = Question::Shape { tree };
        match self.find(&question) {
            Some(Answer::Shape(shape)) => Ok(&shape.dormant),
            _ => Err(question),
        }
    }

    pub open spec fn leaves_spec(self, stored: PersistedTree) -> Result<Seq<Occupant>, Query> {
        match self.look_up(Query::Leaves { stored }) {
            Some(Answer::Leaves(leaves)) => Ok(leaves@),
            _ => Err(Query::Leaves { stored }),
        }
    }

    pub fn leaves(&self, stored: PersistedTree) -> (reply: Result<&Vec<Occupant>, Question>)
        ensures
            told_list(reply, self.leaves_spec(stored)),
    {
        let question = Question::Leaves { stored };
        match self.find(&question) {
            Some(Answer::Leaves(leaves)) => Ok(leaves),
            _ => Err(question),
        }
    }

    pub open spec fn change_spec(
        self,
        tree: ContainerTree,
        change: TreeChange,
    ) -> Result<Option<ContainerTree>, Query> {
        let query = Query::Change { tree, change };
        match self.look_up(query) {
            Some(Answer::Tree(changed)) => Ok(changed),
            _ => Err(query),
        }
    }

    pub fn change(&self, tree: ContainerTree, change: TreeChange) -> (reply: Result<
        Option<ContainerTree>,
        Question,
    >)
        ensures
            told(reply, self.change_spec(tree, change)),
    {
        let question = Question::Change { tree, change };
        match self.find(&question) {
            Some(Answer::Tree(changed)) => Ok(*changed),
            _ => Err(question),
        }
    }

    /// The tree after `change`, or as it was where the change does not apply.
    pub open spec fn changed_spec(
        self,
        tree: ContainerTree,
        change: TreeChange,
    ) -> Result<ContainerTree, Query> {
        match self.change_spec(tree, change) {
            Ok(Some(changed)) => Ok(changed),
            Ok(None) => Ok(tree),
            Err(query) => Err(query),
        }
    }

    pub fn changed(&self, tree: ContainerTree, change: TreeChange) -> (reply: Result<
        ContainerTree,
        Question,
    >)
        ensures
            told(reply, self.changed_spec(tree, change)),
    {
        match self.change(tree, change) {
            Ok(Some(changed)) => Ok(changed),
            Ok(None) => Ok(tree),
            Err(question) => Err(question),
        }
    }

    pub open spec fn insertion_spec(
        self,
        tree: ContainerTree,
        area: Rect,
        focused: Option<WindowId>,
    ) -> Result<Option<Insertion>, Query> {
        let query = Query::Insertion { tree, area, focused };
        match self.look_up(query) {
            Some(Answer::Insertion(insertion)) => Ok(insertion),
            _ => Err(query),
        }
    }

    pub fn insertion(&self, tree: ContainerTree, area: Rect, focused: Option<WindowId>) -> (reply:
        Result<Option<Insertion>, Question>)
        ensures
            told(reply, self.insertion_spec(tree, area, focused)),
    {
        let question = Question::Insertion { tree, area, focused };
        match self.find(&question) {
            Some(Answer::Insertion(insertion)) => Ok(*insertion),
            _ => Err(question),
        }
    }

    pub open spec fn divider_spec(
        self,
        tree: ContainerTree,
        window_id: WindowId,
        axis: SplitAxis,
        toward: Toward,
    ) -> Result<bool, Query> {
        let query = Query::Divider { tree, window_id, axis, toward };
        match self.look_up(query) {
            Some(Answer::Present(present)) => Ok(present),
            _ => Err(query),
        }
    }

    pub fn divider(&self, tree: ContainerTree, window_id: WindowId, axis: SplitAxis, toward: Toward)
        -> (reply: Result<bool, Question>)
        ensures
            told(reply, self.divider_spec(tree, window_id, axis, toward)),
    {
        let question = Question::Divider { tree, window_id, axis, toward };
        match self.find(&question) {
            Some(Answer::Present(present)) => Ok(*present),
            _ => Err(question),
        }
    }

    pub open spec fn resize_spec(
        self,
        tree: ContainerTree,
        window_id: WindowId,
        axis: SplitAxis,
        toward: Toward,
        points: u32,
    ) -> Result<Option<ResizedTree>, Query> {
        let query = Query::Resize { tree, window_id, axis, toward, points };
        match self.look_up(query) {
            Some(Answer::Resized(resized)) => Ok(resized),
            _ => Err(query),
        }
    }

    pub fn resize(
        &self,
        tree: ContainerTree,
        window_id: WindowId,
        axis: SplitAxis,
        toward: Toward,
        points: u32,
    ) -> (reply: Result<Option<ResizedTree>, Question>)
        ensures
            told(reply, self.resize_spec(tree, window_id, axis, toward, points)),
    {
        let question = Question::Resize { tree, window_id, axis, toward, points };
        match self.find(&question) {
            Some(Answer::Resized(resized)) => Ok(*resized),
            _ => Err(question),
        }
    }

    pub open spec fn plan_spec(
        self,
        tree: ContainerTree,
        area: Rect,
        gaps: Gaps,
        minimums: Seq<MinimumSize>,
    ) -> Result<TreePlan, Query> {
        let query = Query::Plan { tree, area, gaps, minimums };
        match self.look_up(query) {
            Some(Answer::Plan(plan)) => Ok(plan),
            _ => Err(query),
        }
    }

    pub fn plan(&self, tree: ContainerTree, area: Rect, gaps: Gaps, minimums: Vec<MinimumSize>)
        -> (reply: Result<&TreePlan, Question>)
        ensures
            match (reply, self.plan_spec(tree, area, gaps, minimums@)) {
                (Ok(plan), Ok(expected)) => *plan == expected,
                (Err(question), Err(query)) => question@ == query,
                _ => false,
            },
    {
        let question = Question::Plan { tree, area, gaps, minimums };
        match self.find(&question) {
            Some(Answer::Plan(plan)) => Ok(plan),
            _ => Err(question),
        }
    }

    pub open spec fn converted_spec(
        self,
        stored: PersistedTree,
        fates: Seq<LeafFate>,
    ) -> Result<ContainerTree, Query> {
        let query = Query::Convert { stored, fates };
        match self.look_up(query) {
            Some(Answer::Tree(Some(tree))) => Ok(tree),
            _ => Err(query),
        }
    }

    pub fn converted(&self, stored: PersistedTree, fates: Vec<LeafFate>) -> (reply: Result<
        ContainerTree,
        Question,
    >)
        ensures
            told(reply, self.converted_spec(stored, fates@)),
    {
        let question = Question::Convert { stored, fates };
        match self.find(&question) {
            Some(Answer::Tree(Some(tree))) => Ok(*tree),
            _ => Err(question),
        }
    }

    pub open spec fn durable_spec(
        self,
        tree: ContainerTree,
        evidence: Seq<Option<WindowEvidence>>,
    ) -> Result<PersistedTree, Query> {
        let query = Query::Durable { tree, evidence };
        match self.look_up(query) {
            Some(Answer::Stored(stored)) => Ok(stored),
            _ => Err(query),
        }
    }

    pub fn durable(&self, tree: ContainerTree, evidence: Vec<Option<WindowEvidence>>) -> (reply:
        Result<PersistedTree, Question>)
        ensures
            told(reply, self.durable_spec(tree, evidence@)),
    {
        let question = Question::Durable { tree, evidence };
        match self.find(&question) {
            Some(Answer::Stored(stored)) => Ok(*stored),
            _ => Err(question),
        }
    }
}

pub fn copy_displays(displays: &Vec<Display>) -> (copy: Vec<Display>)
    ensures
        copy@ == displays@,
{
    let mut copy: Vec<Display> = Vec::new();
    let mut i: usize = 0;
    while i < displays.len()
        invariant
            i <= displays@.len(),
            copy@ == displays@.take(i as int),
        decreases displays@.len() - i,
    {
        copy.push(displays[i].clone());
        i += 1;
    }
    assert(copy@ =~= displays@);
    copy
}

fn copy_candidates(candidates: &Vec<Candidate>) -> (copy: Vec<Candidate>)
    ensures
        copy@ == candidates@,
{
    let mut copy: Vec<Candidate> = Vec::new();
    let mut i: usize = 0;
    while i < candidates.len()
        invariant
            i <= candidates@.len(),
            copy@ == candidates@.take(i as int),
        decreases candidates@.len() - i,
    {
        copy.push(candidates[i].clone());
        i += 1;
    }
    assert(copy@ =~= candidates@);
    copy
}

impl Clone for Verdict {
    fn clone(&self) -> (copy: Verdict)
        ensures
            copy == *self,
    {
        Verdict {
            manage: self.manage,
            workspace: match &self.workspace {
                Some(request) => Some(request.clone()),
                None => None,
            },
            rule_id: copy_option(&self.rule_id),
        }
    }
}

impl Clone for Candidate {
    fn clone(&self) -> (copy: Candidate)
        ensures
            copy == *self,
    {
        Candidate {
            window: self.window.clone(),
            display_fingerprint: copy_option(&self.display_fingerprint),
            launch_order: self.launch_order,
        }
    }
}

} // verus!
