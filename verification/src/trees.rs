//! Container trees: growing and shrinking each display's tree to match the
//! windows currently tiled there, and writing workspaces out.

use vstd::prelude::*;

verus! {

use crate::answers::{
    told, Answers, Candidate, ContainerTree, DormantPosition, DormantSlot, LeafFate, MinimumSize,
    Occupant, PersistedTree, PlannedPlacement, Query, Question, TreeChange,
};
use crate::arrange::tiling_sets_of;
use crate::geometry::{longer_axis, longer_axis_of, DisplayId, Rect, Size, WindowId};
use crate::parking::{holds, other_than, without};
use crate::placement::reached;
use crate::state::{EngineState, Intent, Listed, Model, PersistenceIntent};
use crate::table::IdSet;
use crate::text::{first_index, lemma_first_hit, same_text};
use crate::topology::{
    collect_display_ids, connected, display_fingerprint_of, display_ids, fingerprint_of,
};
use crate::window::Display;
use crate::workspace::{lemma_filter_step, same_persisted, PersistedWorkspace, Workspace};

impl Model {
    pub open spec fn managed(self) -> spec_fn(WindowId) -> bool {
        |window_id: WindowId| self.inventory.contains_key(window_id.0)
    }

    pub open spec fn candidate(self) -> spec_fn(WindowId) -> Candidate {
        |window_id: WindowId|
            Candidate {
                window: self.inventory[window_id.0].window,
                display_fingerprint: fingerprint_of(
                    self.displays,
                    self.inventory[window_id.0].window.display_id,
                ),
                launch_order: self.launch_order(window_id.0),
            }
    }

    /// The managed ones of `windows`, as the matcher sees them.
    pub open spec fn candidates(self, windows: Seq<WindowId>) -> Seq<Candidate> {
        windows.filter(self.managed()).map_values(self.candidate())
    }

    /// What each leaf from `i` on becomes, each window claimed at most once.
    pub open spec fn fates(
        self,
        a: Answers,
        leaves: Seq<Occupant>,
        open: Seq<Candidate>,
        i: int,
        claimed: Set<isize>,
        done: Seq<LeafFate>,
    ) -> Result<Seq<LeafFate>, Query>
        decreases leaves.len() - i,
    {
        if i >= leaves.len() {
            Ok(done)
        } else {
            let dormant = match leaves[i] {
                Occupant::Live(evidence) => DormantPosition { evidence, since_unix: a.now_unix },
                Occupant::Dormant(dormant) => dormant,
            };
            match a.outcome_spec(dormant.evidence, open) {
                Err(query) => Err(query),
                Ok(outcome) => match outcome.confident() {
                    Some(window_id) => if claimed.contains(window_id.0) {
                        self.fates(
                            a,
                            leaves,
                            open,
                            i + 1,
                            claimed,
                            done.push(LeafFate::Dormant(dormant)),
                        )
                    } else {
                        self.fates(
                            a,
                            leaves,
                            open,
                            i + 1,
                            claimed.insert(window_id.0),
                            done.push(LeafFate::Live(window_id)),
                        )
                    },
                    None => self.fates(
                        a,
                        leaves,
                        open,
                        i + 1,
                        claimed,
                        done.push(LeafFate::Dormant(dormant)),
                    ),
                },
            }
        }
    }

    /// A stored arrangement turned back into a live one. A leaf that cannot
    /// be identified confidently becomes dormant, and no window is claimed by
    /// two leaves.
    #[verifier::opaque]
    pub open spec fn restored_tree(
        self,
        a: Answers,
        stored: PersistedTree,
        active: Seq<WindowId>,
    ) -> Result<ContainerTree, Query> {
        match a.leaves_spec(stored) {
            Err(query) => Err(query),
            Ok(leaves) => match self.fates(
                a,
                leaves,
                self.candidates(active),
                0,
                Set::empty(),
                Seq::empty(),
            ) {
                Err(query) => Err(query),
                Ok(fates) => match a.converted_spec(stored, fates) {
                    Err(query) => Err(query),
                    Ok(tree) => a.changed_spec(
                        tree,
                        TreeChange::PruneDormant { now_unix: a.now_unix },
                    ),
                },
            },
        }
    }

    pub open spec fn stored_for(self, fingerprint: Seq<char>) -> spec_fn(int) -> bool {
        |i: int| self.pending_trees[i].display_fingerprint@ == fingerprint
    }

    /// The stored tree waiting for what `display_id` shows: the displayed
    /// workspace's own, or the display's.
    #[verifier::opaque]
    pub open spec fn waiting_tree(self, display_id: DisplayId) -> Option<PersistedTree> {
        let own = match self.workspaces.displayed_at(display_id) {
            Some(i) => self.workspaces.list[i].pending_tree,
            None => None,
        };
        match own {
            Some(tree) => Some(tree),
            None => match fingerprint_of(self.displays, display_id) {
                Some(fingerprint) => match first_index(
                    self.pending_trees.len(),
                    self.stored_for(fingerprint@),
                ) {
                    Some(i) => Some(self.pending_trees[i].tree),
                    None => None,
                },
                None => None,
            },
        }
    }

    /// That stored tree taken.
    #[verifier::opaque]
    pub open spec fn waiting_tree_taken(self, display_id: DisplayId) -> Model {
        let own = match self.workspaces.displayed_at(display_id) {
            Some(i) => self.workspaces.list[i].pending_tree,
            None => None,
        };
        match own {
            Some(_) => {
                let i = self.workspaces.displayed_at(display_id)->0;
                Model {
                    workspaces: self.workspaces.with(
                        i,
                        Workspace { pending_tree: None, ..self.workspaces.list[i] },
                    ),
                    ..self
                }
            },
            None => match fingerprint_of(self.displays, display_id) {
                Some(fingerprint) => match first_index(
                    self.pending_trees.len(),
                    self.stored_for(fingerprint@),
                ) {
                    Some(i) => Model { pending_trees: self.pending_trees.remove(i), ..self },
                    None => self,
                },
                None => self,
            },
        }
    }

    /// Departed windows from `i` on leave the tree: one that closed leaves
    /// its position dormant, one that is still open simply leaves, and one
    /// nothing could recognise is dropped.
    pub open spec fn shed(
        self,
        a: Answers,
        departed: Seq<WindowId>,
        i: int,
        tree: ContainerTree,
    ) -> Result<(Model, ContainerTree), Query>
        decreases departed.len() - i,
    {
        if i >= departed.len() {
            Ok((self, tree))
        } else {
            let window_id = departed[i];
            let id = window_id.0;
            let change = if self.leaf_evidence.contains_key(id) && !self.inventory.contains_key(
                id,
            ) {
                TreeChange::MakeDormant {
                    window_id,
                    dormant: DormantPosition {
                        evidence: self.leaf_evidence[id],
                        since_unix: a.now_unix,
                    },
                }
            } else {
                TreeChange::Remove { window_id }
            };
            match a.changed_spec(tree, change) {
                Ok(next) => Model { leaf_evidence: self.leaf_evidence.remove(id), ..self }.shed(
                    a,
                    departed,
                    i + 1,
                    next,
                ),
                Err(query) => Err(query),
            }
        }
    }

    /// Dormant slots from `i` on offered to the windows not yet placed. Only
    /// a confident match takes its slot back.
    pub open spec fn reclaimed(
        self,
        a: Answers,
        slots: Seq<DormantSlot>,
        i: int,
        tree: ContainerTree,
        unplaced: Seq<WindowId>,
    ) -> Result<(ContainerTree, Seq<WindowId>), Query>
        decreases slots.len() - i,
    {
        if i >= slots.len() {
            Ok((tree, unplaced))
        } else {
            match a.outcome_spec(slots[i].dormant.evidence, self.candidates(unplaced)) {
                Err(query) => Err(query),
                Ok(outcome) => match outcome.confident() {
                    None => self.reclaimed(a, slots, i + 1, tree, unplaced),
                    Some(window_id) => match a.change_spec(
                        tree,
                        TreeChange::Reclaim { position: slots[i].position, window_id },
                    ) {
                        Err(query) => Err(query),
                        Ok(Some(next)) => self.reclaimed(
                            a,
                            slots,
                            i + 1,
                            next,
                            unplaced.filter(other_than(window_id)),
                        ),
                        Ok(None) => self.reclaimed(a, slots, i + 1, tree, unplaced),
                    },
                },
            }
        }
    }

    /// One new window inserted: first, beside a tree of only dormant slots,
    /// or where the insertion rule puts it.
    pub open spec fn grown_by(
        self,
        a: Answers,
        window_id: WindowId,
        tree: ContainerTree,
        area: Rect,
    ) -> Result<ContainerTree, Query> {
        match a.change_spec(tree, TreeChange::InsertFirst { window_id }) {
            Err(query) => Err(query),
            Ok(Some(next)) => Ok(next),
            Ok(None) => match a.windows_spec(tree) {
                Err(query) => Err(query),
                Ok(windows) => if windows.len() == 0 {
                    a.changed_spec(
                        tree,
                        TreeChange::SplitRoot { axis: longer_axis(area), window_id },
                    )
                } else {
                    match a.insertion_spec(tree, area, self.focused_window) {
                        Err(query) => Err(query),
                        Ok(None) => Ok(tree),
                        Ok(Some(insertion)) => a.changed_spec(
                            tree,
                            TreeChange::SplitLeaf {
                                target: insertion.target,
                                axis: insertion.axis,
                                window_id,
                            },
                        ),
                    }
                },
            },
        }
    }

    pub open spec fn grown(
        self,
        a: Answers,
        windows: Seq<WindowId>,
        i: int,
        tree: ContainerTree,
        area: Rect,
    ) -> Result<ContainerTree, Query>
        decreases windows.len() - i,
    {
        if i >= windows.len() {
            Ok(tree)
        } else {
            match self.grown_by(a, windows[i], tree, area) {
                Ok(next) => self.grown(a, windows, i + 1, next, area),
                Err(query) => Err(query),
            }
        }
    }

    /// What would recognise each window from `i` on, brought up to date.
    pub open spec fn evidence_refreshed(self, windows: Seq<WindowId>, i: int) -> Model
        decreases windows.len() - i,
    {
        if i >= windows.len() {
            self
        } else {
            let next = match self.evidence(windows[i].0) {
                Some(evidence) => Model {
                    leaf_evidence: self.leaf_evidence.insert(windows[i].0, evidence),
                    ..self
                },
                None => self,
            };
            next.evidence_refreshed(windows, i + 1)
        }
    }

    /// The tree noted as written, and written where no workspace stores it,
    /// if it changed since it last was.
    #[verifier::opaque]
    pub open spec fn tree_saved(
        self,
        a: Answers,
        display_id: DisplayId,
        tree: ContainerTree,
    ) -> Result<Model, Query> {
        if self.saved_trees.contains_key(display_id.0) && self.saved_trees[display_id.0] == tree {
            Ok(self)
        } else {
            let saved = Model { saved_trees: self.saved_trees.insert(display_id.0, tree), ..self };
            match (self.workspaces.displayed_on(display_id), fingerprint_of(self.displays, display_id)) {
                (None, Some(display_fingerprint)) => match self.durable(a, tree) {
                    Ok(durable) => Ok(
                        saved.intent(
                            Intent::SaveContainerTree { display_fingerprint, tree: durable },
                        ),
                    ),
                    Err(query) => Err(query),
                },
                _ => Ok(saved),
            }
        }
    }

    pub open spec fn minimum_size(self, id: isize) -> Option<Size> {
        if self.inventory.contains_key(id) {
            self.inventory[id].window.minimum_size
        } else {
            None
        }
    }

    pub open spec fn minimums(self, windows: Seq<WindowId>) -> Seq<MinimumSize> {
        Seq::new(
            windows.len(),
            |i: int| MinimumSize { window_id: windows[i], size: self.minimum_size(windows[i].0) },
        )
    }

    pub open spec fn arranged_as(
        self,
        placements: Seq<PlannedPlacement>,
        i: int,
        display_id: DisplayId,
    ) -> Model
        decreases placements.len() - i,
    {
        if i >= placements.len() {
            self
        } else {
            self.arranged_at(placements[i].window_id, display_id, placements[i].bounds).arranged_as(
                placements,
                i + 1,
                display_id,
            )
        }
    }

    /// `order` without what it lists under `display_id`.
    pub open spec fn off_display(display_id: DisplayId) -> spec_fn(Listed) -> bool {
        |entry: Listed| entry.display_id != display_id
    }

    /// What does not fit on `display_id`, recomputed from scratch.
    pub open spec fn overflowing(self, display_id: DisplayId, overflow: Seq<WindowId>) -> Model {
        Model {
            constraint_overflow: self.constraint_overflow.filter(Model::off_display(display_id))
                + Seq::new(
                overflow.len(),
                |i: int| Listed { display_id, window_id: overflow[i] },
            ),
            ..self
        }
    }

    /// The tree in place, and its windows where its plan puts them.
    #[verifier::opaque]
    pub open spec fn tree_laid_out(
        self,
        a: Answers,
        display: Display,
        tree: ContainerTree,
    ) -> Result<Model, Query> {
        match a.windows_spec(tree) {
            Err(query) => Err(query),
            Ok(windows) => match a.plan_spec(
                tree,
                display.work_area,
                self.config.gaps,
                self.minimums(windows),
            ) {
                Err(query) => Err(query),
                Ok(plan) => Ok(
                    Model { trees: self.trees.insert(display.id.0, tree), ..self }.overflowing(
                        display.id,
                        plan.overflow@,
                    ).arranged_as(plan.placements@, 0, display.id),
                ),
            },
        }
    }

    pub open spec fn not_in(windows: Seq<WindowId>) -> spec_fn(WindowId) -> bool {
        |window_id: WindowId| !windows.contains(window_id)
    }

    /// The tree the reflow of a display starts from, with the stored one
    /// taken where one was waiting.
    pub open spec fn starting_tree(
        self,
        a: Answers,
        display_id: DisplayId,
        active: Seq<WindowId>,
    ) -> Result<ContainerTree, Query> {
        match self.without_tree(display_id).waiting_tree(display_id) {
            Some(stored) => self.lifted(display_id).restored_tree(a, stored, active),
            None => Ok(self.tree_on(display_id)),
        }
    }

    pub open spec fn without_tree(self, display_id: DisplayId) -> Model {
        Model { trees: self.trees.remove(display_id.0), ..self }
    }

    /// The display's tree and any stored tree waiting for it taken out.
    pub open spec fn lifted(self, display_id: DisplayId) -> Model {
        self.without_tree(display_id).waiting_tree_taken(display_id)
    }

    /// The tree after departures, pruning, reclaiming and insertion, and the
    /// state with the evidence of departed windows used up.
    #[verifier::opaque]
    pub open spec fn reshaped(
        self,
        a: Answers,
        tree: ContainerTree,
        active: Seq<WindowId>,
        area: Rect,
    ) -> Result<(Model, ContainerTree), Query> {
        match a.windows_spec(tree) {
            Err(query) => Err(query),
            Ok(present) => match self.shed(a, present.filter(Model::not_in(active)), 0, tree) {
                Err(query) => Err(query),
                Ok((next, shed)) => match a.changed_spec(
                    shed,
                    TreeChange::PruneDormant { now_unix: a.now_unix },
                ) {
                    Err(query) => Err(query),
                    Ok(pruned) => match (a.windows_spec(pruned), a.dormant_spec(pruned)) {
                        (Ok(kept), Ok(slots)) => match next.reclaimed(
                            a,
                            slots,
                            0,
                            pruned,
                            active.filter(Model::not_in(kept)),
                        ) {
                            Err(query) => Err(query),
                            Ok((tree, unplaced)) => match next.grown(a, unplaced, 0, tree, area) {
                                Ok(tree) => Ok((next, tree)),
                                Err(query) => Err(query),
                            },
                        },
                        _ => Err(Query::Shape { tree: pruned }),
                    },
                },
            },
        }
    }

    /// One display's tree reflowed.
    #[verifier::opaque]
    pub open spec fn tree_reflowed(
        self,
        a: Answers,
        display: Display,
        active: Seq<WindowId>,
    ) -> Result<Model, Query> {
        match self.starting_tree(a, display.id, active) {
            Err(query) => Err(query),
            Ok(tree) => match self.lifted(display.id).reshaped(
                a,
                tree,
                active,
                display.work_area,
            ) {
                Err(query) => Err(query),
                Ok((next, tree)) => match a.windows_spec(tree) {
                    Err(query) => Err(query),
                    Ok(windows) => match next.evidence_refreshed(windows, 0).tree_saved(
                        a,
                        display.id,
                        tree,
                    ) {
                        Err(query) => Err(query),
                        Ok(saved) => saved.tree_laid_out(a, display, tree),
                    },
                },
            },
        }
    }

    /// Every display from `i` on reflowed, with the windows that `base` has
    /// active there.
    pub open spec fn trees_reflowed(self, a: Answers, base: Model, i: int) -> Result<Model, Query>
        decreases base.displays.len() - i,
    {
        if i >= base.displays.len() {
            Ok(self)
        } else {
            let display = base.displays[i];
            if self.defers(display.id) {
                self.deferred_for(display.id).trees_reflowed(a, base, i + 1)
            } else {
                match self.tree_reflowed(a, display, base.active_on(display.id)) {
                    Ok(next) => next.trees_reflowed(a, base, i + 1),
                    Err(query) => Err(query),
                }
            }
        }
    }

    pub open spec fn on_connected(self) -> spec_fn(Listed) -> bool {
        |entry: Listed| connected(self.displays, entry.display_id)
    }

    /// Only connected displays have a tree or an overflow.
    pub open spec fn trees_on_connected(self) -> Model {
        Model {
            trees: self.trees.restrict(display_ids(self.displays)),
            constraint_overflow: self.constraint_overflow.filter(self.on_connected()),
            ..self
        }
    }

    /// The durable form of workspace `i` as it stands now.
    #[verifier::opaque]
    pub open spec fn persisted(self, a: Answers, i: int) -> Result<PersistedWorkspace, Query> {
        let workspace = self.workspaces.list[i];
        let live = match workspace.displayed_on {
            Some(display_id) => if self.trees.contains_key(display_id.0) {
                Some(self.trees[display_id.0])
            } else {
                None
            },
            None => workspace.stashed_tree,
        };
        let displayed_fingerprint = match workspace.displayed_on {
            Some(display_id) => fingerprint_of(self.displays, display_id),
            None => None,
        };
        let base = PersistedWorkspace {
            name: workspace.name,
            origin: workspace.origin,
            displayed_fingerprint,
            tree: None,
        };
        match live {
            None => Ok(base),
            Some(tree) => match self.durable(a, tree) {
                Err(query) => Err(query),
                Ok(durable) => match a.leaves_spec(durable) {
                    Err(query) => Err(query),
                    Ok(leaves) => if leaves.len() == 0 {
                        Ok(base)
                    } else {
                        Ok(PersistedWorkspace { tree: Some(durable), ..base })
                    },
                },
            },
        }
    }

    /// Every workspace from `i` on whose durable form changed written out. A
    /// workspace whose stored tree is still waiting is left alone.
    pub open spec fn workspaces_persisted(self, a: Answers, i: int) -> Result<Model, Query>
        decreases self.workspaces.list.len() - i,
    {
        if i < 0 || i >= self.workspaces.list.len() {
            Ok(self)
        } else {
            let workspace = self.workspaces.list[i];
            if workspace.pending_tree is Some {
                self.workspaces_persisted(a, i + 1)
            } else {
                match self.persisted(a, i) {
                    Err(query) => Err(query),
                    Ok(persisted) => {
                        let unchanged = match workspace.saved {
                            Some(saved) => same_persisted(saved, persisted),
                            None => false,
                        };
                        if unchanged {
                            self.workspaces_persisted(a, i + 1)
                        } else {
                            Model {
                                workspaces: self.workspaces.with(
                                    i,
                                    Workspace { saved: Some(persisted), ..workspace },
                                ),
                                ..self
                            }.intent(Intent::SaveWorkspace(persisted)).workspaces_persisted(
                                a,
                                i + 1,
                            )
                        }
                    },
                }
            }
        }
    }

    /// Evidence is only ever needed for a window that could still close.
    pub open spec fn evidence_kept(self) -> Model {
        Model { leaf_evidence: self.leaf_evidence.restrict(self.inventory.dom()), ..self }
    }

    pub open spec fn treed(self, a: Answers) -> Result<Model, Query> {
        if !self.tiling_active || self.paused {
            Ok(self)
        } else {
            let base = self.trees_on_connected().refreshed();
            match base.trees_reflowed(a, base, 0) {
                Ok(next) => next.evidence_kept().workspaces_persisted(a, 0),
                Err(query) => Err(query),
            }
        }
    }
}

impl EngineState {
    /// The managed ones of `windows`, as the matcher sees them.
    pub fn candidates_among(&self, windows: &Vec<WindowId>) -> (candidates: Vec<Candidate>)
        ensures
            candidates@ == self@.candidates(windows@),
    {
        let ghost pred = self@.managed();
        let ghost as_candidate = self@.candidate();
        let mut candidates: Vec<Candidate> = Vec::new();
        let mut i: usize = 0;
        while i < windows.len()
            invariant
                i <= windows@.len(),
                pred == self@.managed(),
                as_candidate == self@.candidate(),
                candidates@ == windows@.take(i as int).filter(pred).map_values(as_candidate),
            decreases windows@.len() - i,
        {
            let window_id = windows[i];
            proof {
                lemma_filter_step(windows@, i as int, pred);
            }
            match self.inventory.get(window_id.0) {
                Some(managed) => {
                    let candidate = Candidate {
                        window: managed.window.clone(),
                        display_fingerprint: display_fingerprint_of(
                            &self.displays,
                            managed.window.display_id,
                        ),
                        launch_order: self.launch_order_of(window_id),
                    };
                    candidates.push(candidate);
                    proof {
                        let shorter = windows@.take(i as int).filter(pred);
                        assert(shorter.push(window_id).map_values(as_candidate)
                            =~= shorter.map_values(as_candidate).push(as_candidate(window_id)));
                    }
                },
                None => {},
            }
            i += 1;
        }
        assert(windows@.take(windows@.len() as int) =~= windows@);
        candidates
    }

    #[verifier::loop_isolation(false)]
    fn leaf_fates(&self, a: &Answers, leaves: &Vec<Occupant>, open: &Vec<Candidate>) -> (reply:
        Result<Vec<LeafFate>, Question>)
        ensures
            match (reply, self@.fates(*a, leaves@, open@, 0, Set::empty(), Seq::empty())) {
                (Ok(fates), Ok(expected)) => fates@ == expected,
                (Err(question), Err(query)) => question@ == query,
                _ => false,
            },
    {
        let ghost total = self@.fates(*a, leaves@, open@, 0, Set::empty(), Seq::empty());
        let mut claimed = IdSet::new();
        let mut fates: Vec<LeafFate> = Vec::new();
        let mut i: usize = 0;
        while i < leaves.len()
            invariant
                i <= leaves@.len(),
                total == self@.fates(*a, leaves@, open@, 0, Set::empty(), Seq::empty()),
                self@.fates(*a, leaves@, open@, i as int, claimed@, fates@) == total,
            decreases leaves@.len() - i,
        {
            let dormant = match &leaves[i] {
                Occupant::Live(evidence) => DormantPosition {
                    evidence: evidence.clone(),
                    since_unix: a.now_unix,
                },
                Occupant::Dormant(dormant) => dormant.clone(),
            };
            match a.outcome(&dormant.evidence, open) {
                Ok(outcome) => match outcome.confident_window() {
                    Some(window_id) => {
                        if claimed.contains(window_id.0) {
                            fates.push(LeafFate::Dormant(dormant));
                        } else {
                            claimed.insert(window_id.0);
                            fates.push(LeafFate::Live(window_id));
                        }
                    },
                    None => {
                        fates.push(LeafFate::Dormant(dormant));
                    },
                },
                Err(question) => {
                    return Err(question);
                },
            }
            i += 1;
        }
        Ok(fates)
    }

    /// Turns a stored arrangement back into a live one.
    pub fn restore_tree(&self, a: &Answers, stored: PersistedTree, active: &Vec<WindowId>)
        -> (reply: Result<ContainerTree, Question>)
        ensures
            told(reply, self@.restored_tree(*a, stored, active@)),
    {
        proof {
            reveal(Model::restored_tree);
        }
        let open = self.candidates_among(active);
        match a.leaves(stored) {
            Ok(leaves) => match self.leaf_fates(a, leaves, &open) {
                Ok(fates) => match a.converted(stored, fates) {
                    Ok(tree) => a.changed(tree, TreeChange::PruneDormant { now_unix: a.now_unix }),
                    Err(question) => Err(question),
                },
                Err(question) => Err(question),
            },
            Err(question) => Err(question),
        }
    }

    /// Takes the stored tree waiting for what the display shows.
    #[verifier::loop_isolation(false)]
    fn take_waiting_tree(&mut self, display_id: DisplayId) -> (stored: Option<PersistedTree>)
        ensures
            stored == old(self)@.waiting_tree(display_id),
            final(self)@ == old(self)@.waiting_tree_taken(display_id),
    {
        proof {
            reveal(Model::waiting_tree);
            reveal(Model::waiting_tree_taken);
        }
        match self.workspaces.displayed_at(display_id) {
            Some(i) => {
                let mut workspace = self.workspaces.at(i).clone();
                match workspace.pending_tree {
                    Some(tree) => {
                        workspace.pending_tree = None;
                        self.workspaces.set(i, workspace);
                        return Some(tree);
                    },
                    None => {},
                }
            },
            None => {},
        }
        match display_fingerprint_of(&self.displays, display_id) {
            Some(fingerprint) => {
                let mut i: usize = 0;
                while i < self.pending_trees.len()
                    invariant
                        i <= self.pending_trees@.len(),
                        *self == *old(self),
                        first_index(i as nat, self@.stored_for(fingerprint@)) is None,
                    decreases self.pending_trees@.len() - i,
                {
                    if same_text(&self.pending_trees[i].display_fingerprint, &fingerprint) {
                        proof {
                            assert(self@.stored_for(fingerprint@)(i as int));
                            lemma_first_hit(
                                self@.pending_trees.len(),
                                self@.stored_for(fingerprint@),
                                i as int,
                            );
                        }
                        let stored = self.pending_trees.remove(i);
                        return Some(stored.tree);
                    }
                    assert(!self@.stored_for(fingerprint@)(i as int));
                    i += 1;
                }
                None
            },
            None => None,
        }
    }

    #[verifier::loop_isolation(false)]
    fn shed_departed(&mut self, a: &Answers, departed: &Vec<WindowId>, tree: ContainerTree)
        -> (reply: Result<ContainerTree, Question>)
        ensures
            match (reply, old(self)@.shed(*a, departed@, 0, tree)) {
                (Ok(left), Ok((model, expected))) => left == expected && final(self)@ == model,
                (Err(question), Err(query)) => question@ == query,
                _ => false,
            },
    {
        let ghost total = self@.shed(*a, departed@, 0, tree);
        let mut tree = tree;
        let mut i: usize = 0;
        while i < departed.len()
            invariant
                i <= departed@.len(),
                self@.shed(*a, departed@, i as int, tree) == total,
            decreases departed@.len() - i,
        {
            let window_id = departed[i];
            let managed = self.inventory.contains_key(window_id.0);
            let evidence = self.leaf_evidence.remove(window_id.0);
            let change = match evidence {
                Some(evidence) => {
                    if !managed {
                        TreeChange::MakeDormant {
                            window_id,
                            dormant: DormantPosition { evidence, since_unix: a.now_unix },
                        }
                    } else {
                        TreeChange::Remove { window_id }
                    }
                },
                None => TreeChange::Remove { window_id },
            };
            match a.changed(tree, change) {
                Ok(next) => {
                    tree = next;
                },
                Err(question) => {
                    return Err(question);
                },
            }
            i += 1;
        }
        Ok(tree)
    }

    #[verifier::loop_isolation(false)]
    fn reclaim_slots(
        &self,
        a: &Answers,
        slots: &Vec<DormantSlot>,
        tree: ContainerTree,
        unplaced: Vec<WindowId>,
    ) -> (reply: Result<(ContainerTree, Vec<WindowId>), Question>)
        ensures
            match (reply, self@.reclaimed(*a, slots@, 0, tree, unplaced@)) {
                (Ok((left, windows)), Ok((expected, remaining))) => left == expected && windows@
                    == remaining,
                (Err(question), Err(query)) => question@ == query,
                _ => false,
            },
    {
        let ghost total = self@.reclaimed(*a, slots@, 0, tree, unplaced@);
        let mut tree = tree;
        let mut unplaced = unplaced;
        let mut i: usize = 0;
        while i < slots.len()
            invariant
                i <= slots@.len(),
                self@.reclaimed(*a, slots@, i as int, tree, unplaced@) == total,
            decreases slots@.len() - i,
        {
            let candidates = self.candidates_among(&unplaced);
            match a.outcome(&slots[i].dormant.evidence, &candidates) {
                Ok(outcome) => match outcome.confident_window() {
                    Some(window_id) => {
                        match a.change(
                            tree,
                            TreeChange::Reclaim { position: slots[i].position, window_id },
                        ) {
                            Ok(Some(next)) => {
                                tree = next;
                                unplaced = without(&unplaced, window_id);
                            },
                            Ok(None) => {},
                            Err(question) => {
                                return Err(question);
                            },
                        }
                    },
                    None => {},
                },
                Err(question) => {
                    return Err(question);
                },
            }
            i += 1;
        }
        Ok((tree, unplaced))
    }

    fn grow_by(&self, a: &Answers, window_id: WindowId, tree: ContainerTree, area: Rect) -> (reply:
        Result<ContainerTree, Question>)
        ensures
            told(reply, self@.grown_by(*a, window_id, tree, area)),
    {
        match a.change(tree, TreeChange::InsertFirst { window_id }) {
            Err(question) => Err(question),
            Ok(Some(next)) => Ok(next),
            Ok(None) => match a.windows(tree) {
                Err(question) => Err(question),
                Ok(windows) => {
                    if windows.len() == 0 {
                        return a.changed(
                            tree,
                            TreeChange::SplitRoot { axis: longer_axis_of(area), window_id },
                        );
                    }
                    match a.insertion(tree, area, self.focused_window) {
                        Err(question) => Err(question),
                        Ok(None) => Ok(tree),
                        Ok(Some(insertion)) => a.changed(
                            tree,
                            TreeChange::SplitLeaf {
                                target: insertion.target,
                                axis: insertion.axis,
                                window_id,
                            },
                        ),
                    }
                },
            },
        }
    }

    #[verifier::loop_isolation(false)]
    fn grow(&self, a: &Answers, windows: &Vec<WindowId>, tree: ContainerTree, area: Rect) -> (reply:
        Result<ContainerTree, Question>)
        ensures
            told(reply, self@.grown(*a, windows@, 0, tree, area)),
    {
        let ghost total = self@.grown(*a, windows@, 0, tree, area);
        let mut tree = tree;
        let mut i: usize = 0;
        while i < windows.len()
            invariant
                i <= windows@.len(),
                self@.grown(*a, windows@, i as int, tree, area) == total,
            decreases windows@.len() - i,
        {
            match self.grow_by(a, windows[i], tree, area) {
                Ok(next) => {
                    tree = next;
                },
                Err(question) => {
                    return Err(question);
                },
            }
            i += 1;
        }
        Ok(tree)
    }

    fn refresh_evidence(&mut self, windows: &Vec<WindowId>)
        ensures
            final(self)@ == old(self)@.evidence_refreshed(windows@, 0),
    {
        let ghost total = self@.evidence_refreshed(windows@, 0);
        let mut i: usize = 0;
        while i < windows.len()
            invariant
                i <= windows@.len(),
                self@.evidence_refreshed(windows@, i as int) == total,
            decreases windows@.len() - i,
        {
            match self.evidence_for(windows[i]) {
                Some(evidence) => {
                    self.leaf_evidence.insert(windows[i].0, evidence);
                },
                None => {},
            }
            i += 1;
        }
    }

    fn save_tree(&mut self, a: &Answers, display_id: DisplayId, tree: ContainerTree) -> (reply:
        Result<(), Question>)
        ensures
            reached(reply, final(self)@, old(self)@.tree_saved(*a, display_id, tree)),
    {
        proof {
            reveal(Model::tree_saved);
        }
        let unchanged = match self.saved_trees.get(display_id.0) {
            Some(saved) => *saved == tree,
            None => false,
        };
        if unchanged {
            return Ok(());
        }
        let stored_with_workspace = self.workspaces.displayed_at(display_id).is_some();
        if !stored_with_workspace {
            match display_fingerprint_of(&self.displays, display_id) {
                Some(display_fingerprint) => match self.durable_tree(a, tree) {
                    Ok(durable) => {
                        self.record(
                            PersistenceIntent::SaveContainerTree {
                                display_fingerprint,
                                tree: durable,
                            },
                        );
                    },
                    Err(question) => {
                        return Err(question);
                    },
                },
                None => {},
            }
        }
        self.saved_trees.insert(display_id.0, tree);
        Ok(())
    }

    pub fn minimum_sizes(&self, windows: &Vec<WindowId>) -> (minimums: Vec<MinimumSize>)
        ensures
            minimums@ == self@.minimums(windows@),
    {
        let mut minimums: Vec<MinimumSize> = Vec::new();
        let mut i: usize = 0;
        while i < windows.len()
            invariant
                i <= windows@.len(),
                minimums@ == self@.minimums(windows@).take(i as int),
            decreases windows@.len() - i,
        {
            let size = match self.inventory.get(windows[i].0) {
                Some(managed) => managed.window.minimum_size,
                None => None,
            };
            minimums.push(MinimumSize { window_id: windows[i], size });
            i += 1;
        }
        assert(minimums@ =~= self@.minimums(windows@));
        minimums
    }

    fn set_overflow(&mut self, display_id: DisplayId, overflow: &Vec<WindowId>)
        ensures
            final(self)@ == old(self)@.overflowing(display_id, overflow@),
    {
        let mut next = crate::assign::off_display_only(&self.constraint_overflow, display_id);
        let ghost kept = next@;
        let ghost added = Seq::new(
            overflow@.len(),
            |i: int| Listed { display_id, window_id: overflow@[i] },
        );
        let mut i: usize = 0;
        while i < overflow.len()
            invariant
                i <= overflow@.len(),
                *self == *old(self),
                added == Seq::new(
                    overflow@.len(),
                    |i: int| Listed { display_id, window_id: overflow@[i] },
                ),
                next@ == kept + added.take(i as int),
            decreases overflow@.len() - i,
        {
            next.push(Listed { display_id, window_id: overflow[i] });
            assert(next@ =~= kept + added.take(i + 1));
            i += 1;
        }
        assert(added.take(added.len() as int) =~= added);
        self.constraint_overflow = next;
        assert(self@.constraint_overflow =~= old(self)@.overflowing(
            display_id,
            overflow@,
        ).constraint_overflow);
    }

    fn arrange_as(&mut self, placements: &Vec<PlannedPlacement>, display_id: DisplayId)
        ensures
            final(self)@ == old(self)@.arranged_as(placements@, 0, display_id),
    {
        let ghost total = self@.arranged_as(placements@, 0, display_id);
        let mut i: usize = 0;
        while i < placements.len()
            invariant
                i <= placements@.len(),
                self@.arranged_as(placements@, i as int, display_id) == total,
            decreases placements@.len() - i,
        {
            self.arrange_at(placements[i].window_id, display_id, placements[i].bounds);
            i += 1;
        }
    }

    fn lay_out_tree(&mut self, a: &Answers, display: &Display, tree: ContainerTree) -> (reply:
        Result<(), Question>)
        ensures
            reached(reply, final(self)@, old(self)@.tree_laid_out(*a, *display, tree)),
    {
        proof {
            reveal(Model::tree_laid_out);
        }
        let windows = match a.windows(tree) {
            Ok(windows) => windows,
            Err(question) => {
                return Err(question);
            },
        };
        let minimums = self.minimum_sizes(windows);
        match a.plan(tree, display.work_area, self.resolved_config.gaps, minimums) {
            Ok(plan) => {
                self.trees.insert(display.id.0, tree);
                self.set_overflow(display.id, &plan.overflow);
                self.arrange_as(&plan.placements, display.id);
                Ok(())
            },
            Err(question) => Err(question),
        }
    }

    fn reshape(&mut self, a: &Answers, tree: ContainerTree, active: &Vec<WindowId>, area: Rect)
        -> (reply: Result<ContainerTree, Question>)
        ensures
            match (reply, old(self)@.reshaped(*a, tree, active@, area)) {
                (Ok(left), Ok((model, expected))) => left == expected && final(self)@ == model,
                (Err(question), Err(query)) => question@ == query,
                _ => false,
            },
    {
        proof {
            reveal(Model::reshaped);
        }
        let departed = match a.windows(tree) {
            Ok(present) => absent(present, active),
            Err(question) => {
                return Err(question);
            },
        };
        let shed = match self.shed_departed(a, &departed, tree) {
            Ok(shed) => shed,
            Err(question) => {
                return Err(question);
            },
        };
        let pruned = match a.changed(shed, TreeChange::PruneDormant { now_unix: a.now_unix }) {
            Ok(pruned) => pruned,
            Err(question) => {
                return Err(question);
            },
        };
        let unplaced = match a.windows(pruned) {
            Ok(kept) => absent(active, kept),
            Err(question) => {
                return Err(question);
            },
        };
        let slots = match a.dormant(pruned) {
            Ok(slots) => slots,
            Err(question) => {
                return Err(question);
            },
        };
        match self.reclaim_slots(a, slots, pruned, unplaced) {
            Ok((tree, unplaced)) => self.grow(a, &unplaced, tree, area),
            Err(question) => Err(question),
        }
    }

    fn reflow_tree(&mut self, a: &Answers, display: &Display, active: &Vec<WindowId>) -> (reply:
        Result<(), Question>)
        ensures
            reached(reply, final(self)@, old(self)@.tree_reflowed(*a, *display, active@)),
    {
        proof {
            reveal(Model::tree_reflowed);
        }
        let current = self.tree_of(display.id);
        self.trees.remove(display.id.0);
        let waiting = self.take_waiting_tree(display.id);
        assert(self@ == old(self)@.lifted(display.id));
        let tree = match waiting {
            Some(stored) => match self.restore_tree(a, stored, active) {
                Ok(tree) => tree,
                Err(question) => {
                    return Err(question);
                },
            },
            None => current,
        };
        let tree = match self.reshape(a, tree, active, display.work_area) {
            Ok(tree) => tree,
            Err(question) => {
                return Err(question);
            },
        };
        match a.windows(tree) {
            Ok(windows) => {
                self.refresh_evidence(windows);
            },
            Err(question) => {
                return Err(question);
            },
        }
        match self.save_tree(a, display.id, tree) {
            Ok(_) => {},
            Err(question) => {
                return Err(question);
            },
        }
        self.lay_out_tree(a, display, tree)
    }

    fn keep_connected_trees(&mut self)
        ensures
            final(self)@ == old(self)@.trees_on_connected(),
    {
        let live = collect_display_ids(&self.displays);
        self.trees.retain(&live);
        let ghost pred = self@.on_connected();
        let ghost all = self.constraint_overflow@;
        let mut next: Vec<Listed> = Vec::new();
        let mut i: usize = 0;
        while i < self.constraint_overflow.len()
            invariant
                i <= self.constraint_overflow@.len(),
                all == self.constraint_overflow@,
                pred == self@.on_connected(),
                live@ == display_ids(self.displays@),
                self@ == (Model {
                    trees: old(self)@.trees.restrict(display_ids(old(self)@.displays)),
                    ..old(self)@
                }),
                next@ == all.take(i as int).filter(pred),
            decreases self.constraint_overflow@.len() - i,
        {
            proof {
                lemma_filter_step(all, i as int, pred);
            }
            if live.contains(self.constraint_overflow[i].display_id.0) {
                next.push(self.constraint_overflow[i]);
            }
            i += 1;
        }
        assert(all.take(all.len() as int) =~= all);
        assert(pred =~= old(self)@.on_connected());
        self.constraint_overflow = next;
    }

    /// Reflows every display's container tree.
    ///
    /// The tree is reconciled against the active set rather than mutated by
    /// each event that could affect it, so a window that closed while the
    /// agent was not running takes the same path as one that closed just now.
    pub fn reconcile_container_trees(&mut self, a: &Answers) -> (reply: Result<(), Question>)
        ensures
            reached(reply, final(self)@, old(self)@.treed(*a)),
    {
        if !self.automatic_tiling_active || self.paused {
            return Ok(());
        }
        self.keep_connected_trees();
        let sets = self.refresh_tiling_sets();
        let displays = crate::answers::copy_displays(&self.displays);
        let ghost base = self@;
        let ghost total = base.trees_reflowed(*a, base, 0);
        let mut i: usize = 0;
        while i < sets.len()
            invariant
                i <= sets@.len(),
                tiling_sets_of(base, sets@),
                displays@ == base.displays,
                total == base.trees_reflowed(*a, base, 0),
                base == old(self)@.trees_on_connected().refreshed(),
                old(self)@.tiling_active && !old(self)@.paused,
                self@.trees_reflowed(*a, base, i as int) == total,
            decreases sets@.len() - i,
        {
            assert(sets@[i as int].display_id == base.displays[i as int].id);
            if !self.defer_reflow(sets[i].display_id) {
                match self.reflow_tree(a, &displays[i], &sets[i].windows) {
                    Ok(_) => {},
                    Err(question) => {
                        return Err(question);
                    },
                }
            }
            i += 1;
        }
        let managed = self.inventory.ids();
        self.leaf_evidence.retain(&managed);
        self.persist_workspaces(a)
    }

    fn persisted_workspace(&self, a: &Answers, i: usize) -> (reply: Result<
        PersistedWorkspace,
        Question,
    >)
        requires
            i < self@.workspaces.list.len(),
        ensures
            told(reply, self@.persisted(*a, i as int)),
    {
        proof {
            reveal(Model::persisted);
        }
        let workspace = self.workspaces.at(i);
        let live = match workspace.displayed_on {
            Some(display_id) => match self.trees.get(display_id.0) {
                Some(tree) => Some(*tree),
                None => None,
            },
            None => workspace.stashed_tree,
        };
        let displayed_fingerprint = match workspace.displayed_on {
            Some(display_id) => display_fingerprint_of(&self.displays, display_id),
            None => None,
        };
        let tree = match live {
            Some(tree) => match self.durable_tree(a, tree) {
                Ok(durable) => match a.leaves(durable) {
                    Ok(leaves) => if leaves.len() == 0 {
                        None
                    } else {
                        Some(durable)
                    },
                    Err(question) => {
                        return Err(question);
                    },
                },
                Err(question) => {
                    return Err(question);
                },
            },
            None => None,
        };
        Ok(
            PersistedWorkspace {
                name: workspace.name.clone(),
                origin: workspace.origin,
                displayed_fingerprint,
                tree,
            },
        )
    }

    /// Writes every workspace whose durable form changed since it was last
    /// written.
    pub fn persist_workspaces(&mut self, a: &Answers) -> (reply: Result<(), Question>)
        ensures
            reached(reply, final(self)@, old(self)@.workspaces_persisted(*a, 0)),
    {
        let ghost total = self@.workspaces_persisted(*a, 0);
        let mut i: usize = 0;
        while i < self.workspaces.len()
            invariant
                i <= self@.workspaces.list.len(),
                total == old(self)@.workspaces_persisted(*a, 0),
                self@.workspaces_persisted(*a, i as int) == total,
            decreases self@.workspaces.list.len() - i,
        {
            if self.workspaces.at(i).pending_tree.is_none() {
                let persisted = match self.persisted_workspace(a, i) {
                    Ok(persisted) => persisted,
                    Err(question) => {
                        return Err(question);
                    },
                };
                let unchanged = match &self.workspaces.at(i).saved {
                    Some(saved) => saved.same(&persisted),
                    None => false,
                };
                if !unchanged {
                    let mut workspace = self.workspaces.at(i).clone();
                    workspace.saved = Some(persisted.clone());
                    self.workspaces.set(i, workspace);
                    self.record(PersistenceIntent::SaveWorkspace(persisted));
                }
            }
            i += 1;
        }
        Ok(())
    }
}

/// Those of `windows` that `others` does not list.
pub fn absent(windows: &Vec<WindowId>, others: &Vec<WindowId>) -> (left: Vec<WindowId>)
    ensures
        left@ == windows@.filter(Model::not_in(others@)),
{
    let ghost pred = Model::not_in(others@);
    let mut left: Vec<WindowId> = Vec::new();
    let mut i: usize = 0;
    while i < windows.len()
        invariant
            i <= windows@.len(),
            pred == Model::not_in(others@),
            left@ == windows@.take(i as int).filter(pred),
        decreases windows@.len() - i,
    {
        proof {
            lemma_filter_step(windows@, i as int, pred);
        }
        if !holds(others, windows[i]) {
            left.push(windows[i]);
        }
        i += 1;
    }
    assert(windows@.take(windows@.len() as int) =~= windows@);
    left
}

} // verus!
