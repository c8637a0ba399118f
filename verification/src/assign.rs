//! Which workspace is displayed where, and which window belongs to which.

use vstd::prelude::*;

verus! {

use crate::answers::{Answers, Query, Question};
use crate::config::{DisplayMapping, TilingMode};
use crate::geometry::DisplayId;
use crate::name::{collides, WorkspaceName};
use crate::outcome::WorkspaceSwitchingUnavailable;
use crate::placement::reached;
use crate::ranking::{ordered, sort_ranked, Ranked};
use crate::state::{EngineState, Listed, Model};
use crate::table::{sorted, Table};
use crate::text::{first_index, lemma_first_hit, same_text};
use crate::topology::{
    collect_display_ids, connected, display_at, display_id_of, display_ids, find_display, id_of,
    is_connected,
};
use crate::window::Display;
use crate::workspace::{lemma_filter_step, Pool, Workspace, WorkspaceOrigin};

impl Model {
    /// Every display's windows arranged the way configuration selects.
    #[verifier::opaque]
    pub open spec fn arranged(self, a: Answers) -> Result<Model, Query> {
        match self.config.tiling_mode {
            TilingMode::Balanced => self.balanced(a),
            TilingMode::Tree => self.treed(a),
        }
    }

    /// What is kept per display about its arrangement dropped, and its live
    /// tree moved into the workspace displayed there.
    pub open spec fn tree_stashed(self, display_id: DisplayId) -> Model {
        let tree = if self.trees.contains_key(display_id.0) {
            Some(self.trees[display_id.0])
        } else {
            None
        };
        Model {
            trees: self.trees.remove(display_id.0),
            saved_trees: self.saved_trees.remove(display_id.0),
            constraint_overflow: self.constraint_overflow.filter(Model::off_display(display_id)),
            order: self.order.filter(Model::off_display(display_id)),
            workspaces: match self.workspaces.displayed_at(display_id) {
                Some(i) => self.workspaces.with(
                    i,
                    Workspace { stashed_tree: tree, ..self.workspaces.list[i] },
                ),
                None => self.workspaces,
            },
            ..self
        }
    }

    /// Workspace `i`'s stashed tree made the display's live one.
    pub open spec fn tree_adopted(self, i: int, display_id: DisplayId) -> Model {
        Model {
            workspaces: self.workspaces.with(
                i,
                Workspace { stashed_tree: None, ..self.workspaces.list[i] },
            ),
            saved_trees: self.saved_trees.remove(display_id.0),
            constraint_overflow: self.constraint_overflow.filter(Model::off_display(display_id)),
            trees: match self.workspaces.list[i].stashed_tree {
                Some(tree) => self.trees.insert(display_id.0, tree),
                None => self.trees.remove(display_id.0),
            },
            ..self
        }
    }

    /// Workspace `i` displayed on `display_id`, with its tree.
    pub open spec fn workspace_shown(self, i: int, display_id: DisplayId) -> Model {
        Model { workspaces: self.workspaces.displaying(i, display_id), ..self }.tree_adopted(
            i,
            display_id,
        )
    }

    /// The workspace a managed window without one gains: the one displayed
    /// where it sits.
    pub open spec fn gained(self, id: isize) -> Option<WorkspaceName> {
        if self.inventory.contains_key(id) && !self.workspaces.members.contains_key(id) {
            self.workspaces.displayed_on(self.inventory[id].window.display_id)
        } else {
            None
        }
    }

    /// Every managed window that belongs to no workspace given the workspace
    /// displayed where it sits, if that display has one.
    #[verifier::opaque]
    pub open spec fn unassigned_assigned(self) -> Model {
        Model {
            workspaces: Pool {
                members: Map::new(
                    |id: isize| self.workspaces.members.contains_key(id) || self.gained(id) is Some,
                    |id: isize|
                        if self.workspaces.members.contains_key(id) {
                            self.workspaces.members[id]
                        } else {
                            self.gained(id)->0
                        },
                ),
                ..self.workspaces
            },
            ..self
        }
    }

    /// Every declared name from `i` on present and owned by configuration.
    pub open spec fn declared_from(self, names: Seq<WorkspaceName>, i: int) -> Model
        decreases names.len() - i,
    {
        if i >= names.len() {
            self
        } else {
            let workspaces = match self.workspaces.find(names[i]) {
                Some(at) => self.workspaces.with(
                    at,
                    Workspace {
                        origin: WorkspaceOrigin::Configuration,
                        ..self.workspaces.list[at]
                    },
                ),
                None => self.workspaces.created(names[i], WorkspaceOrigin::Configuration),
            };
            Model { workspaces, ..self }.declared_from(names, i + 1)
        }
    }

    /// Every workspace none of `names` spells owned by command.
    pub open spec fn undeclared_released(self, names: Seq<WorkspaceName>) -> Model {
        Model {
            workspaces: Pool {
                list: Seq::new(
                    self.workspaces.list.len(),
                    |j: int|
                        if spelled_in(names, self.workspaces.list[j].name) {
                            self.workspaces.list[j]
                        } else {
                            Workspace {
                                origin: WorkspaceOrigin::Command,
                                ..self.workspaces.list[j]
                            }
                        },
                ),
                ..self.workspaces
            },
            ..self
        }
    }

    /// The pool brought up to date with what configuration declares. Nothing
    /// is ever deleted by this.
    #[verifier::opaque]
    pub open spec fn pool_synced(self) -> Model {
        self.declared_from(self.config.workspaces, 0).undeclared_released(self.config.workspaces)
    }

    pub open spec fn remembers(self, fingerprint: Seq<char>) -> spec_fn(int) -> bool {
        |i: int|
            self.workspaces.list[i].displayed_on is None && (
            self.workspaces.list[i].pending_display matches Some(stored) && stored@ == fingerprint)
    }

    /// A hidden workspace that owns no window.
    pub open spec fn vacant(self, i: int) -> bool {
        self.workspaces.list[i].displayed_on is None && self.workspaces.members_of(
            self.workspaces.list[i].name,
        ).len() == 0
    }

    pub open spec fn vacant_spelled(self, name: WorkspaceName) -> spec_fn(int) -> bool {
        |i: int| self.vacant(i) && collides(self.workspaces.list[i].name, name)
    }

    pub open spec fn any_vacant(self) -> spec_fn(int) -> bool {
        |i: int| self.vacant(i)
    }

    /// The first vacant workspace in the order configuration declares, from
    /// its name `k` on, and failing that the first in name order.
    pub open spec fn first_vacant(self, k: int) -> Option<int>
        decreases self.config.workspaces.len() - k,
    {
        let n = self.workspaces.list.len();
        if k < 0 || k >= self.config.workspaces.len() {
            first_index(n, self.any_vacant())
        } else {
            match first_index(n, self.vacant_spelled(self.config.workspaces[k])) {
                Some(i) => Some(i),
                None => self.first_vacant(k + 1),
            }
        }
    }

    /// The workspace an empty display is given: the one that was there when
    /// last written, or the first vacant one.
    pub open spec fn chosen_for(self, fingerprint: Seq<char>) -> Option<int> {
        match first_index(self.workspaces.list.len(), self.remembers(fingerprint)) {
            Some(i) => Some(i),
            None => self.first_vacant(0),
        }
    }

    /// One display given a workspace, if it has none and one can be chosen.
    pub open spec fn display_filled(self, display: Display) -> Model {
        if self.workspaces.displayed_at(display.id) is Some {
            self
        } else {
            match self.chosen_for(display.stable_fingerprint@) {
                Some(i) => Model {
                    workspaces: self.workspaces.with(
                        i,
                        Workspace { pending_display: None, ..self.workspaces.list[i] },
                    ),
                    ..self
                }.workspace_shown(i, display.id),
                None => self,
            }
        }
    }

    pub open spec fn display_ranks(self) -> Seq<Ranked> {
        self.displays.map_values(
            |display: Display|
                Ranked {
                    first: if display.is_primary {
                        0
                    } else {
                        1
                    },
                    second: 0,
                    third: 0,
                    id: display.id.0,
                },
        )
    }

    pub open spec fn displays_filled_from(self, line: Seq<Ranked>, i: int) -> Model
        decreases line.len() - i,
    {
        if i >= line.len() {
            self
        } else {
            let next = match display_at(self.displays, DisplayId(line[i].id)) {
                Some(at) => self.display_filled(self.displays[at]),
                None => self,
            };
            next.displays_filled_from(line, i + 1)
        }
    }

    /// Every display without a workspace given one, primary displays first,
    /// as far as the pool has one to give.
    #[verifier::opaque]
    pub open spec fn displays_filled(self) -> Model {
        self.displays_filled_from(ordered(self.display_ranks().to_set()), 0)
    }

    /// Where every entry from `i` on puts its workspace, or the first reason
    /// one cannot be resolved.
    pub open spec fn mapping_resolved(
        self,
        entries: Seq<DisplayMapping>,
        i: int,
        done: Map<isize, int>,
    ) -> Result<Map<isize, int>, WorkspaceSwitchingUnavailable>
        decreases entries.len() - i,
    {
        if i >= entries.len() {
            Ok(done)
        } else {
            match id_of(self.displays, entries[i].display_fingerprint@) {
                None => Err(
                    WorkspaceSwitchingUnavailable::DisplayNotConnected {
                        display_fingerprint: entries[i].display_fingerprint,
                    },
                ),
                Some(display_id) => match self.workspaces.find(entries[i].workspace) {
                    None => Err(
                        WorkspaceSwitchingUnavailable::UnknownWorkspace {
                            name: entries[i].workspace.text,
                        },
                    ),
                    Some(at) => self.mapping_resolved(
                        entries,
                        i + 1,
                        done.insert(display_id.0, at),
                    ),
                },
            }
        }
    }

    pub open spec fn unmapped(self, target: Map<isize, int>) -> spec_fn(int) -> bool {
        |i: int| !target.contains_key(self.displays[i].id.0)
    }

    /// Whether what is displayed is exactly the mapping.
    pub open spec fn mapping_holds(self, target: Map<isize, int>) -> bool {
        &&& forall|d: isize| #[trigger]
            target.contains_key(d) ==> self.workspaces.list[target[d]].displayed_on == Some(
                DisplayId(d),
            )
        &&& forall|i: int|
            0 <= i < self.workspaces.list.len() ==> match (
            #[trigger] self.workspaces.list[i]).displayed_on {
                Some(display_id) => target.contains_key(display_id.0),
                None => true,
            }
    }

    /// Each of these displays gives up what it shows.
    pub open spec fn displays_cleared(self, displays: Seq<isize>, i: int) -> Model
        decreases displays.len() - i,
    {
        if i >= displays.len() {
            self
        } else {
            let display_id = DisplayId(displays[i]);
            let next = if self.workspaces.displayed_at(display_id) is Some {
                let stashed = self.tree_stashed(display_id);
                Model { workspaces: stashed.workspaces.hiding(display_id), ..stashed }
            } else {
                self
            };
            next.displays_cleared(displays, i + 1)
        }
    }

    pub open spec fn mapping_shown(
        self,
        target: Map<isize, int>,
        displays: Seq<isize>,
        i: int,
    ) -> Model
        decreases displays.len() - i,
    {
        if i >= displays.len() {
            self
        } else {
            self.workspace_shown(target[displays[i]], DisplayId(displays[i])).mapping_shown(
                target,
                displays,
                i + 1,
            )
        }
    }

    /// The matched profile's switching mapping applied as one transition, or
    /// the displayed assignment exactly as it was and the reason.
    #[verifier::opaque]
    pub open spec fn mapping_applied(self) -> Model {
        let clear = Model { switching_unavailable: None, ..self };
        match self.config.switching {
            None => clear,
            Some(switching) => if !switching.experimental {
                clear
            } else {
                match self.mapping_resolved(switching.displayed, 0, Map::empty()) {
                    Err(reason) => Model { switching_unavailable: Some(reason), ..self },
                    Ok(target) => match first_index(self.displays.len(), self.unmapped(target)) {
                        Some(i) => Model {
                            switching_unavailable: Some(
                                WorkspaceSwitchingUnavailable::MappingIncomplete {
                                    display_fingerprint: self.displays[i].stable_fingerprint,
                                },
                            ),
                            ..self
                        },
                        None => if self.mapping_holds(target) {
                            clear
                        } else {
                            let displays = sorted(target.dom());
                            clear.displays_cleared(displays, 0).mapping_shown(target, displays, 0)
                        },
                    },
                }
            },
        }
    }

    pub open spec fn vanished(displays: Seq<Display>) -> spec_fn(Display) -> bool {
        |display: Display| !connected(displays, display.id)
    }

    pub open spec fn trees_stashed(self, displays: Seq<Display>, i: int) -> Model
        decreases displays.len() - i,
    {
        if i >= displays.len() {
            self
        } else {
            self.tree_stashed(displays[i].id).trees_stashed(displays, i + 1)
        }
    }

    /// The workspace of every display absent from `survivors` hidden, with
    /// its tree intact.
    #[verifier::opaque]
    pub open spec fn vanished_hidden(self, survivors: Seq<Display>) -> Model {
        let stashed = self.trees_stashed(self.displays.filter(Model::vanished(survivors)), 0);
        Model { workspaces: stashed.workspaces.keeping_displays(display_ids(survivors)), ..stashed }
    }
}

/// The positions a table of indices names.
pub open spec fn positions(target: Map<isize, usize>) -> Map<isize, int> {
    target.map_values(|at: usize| at as int)
}

/// Whether one of `names` spells the same workspace.
pub open spec fn spelled_in(names: Seq<WorkspaceName>, name: WorkspaceName) -> bool {
    exists|i: int| 0 <= i < names.len() && collides(#[trigger] names[i], name)
}

impl EngineState {
    /// Reflows every display's tiled windows using whichever arrangement the
    /// resolved configuration selects. A no-op in manual mode.
    pub fn reconcile_arrangements(&mut self, a: &Answers) -> (reply: Result<(), Question>)
        ensures
            reached(reply, final(self)@, old(self)@.arranged(*a)),
    {
        proof {
            reveal(Model::arranged);
        }
        match self.resolved_config.tiling_mode {
            TilingMode::Balanced => self.reconcile_balanced_grids(a),
            TilingMode::Tree => self.reconcile_container_trees(a),
        }
    }

    fn forget_overflow(&mut self, display_id: DisplayId)
        ensures
            final(self)@ == (Model {
                constraint_overflow: old(self)@.constraint_overflow.filter(
                    Model::off_display(display_id),
                ),
                ..old(self)@
            }),
    {
        let next = off_display_only(&self.constraint_overflow, display_id);
        self.constraint_overflow = next;
    }

    /// Moves the display's live tree into the workspace displayed there, so
    /// the workspace keeps its structure while hidden.
    pub fn stash_display_tree(&mut self, display_id: DisplayId)
        ensures
            final(self)@ == old(self)@.tree_stashed(display_id),
            final(self)@.workspaces.list.len() == old(self)@.workspaces.list.len(),
    {
        let tree = self.trees.remove(display_id.0);
        self.saved_trees.remove(display_id.0);
        self.forget_overflow(display_id);
        let order = off_display_only(&self.visual_window_order, display_id);
        self.visual_window_order = order;
        match self.workspaces.displayed_at(display_id) {
            Some(i) => {
                let mut workspace = self.workspaces.at(i).clone();
                workspace.stashed_tree = tree;
                self.workspaces.set(i, workspace);
            },
            None => {},
        }
    }

    /// Takes workspace `i`'s stashed tree out and makes it the display's live
    /// tree.
    pub fn adopt_workspace_tree(&mut self, i: usize, display_id: DisplayId)
        requires
            i < old(self)@.workspaces.list.len(),
        ensures
            final(self)@ == old(self)@.tree_adopted(i as int, display_id),
    {
        let mut workspace = self.workspaces.at(i).clone();
        let stashed = workspace.stashed_tree;
        workspace.stashed_tree = None;
        self.workspaces.set(i, workspace);
        self.saved_trees.remove(display_id.0);
        self.forget_overflow(display_id);
        match stashed {
            Some(tree) => {
                self.trees.insert(display_id.0, tree);
            },
            None => {
                self.trees.remove(display_id.0);
            },
        }
    }

    pub fn show_workspace(&mut self, i: usize, display_id: DisplayId)
        requires
            i < old(self)@.workspaces.list.len(),
        ensures
            final(self)@ == old(self)@.workspace_shown(i as int, display_id),
            final(self)@.workspaces.list.len() == old(self)@.workspaces.list.len(),
    {
        self.workspaces.display(i, display_id);
        self.adopt_workspace_tree(i, display_id);
    }

    /// Gives every managed window that belongs to no workspace the workspace
    /// displayed where it sits, if that display has one.
    pub fn assign_unassigned_windows(&mut self)
        ensures
            final(self)@ == old(self)@.unassigned_assigned(),
    {
        proof {
            reveal(Model::unassigned_assigned);
        }
        let ghost start = self@;
        let keys = self.inventory.keys();
        let mut i: usize = 0;
        while i < keys.len()
            invariant
                i <= keys@.len(),
                keys@.to_set() == start.inventory.dom(),
                forall|x: int, y: int| 0 <= x < y < keys@.len() ==> keys@[x] < keys@[y],
                self@ == (Model {
                    workspaces: Pool { members: self@.workspaces.members, ..start.workspaces },
                    ..start
                }),
                forall|id: isize| #[trigger]
                    self@.workspaces.members.contains_key(id) == (
                    start.workspaces.members.contains_key(id) || (start.gained(id) is Some
                        && keys@.take(i as int).contains(id))),
                forall|id: isize| #[trigger]
                    self@.workspaces.members.contains_key(id) ==> self@.workspaces.members[id]
                        == if start.workspaces.members.contains_key(id) {
                        start.workspaces.members[id]
                    } else {
                        start.gained(id)->0
                    },
            decreases keys@.len() - i,
        {
            let id = keys[i];
            assert(keys@.to_set().contains(id));
            assert(!keys@.take(i as int).contains(id));
            assert(keys@.take(i + 1) =~= keys@.take(i as int).push(id));
            assert forall|x: isize| #[trigger]
                keys@.take(i + 1).contains(x) == (keys@.take(i as int).contains(x) || x == id) by {
                let shorter = keys@.take(i as int);
                if shorter.contains(x) {
                    let k = choose|k: int| 0 <= k < shorter.len() && shorter[k] == x;
                    assert(keys@.take(i + 1)[k] == x);
                }
                if x == id {
                    assert(keys@.take(i + 1)[i as int] == x);
                }
            }
            if self.workspaces.workspace_of(id).is_none() {
                match self.inventory.get(id) {
                    Some(managed) => {
                        assert(self@.workspaces.displayed_on(managed.window.display_id)
                            == start.workspaces.displayed_on(managed.window.display_id)) by {
                            let d = managed.window.display_id;
                            assert(self@.workspaces.shows(d) =~= start.workspaces.shows(d));
                        }
                        match self.workspaces.displayed_on(managed.window.display_id) {
                            Some(name) => {
                                self.workspaces.assign(id, &name);
                            },
                            None => {},
                        }
                    },
                    None => {},
                }
            }
            i += 1;
        }
        proof {
            assert(keys@.take(keys@.len() as int) =~= keys@);
            assert forall|id: isize| start.gained(id) is Some implies #[trigger] keys@.contains(
                id,
            ) by {
                assert(keys@.to_set().contains(id));
            }
            assert forall|id: isize| #[trigger]
                self@.workspaces.members.dom().contains(id)
                    == start.unassigned_assigned().workspaces.members.dom().contains(id) by {
                assert(self@.workspaces.members.contains_key(id) == (
                start.workspaces.members.contains_key(id) || (start.gained(id) is Some
                    && keys@.contains(id))));
            }
            assert(self@.workspaces.members
                =~= start.unassigned_assigned().workspaces.members);
        }
    }

    fn declare_workspaces(&mut self, names: &Vec<WorkspaceName>)
        ensures
            final(self)@ == old(self)@.declared_from(names@, 0),
    {
        let ghost total = self@.declared_from(names@, 0);
        let mut i: usize = 0;
        while i < names.len()
            invariant
                i <= names@.len(),
                self@.declared_from(names@, i as int) == total,
            decreases names@.len() - i,
        {
            match self.workspaces.find(&names[i]) {
                Some(at) => {
                    let mut workspace = self.workspaces.at(at).clone();
                    workspace.origin = WorkspaceOrigin::Configuration;
                    self.workspaces.set(at, workspace);
                },
                None => {
                    self.workspaces.create(names[i].clone(), WorkspaceOrigin::Configuration);
                },
            }
            i += 1;
        }
    }

    fn release_undeclared(&mut self, names: &Vec<WorkspaceName>)
        ensures
            final(self)@ == old(self)@.undeclared_released(names@),
    {
        let ghost after = self@.undeclared_released(names@);
        let ghost start = self@;
        let mut j: usize = 0;
        while j < self.workspaces.len()
            invariant
                j <= self@.workspaces.list.len(),
                start == old(self)@,
                after == start.undeclared_released(names@),
                self@ == (Model {
                    workspaces: Pool { list: self@.workspaces.list, ..start.workspaces },
                    ..start
                }),
                self@.workspaces.list.len() == start.workspaces.list.len(),
                forall|k: int|
                    0 <= k < j ==> self@.workspaces.list[k] == after.workspaces.list[k],
                forall|k: int|
                    j <= k < self@.workspaces.list.len() ==> self@.workspaces.list[k]
                        == start.workspaces.list[k],
            decreases self@.workspaces.list.len() - j,
        {
            if !spells(names, &self.workspaces.at(j).name) {
                let mut workspace = self.workspaces.at(j).clone();
                workspace.origin = WorkspaceOrigin::Command;
                self.workspaces.set(j, workspace);
            }
            j += 1;
        }
        assert(self@.workspaces.list =~= after.workspaces.list);
    }

    /// Brings the pool up to date with what configuration declares: every
    /// declared name exists, owned by configuration; a name configuration
    /// stopped declaring stays but becomes deletable by command.
    pub fn sync_workspaces_from_config(&mut self)
        ensures
            final(self)@ == old(self)@.pool_synced(),
    {
        proof {
            reveal(Model::pool_synced);
        }
        let names = self.resolved_config.workspaces.clone();
        assert(names@ =~= self.resolved_config.workspaces@);
        self.declare_workspaces(&names);
        self.release_undeclared(&names);
    }

    fn is_vacant(&self, i: usize) -> (vacant: bool)
        requires
            i < self@.workspaces.list.len(),
        ensures
            vacant == self@.vacant(i as int),
    {
        let workspace = self.workspaces.at(i);
        workspace.displayed_on.is_none() && self.workspaces.members_of(&workspace.name).len() == 0
    }

    /// The first vacant workspace, in the order configuration declares first.
    fn find_vacant(&self) -> (at: Option<usize>)
        ensures
            match at {
                Some(i) => self@.first_vacant(0) == Some(i as int) && i
                    < self@.workspaces.list.len(),
                None => self@.first_vacant(0) is None,
            },
    {
        let ghost n = self@.workspaces.list.len();
        let mut k: usize = 0;
        while k < self.resolved_config.workspaces.len()
            invariant
                k <= self@.config.workspaces.len(),
                n == self@.workspaces.list.len(),
                self@.first_vacant(k as int) == self@.first_vacant(0),
            decreases self@.config.workspaces.len() - k,
        {
            let name = &self.resolved_config.workspaces[k];
            let ghost p = self@.vacant_spelled(*name);
            let mut i: usize = 0;
            while i < self.workspaces.len()
                invariant
                    i <= n,
                    n == self@.workspaces.list.len(),
                    k < self@.config.workspaces.len(),
                    *name == self@.config.workspaces[k as int],
                    self@.first_vacant(k as int) == self@.first_vacant(0),
                    p == self@.vacant_spelled(*name),
                    first_index(i as nat, p) is None,
                decreases n - i,
            {
                if self.workspaces.at(i).name.collides_with(name) && self.is_vacant(i) {
                    proof {
                        assert(p(i as int));
                        lemma_first_hit(n, p, i as int);
                    }
                    return Some(i);
                }
                assert(!p(i as int));
                i += 1;
            }
            k += 1;
        }
        let ghost p = self@.any_vacant();
        let mut i: usize = 0;
        while i < self.workspaces.len()
            invariant
                i <= n,
                n == self@.workspaces.list.len(),
                self@.first_vacant(0) == first_index(n, p),
                p == self@.any_vacant(),
                first_index(i as nat, p) is None,
            decreases n - i,
        {
            if self.is_vacant(i) {
                proof {
                    assert(p(i as int));
                    lemma_first_hit(n, p, i as int);
                }
                return Some(i);
            }
            assert(!p(i as int));
            i += 1;
        }
        None
    }

    fn choose_for(&self, fingerprint: &String) -> (at: Option<usize>)
        ensures
            match at {
                Some(i) => self@.chosen_for(fingerprint@) == Some(i as int) && i
                    < self@.workspaces.list.len(),
                None => self@.chosen_for(fingerprint@) is None,
            },
    {
        let ghost n = self@.workspaces.list.len();
        let ghost p = self@.remembers(fingerprint@);
        let mut i: usize = 0;
        while i < self.workspaces.len()
            invariant
                i <= n,
                n == self@.workspaces.list.len(),
                p == self@.remembers(fingerprint@),
                first_index(i as nat, p) is None,
            decreases n - i,
        {
            let workspace = self.workspaces.at(i);
            let remembered = match &workspace.pending_display {
                Some(stored) => workspace.displayed_on.is_none() && same_text(stored, fingerprint),
                None => false,
            };
            if remembered {
                proof {
                    assert(p(i as int));
                    lemma_first_hit(n, p, i as int);
                }
                return Some(i);
            }
            assert(!p(i as int));
            i += 1;
        }
        self.find_vacant()
    }

    fn fill_display(&mut self, display: &Display)
        ensures
            final(self)@ == old(self)@.display_filled(*display),
    {
        if self.workspaces.displayed_at(display.id).is_some() {
            return;
        }
        match self.choose_for(&display.stable_fingerprint) {
            Some(i) => {
                let mut workspace = self.workspaces.at(i).clone();
                workspace.pending_display = None;
                self.workspaces.set(i, workspace);
                self.show_workspace(i, display.id);
            },
            None => {},
        }
    }

    /// Gives every display with no displayed workspace one, if the pool has
    /// one to give: first the workspace that was displayed on that display
    /// when last written, then any hidden workspace that owns no live window.
    pub fn fill_empty_displays(&mut self)
        ensures
            final(self)@ == old(self)@.displays_filled(),
    {
        proof {
            reveal(Model::displays_filled);
        }
        let mut ranks: Vec<Ranked> = Vec::new();
        let mut i: usize = 0;
        while i < self.displays.len()
            invariant
                i <= self.displays@.len(),
                *self == *old(self),
                ranks@ == self@.display_ranks().take(i as int),
            decreases self.displays@.len() - i,
        {
            ranks.push(
                Ranked {
                    first: if self.displays[i].is_primary {
                        0
                    } else {
                        1
                    },
                    second: 0,
                    third: 0,
                    id: self.displays[i].id.0,
                },
            );
            i += 1;
        }
        assert(ranks@ =~= self@.display_ranks());
        let line = sort_ranked(&ranks);
        let ghost total = self@.displays_filled_from(line@, 0);
        let mut i: usize = 0;
        while i < line.len()
            invariant
                i <= line@.len(),
                self@.displays_filled_from(line@, i as int) == total,
            decreases line@.len() - i,
        {
            match find_display(&self.displays, DisplayId(line[i].id)) {
                Some(at) => {
                    let display = self.displays[at].clone();
                    self.fill_display(&display);
                },
                None => {},
            }
            i += 1;
        }
    }

    fn resolve_mapping(&self, entries: &Vec<DisplayMapping>) -> (target: Result<
        Table<usize>,
        WorkspaceSwitchingUnavailable,
    >)
        ensures
            match (target, self@.mapping_resolved(entries@, 0, Map::empty())) {
                (Ok(table), Ok(expected)) => positions(table@) == expected && forall|d: isize| #[trigger]
                    table@.contains_key(d) ==> table@[d] < self@.workspaces.list.len(),
                (Err(reason), Err(expected)) => reason == expected,
                _ => false,
            },
    {
        let ghost total = self@.mapping_resolved(entries@, 0, Map::empty());
        let mut target: Table<usize> = Table::new();
        assert(positions(target@) =~= Map::empty());
        let mut i: usize = 0;
        while i < entries.len()
            invariant
                i <= entries@.len(),
                total == self@.mapping_resolved(entries@, 0, Map::empty()),
                self@.mapping_resolved(entries@, i as int, positions(target@)) == total,
                forall|d: isize| #[trigger]
                    target@.contains_key(d) ==> target@[d] < self@.workspaces.list.len(),
            decreases entries@.len() - i,
        {
            let entry = &entries[i];
            match display_id_of(&self.displays, &entry.display_fingerprint) {
                Some(display_id) => match self.workspaces.find(&entry.workspace) {
                    Some(at) => {
                        let ghost before = target@;
                        target.insert(display_id.0, at);
                        assert(positions(target@) =~= positions(before).insert(
                            display_id.0,
                            at as int,
                        ));
                    },
                    None => {
                        return Err(
                            WorkspaceSwitchingUnavailable::UnknownWorkspace {
                                name: entry.workspace.text.clone(),
                            },
                        );
                    },
                },
                None => {
                    return Err(
                        WorkspaceSwitchingUnavailable::DisplayNotConnected {
                            display_fingerprint: entry.display_fingerprint.clone(),
                        },
                    );
                },
            }
            i += 1;
        }
        Ok(target)
    }

    fn find_unmapped(&self, target: &Table<usize>) -> (at: Option<usize>)
        ensures
            match at {
                Some(i) => first_index(self@.displays.len(), self@.unmapped(positions(target@))) == Some(
                    i as int,
                ) && i < self@.displays.len(),
                None => first_index(self@.displays.len(), self@.unmapped(positions(target@))) is None,
            },
    {
        let ghost p = self@.unmapped(positions(target@));
        let mut i: usize = 0;
        while i < self.displays.len()
            invariant
                i <= self.displays@.len(),
                p == self@.unmapped(positions(target@)),
                first_index(i as nat, p) is None,
            decreases self.displays@.len() - i,
        {
            if !target.contains_key(self.displays[i].id.0) {
                proof {
                    assert(p(i as int));
                    lemma_first_hit(self@.displays.len(), p, i as int);
                }
                return Some(i);
            }
            assert(!p(i as int));
            i += 1;
        }
        None
    }

    fn mapping_in_effect(&self, target: &Table<usize>) -> (holds: bool)
        requires
            forall|d: isize| #[trigger]
                target@.contains_key(d) ==> target@[d] < self@.workspaces.list.len(),
        ensures
            holds == self@.mapping_holds(positions(target@)),
    {
        let keys = target.keys();
        let mut i: usize = 0;
        while i < keys.len()
            invariant
                i <= keys@.len(),
                keys@.to_set() == target@.dom(),
                forall|d: isize| #[trigger]
                    target@.contains_key(d) ==> target@[d] < self@.workspaces.list.len(),
                forall|k: int|
                    0 <= k < i ==> self@.workspaces.list[target@[#[trigger] keys@[k]] as int].displayed_on
                        == Some(DisplayId(keys@[k])),
            decreases keys@.len() - i,
        {
            let d = keys[i];
            assert(keys@.to_set().contains(d));
            match target.get(d) {
                Some(at) => {
                    let shown = match self.workspaces.at(*at).displayed_on {
                        Some(display_id) => display_id.0 == d,
                        None => false,
                    };
                    if !shown {
                        assert(positions(target@).contains_key(d));
                        return false;
                    }
                },
                None => {},
            }
            i += 1;
        }
        proof {
            assert forall|d: isize| #[trigger]
                positions(target@).contains_key(d) implies self@.workspaces.list[positions(
                target@,
            )[d]].displayed_on == Some(DisplayId(d)) by {
                assert(keys@.to_set().contains(d));
                let k = choose|k: int| 0 <= k < keys@.len() && keys@[k] == d;
                assert(self@.workspaces.list[target@[keys@[k]] as int].displayed_on == Some(
                    DisplayId(keys@[k]),
                ));
            }
        }
        let mut i: usize = 0;
        while i < self.workspaces.len()
            invariant
                i <= self@.workspaces.list.len(),
                forall|k: int|
                    0 <= k < i ==> match (#[trigger] self@.workspaces.list[k]).displayed_on {
                        Some(display_id) => target@.contains_key(display_id.0),
                        None => true,
                    },
            decreases self@.workspaces.list.len() - i,
        {
            match self.workspaces.at(i).displayed_on {
                Some(display_id) => {
                    if !target.contains_key(display_id.0) {
                        return false;
                    }
                },
                None => {},
            }
            i += 1;
        }
        true
    }

    fn clear_displays(&mut self, displays: &Vec<isize>)
        ensures
            final(self)@ == old(self)@.displays_cleared(displays@, 0),
            final(self)@.workspaces.list.len() == old(self)@.workspaces.list.len(),
    {
        let ghost total = self@.displays_cleared(displays@, 0);
        let mut i: usize = 0;
        while i < displays.len()
            invariant
                i <= displays@.len(),
                self@.displays_cleared(displays@, i as int) == total,
                self@.workspaces.list.len() == old(self)@.workspaces.list.len(),
            decreases displays@.len() - i,
        {
            let display_id = DisplayId(displays[i]);
            if self.workspaces.displayed_at(display_id).is_some() {
                self.stash_display_tree(display_id);
                self.workspaces.hide_display(display_id);
            }
            i += 1;
        }
    }

    fn show_mapping(&mut self, target: &Table<usize>, displays: &Vec<isize>)
        requires
            displays@.to_set() == target@.dom(),
            forall|d: isize| #[trigger]
                target@.contains_key(d) ==> target@[d] < old(self)@.workspaces.list.len(),
        ensures
            final(self)@ == old(self)@.mapping_shown(positions(target@), displays@, 0),
    {
        let ghost total = self@.mapping_shown(positions(target@), displays@, 0);
        let mut i: usize = 0;
        while i < displays.len()
            invariant
                i <= displays@.len(),
                displays@.to_set() == target@.dom(),
                forall|d: isize| #[trigger]
                    target@.contains_key(d) ==> target@[d] < self@.workspaces.list.len(),
                self@.mapping_shown(positions(target@), displays@, i as int) == total,
            decreases displays@.len() - i,
        {
            assert(displays@.to_set().contains(displays@[i as int]));
            match target.get(displays[i]) {
                Some(at) => {
                    self.show_workspace(*at, DisplayId(displays[i]));
                },
                None => {},
            }
            i += 1;
        }
    }

    /// Applies the matched profile's switching mapping as one transition, or
    /// leaves the displayed assignment exactly as it was.
    ///
    /// Every display and every name is resolved before anything changes, so a
    /// mapping that cannot be completed changes nothing and is reported with
    /// the first reason found.
    pub fn apply_switching_mapping(&mut self)
        ensures
            final(self)@ == old(self)@.mapping_applied(),
    {
        proof {
            reveal(Model::mapping_applied);
        }
        let resolved = match &self.resolved_config.workspace_switching {
            Some(switching) => {
                if !switching.experimental {
                    self.switching_unavailable = None;
                    return;
                }
                self.resolve_mapping(&switching.displayed)
            },
            None => {
                self.switching_unavailable = None;
                return;
            },
        };
        let target = match resolved {
            Ok(target) => target,
            Err(reason) => {
                self.switching_unavailable = Some(reason);
                return;
            },
        };
        match self.find_unmapped(&target) {
            Some(i) => {
                self.switching_unavailable = Some(
                    WorkspaceSwitchingUnavailable::MappingIncomplete {
                        display_fingerprint: self.displays[i].stable_fingerprint.clone(),
                    },
                );
                return;
            },
            None => {},
        }
        let holds = self.mapping_in_effect(&target);
        self.switching_unavailable = None;
        if holds {
            return;
        }
        let displays = target.keys();
        assert(positions(target@).dom() =~= target@.dom());
        self.clear_displays(&displays);
        self.show_mapping(&target, &displays);
    }

    /// Hides the workspace of every display absent from `survivors`, stashing
    /// its tree first.
    pub fn hide_workspaces_on_vanished_displays(&mut self, survivors: &Vec<Display>)
        ensures
            final(self)@ == old(self)@.vanished_hidden(survivors@),
    {
        proof {
            reveal(Model::vanished_hidden);
        }
        let ghost pred = Model::vanished(survivors@);
        let ghost all = self.displays@;
        let mut gone: Vec<Display> = Vec::new();
        let mut i: usize = 0;
        while i < self.displays.len()
            invariant
                i <= self.displays@.len(),
                *self == *old(self),
                all == self.displays@,
                pred == Model::vanished(survivors@),
                gone@ == all.take(i as int).filter(pred),
            decreases self.displays@.len() - i,
        {
            proof {
                lemma_filter_step(all, i as int, pred);
            }
            if !is_connected(survivors, self.displays[i].id) {
                gone.push(self.displays[i].clone());
            }
            i += 1;
        }
        assert(all.take(all.len() as int) =~= all);
        let ghost total = self@.trees_stashed(gone@, 0);
        let mut i: usize = 0;
        while i < gone.len()
            invariant
                i <= gone@.len(),
                self@.trees_stashed(gone@, i as int) == total,
            decreases gone@.len() - i,
        {
            self.stash_display_tree(gone[i].id);
            i += 1;
        }
        let keep = collect_display_ids(survivors);
        self.workspaces.retain_displays(&keep);
    }
}

/// Whether one of `names` spells the same workspace as `name`.
pub fn spells(names: &Vec<WorkspaceName>, name: &WorkspaceName) -> (found: bool)
    ensures
        found == spelled_in(names@, *name),
{
    let mut i: usize = 0;
    while i < names.len()
        invariant
            i <= names@.len(),
            forall|j: int| 0 <= j < i ==> !collides(#[trigger] names@[j], *name),
        decreases names@.len() - i,
    {
        if names[i].collides_with(name) {
            assert(collides(names@[i as int], *name));
            return true;
        }
        i += 1;
    }
    false
}

/// `entries` without those under `display_id`.
pub fn off_display_only(entries: &Vec<Listed>, display_id: DisplayId) -> (left: Vec<Listed>)
    ensures
        left@ == entries@.filter(Model::off_display(display_id)),
{
    let ghost pred = Model::off_display(display_id);
    let mut left: Vec<Listed> = Vec::new();
    let mut i: usize = 0;
    while i < entries.len()
        invariant
            i <= entries@.len(),
            pred == Model::off_display(display_id),
            left@ == entries@.take(i as int).filter(pred),
        decreases entries@.len() - i,
    {
        proof {
            lemma_filter_step(entries@, i as int, pred);
        }
        if entries[i].display_id != display_id {
            left.push(entries[i]);
        }
        i += 1;
    }
    assert(entries@.take(entries@.len() as int) =~= entries@);
    left
}

} // verus!
