//! The global pool of logical workspaces: which is displayed where, which
//! window belongs to which, and each one's stashed tree while hidden.

use vstd::prelude::*;

verus! {

use crate::answers::{ContainerTree, PersistedTree};
use crate::geometry::{DisplayId, WindowId};
use crate::name::{collides, name_before, same_name, NameCheck, RequestedName, WorkspaceName};
use crate::table::{sorted, IdSet, Table};
use crate::text::{copy_option, first_index, lemma_first_hit, same_option, same_text_option};

/// Who asked for a workspace to exist.
#[derive(Debug, Clone, Copy, PartialEq, Eq, Structural)]
pub enum WorkspaceOrigin {
    Configuration,
    Command,
}

/// One workspace in its durable form.
#[derive(Debug, PartialEq)]
pub struct PersistedWorkspace {
    pub name: WorkspaceName,
    pub origin: WorkspaceOrigin,
    pub displayed_fingerprint: Option<String>,
    pub tree: Option<PersistedTree>,
}

pub open spec fn same_persisted(a: PersistedWorkspace, b: PersistedWorkspace) -> bool {
    &&& same_name(a.name, b.name)
    &&& a.origin == b.origin
    &&& same_option(a.displayed_fingerprint, b.displayed_fingerprint)
    &&& a.tree == b.tree
}

impl PersistedWorkspace {
    pub fn same(&self, other: &PersistedWorkspace) -> (same: bool)
        ensures
            same == same_persisted(*self, *other),
    {
        let same_tree = match (self.tree, other.tree) {
            (Some(a), Some(b)) => a == b,
            (None, None) => true,
            _ => false,
        };
        self.name.same(&other.name) && self.origin == other.origin && same_text_option(
            &self.displayed_fingerprint,
            &other.displayed_fingerprint,
        ) && same_tree
    }
}

impl Clone for PersistedWorkspace {
    fn clone(&self) -> (copy: PersistedWorkspace)
        ensures
            copy == *self,
    {
        PersistedWorkspace {
            name: self.name.clone(),
            origin: self.origin,
            displayed_fingerprint: copy_option(&self.displayed_fingerprint),
            tree: self.tree,
        }
    }
}

/// One logical workspace.
#[derive(Debug, PartialEq)]
pub struct Workspace {
    pub name: WorkspaceName,
    pub origin: WorkspaceOrigin,
    /// The display showing it, while one does.
    pub displayed_on: Option<DisplayId>,
    /// The member that last had focus.
    pub last_focused: Option<WindowId>,
    /// Its tree while hidden. A displayed workspace's tree is its display's.
    pub stashed_tree: Option<ContainerTree>,
    /// A stored tree waiting for the workspace to be displayed and reflowed.
    pub pending_tree: Option<PersistedTree>,
    /// Where it was displayed when last written, by display fingerprint,
    /// until a display has been given it or has turned it down.
    pub pending_display: Option<String>,
    /// Its durable form as last written.
    pub saved: Option<PersistedWorkspace>,
}

/// A hidden workspace that owns nothing.
pub open spec fn fresh_workspace(name: WorkspaceName, origin: WorkspaceOrigin) -> Workspace {
    Workspace {
        name,
        origin,
        displayed_on: None,
        last_focused: None,
        stashed_tree: None,
        pending_tree: None,
        pending_display: None,
        saved: None,
    }
}

impl Clone for Workspace {
    fn clone(&self) -> (copy: Workspace)
        ensures
            copy == *self,
    {
        Workspace {
            name: self.name.clone(),
            origin: self.origin,
            displayed_on: self.displayed_on,
            last_focused: self.last_focused,
            stashed_tree: self.stashed_tree,
            pending_tree: self.pending_tree,
            pending_display: copy_option(&self.pending_display),
            saved: match &self.saved {
                Some(saved) => Some(saved.clone()),
                None => None,
            },
        }
    }
}

/// The pool as a mathematical value: its workspaces in name order, and the
/// workspace each member window belongs to.
#[verifier::ext_equal]
pub ghost struct Pool {
    pub list: Seq<Workspace>,
    pub members: Map<isize, WorkspaceName>,
}

impl Pool {
    pub open spec fn named(self, key: Seq<char>) -> spec_fn(int) -> bool {
        |i: int| self.list[i].name.key@ == key
    }

    /// Where the workspace that `name` spells stands in the pool.
    pub open spec fn find(self, name: WorkspaceName) -> Option<int> {
        first_index(self.list.len(), self.named(name.key@))
    }

    pub open spec fn get(self, name: WorkspaceName) -> Option<Workspace> {
        match self.find(name) {
            Some(i) => Some(self.list[i]),
            None => None,
        }
    }

    /// The workspace a request names.
    pub open spec fn resolve(self, request: RequestedName) -> Option<int> {
        match request.name {
            NameCheck::Valid(name) => self.find(name),
            NameCheck::Invalid(_) => None,
        }
    }

    pub open spec fn shows(self, display_id: DisplayId) -> spec_fn(int) -> bool {
        |i: int| self.list[i].displayed_on == Some(display_id)
    }

    /// Where the workspace displayed on `display_id` stands in the pool.
    pub open spec fn displayed_at(self, display_id: DisplayId) -> Option<int> {
        first_index(self.list.len(), self.shows(display_id))
    }

    pub open spec fn displayed_on(self, display_id: DisplayId) -> Option<WorkspaceName> {
        match self.displayed_at(display_id) {
            Some(i) => Some(self.list[i].name),
            None => None,
        }
    }

    pub open spec fn display_of(self, name: WorkspaceName) -> Option<DisplayId> {
        match self.find(name) {
            Some(i) => self.list[i].displayed_on,
            None => None,
        }
    }

    pub open spec fn is_displayed(self, name: WorkspaceName) -> bool {
        self.display_of(name) is Some
    }

    pub open spec fn workspace_of(self, window: isize) -> Option<WorkspaceName> {
        if self.members.contains_key(window) {
            Some(self.members[window])
        } else {
            None
        }
    }

    pub open spec fn belongs(self, name: WorkspaceName) -> spec_fn(isize) -> bool {
        |window: isize| self.members.contains_key(window) && collides(self.members[window], name)
    }

    /// The windows that belong to `name`, smallest handle first.
    pub open spec fn members_of(self, name: WorkspaceName) -> Seq<isize> {
        sorted(self.members.dom()).filter(self.belongs(name))
    }

    pub open spec fn with(self, i: int, workspace: Workspace) -> Pool {
        Pool { list: self.list.update(i, workspace), ..self }
    }

    pub open spec fn follows(self, name: WorkspaceName) -> spec_fn(int) -> bool {
        |i: int| name_before(name, self.list[i].name)
    }

    /// Where a new workspace is inserted to keep the pool in name order.
    pub open spec fn slot_for(self, name: WorkspaceName) -> int {
        match first_index(self.list.len(), self.follows(name)) {
            Some(i) => i,
            None => self.list.len() as int,
        }
    }

    pub open spec fn created(self, name: WorkspaceName, origin: WorkspaceOrigin) -> Pool {
        Pool { list: self.list.insert(self.slot_for(name), fresh_workspace(name, origin)), ..self }
    }

    pub open spec fn removed(self, i: int) -> Pool {
        Pool { list: self.list.remove(i), ..self }
    }

    /// Workspace `i` displayed on `display_id`; whatever was there is hidden.
    pub open spec fn displaying(self, i: int, display_id: DisplayId) -> Pool {
        Pool {
            list: Seq::new(
                self.list.len(),
                |j: int|
                    if j == i {
                        Workspace { displayed_on: Some(display_id), ..self.list[j] }
                    } else if self.list[j].displayed_on == Some(display_id) {
                        Workspace { displayed_on: None, ..self.list[j] }
                    } else {
                        self.list[j]
                    },
            ),
            ..self
        }
    }

    /// Nothing displayed on `display_id` any more.
    pub open spec fn hiding(self, display_id: DisplayId) -> Pool {
        Pool {
            list: Seq::new(
                self.list.len(),
                |j: int|
                    if self.list[j].displayed_on == Some(display_id) {
                        Workspace { displayed_on: None, ..self.list[j] }
                    } else {
                        self.list[j]
                    },
            ),
            ..self
        }
    }

    /// Two displays exchanging what they show.
    pub open spec fn swapped(self, a: DisplayId, b: DisplayId) -> Pool {
        Pool {
            list: Seq::new(
                self.list.len(),
                |j: int|
                    if self.list[j].displayed_on == Some(a) {
                        Workspace { displayed_on: Some(b), ..self.list[j] }
                    } else if self.list[j].displayed_on == Some(b) {
                        Workspace { displayed_on: Some(a), ..self.list[j] }
                    } else {
                        self.list[j]
                    },
            ),
            ..self
        }
    }

    /// Only the displays in `keep` go on showing anything.
    pub open spec fn keeping_displays(self, keep: Set<isize>) -> Pool {
        Pool {
            list: Seq::new(
                self.list.len(),
                |j: int|
                    match self.list[j].displayed_on {
                        Some(d) => if keep.contains(d.0) {
                            self.list[j]
                        } else {
                            Workspace { displayed_on: None, ..self.list[j] }
                        },
                        None => self.list[j],
                    },
            ),
            ..self
        }
    }

    pub open spec fn assigned(self, window: isize, name: WorkspaceName) -> Pool {
        Pool { members: self.members.insert(window, name), ..self }
    }

    /// Only the windows in `keep` stay members, or stay remembered as the one
    /// that last had focus.
    pub open spec fn keeping_members(self, keep: Set<isize>) -> Pool {
        Pool {
            list: Seq::new(
                self.list.len(),
                |j: int|
                    match self.list[j].last_focused {
                        Some(w) => if keep.contains(w.0) {
                            self.list[j]
                        } else {
                            Workspace { last_focused: None, ..self.list[j] }
                        },
                        None => self.list[j],
                    },
            ),
            members: self.members.restrict(keep),
        }
    }

    /// The window's workspace remembers it as the last one focused.
    pub open spec fn focused(self, window: WindowId) -> Pool {
        match self.workspace_of(window.0) {
            Some(name) => match self.find(name) {
                Some(i) => self.with(
                    i,
                    Workspace { last_focused: Some(window), ..self.list[i] },
                ),
                None => self,
            },
            None => self,
        }
    }
}

/// The executable pool.
#[derive(Debug, PartialEq)]
pub struct WorkspacePool {
    workspaces: Vec<Workspace>,
    members: Table<WorkspaceName>,
}

impl View for WorkspacePool {
    type V = Pool;

    closed spec fn view(&self) -> Pool {
        Pool { list: self.workspaces@, members: self.members@ }
    }
}

impl WorkspacePool {
    pub fn new() -> (pool: WorkspacePool)
        ensures
            pool@ == (Pool { list: Seq::empty(), members: Map::empty() }),
    {
        let pool = WorkspacePool { workspaces: Vec::new(), members: Table::new() };
        assert(pool@.list =~= Seq::<Workspace>::empty());
        pool
    }

    pub fn len(&self) -> (n: usize)
        ensures
            n == self@.list.len(),
    {
        self.workspaces.len()
    }

    /// How many windows belong to some workspace.
    pub fn member_count(&self) -> (n: usize)
        ensures
            n == self@.members.dom().len(),
            self@.members.dom().finite(),
    {
        self.members.len()
    }

    /// The windows that belong to a workspace, smallest handle first.
    pub fn member_ids(&self) -> (ids: Vec<isize>)
        ensures
            ids@ == sorted(self@.members.dom()),
            ids@.to_set() == self@.members.dom(),
    {
        self.members.keys()
    }

    pub fn at(&self, i: usize) -> (workspace: &Workspace)
        requires
            i < self@.list.len(),
        ensures
            *workspace == self@.list[i as int],
    {
        &self.workspaces[i]
    }

    pub fn set(&mut self, i: usize, workspace: Workspace)
        requires
            i < old(self)@.list.len(),
        ensures
            final(self)@ == old(self)@.with(i as int, workspace),
    {
        self.workspaces.set(i, workspace);
    }

    /// Where the workspace that `name` spells stands.
    pub fn find(&self, name: &WorkspaceName) -> (at: Option<usize>)
        ensures
            match at {
                Some(i) => self@.find(*name) == Some(i as int) && i < self@.list.len(),
                None => self@.find(*name) is None,
            },
    {
        let mut i: usize = 0;
        while i < self.workspaces.len()
            invariant
                i <= self.workspaces@.len(),
                first_index(i as nat, self@.named(name.key@)) is None,
            decreases self.workspaces@.len() - i,
        {
            if self.workspaces[i].name.collides_with(name) {
                proof {
                    assert(self@.named(name.key@)(i as int));
                    lemma_first_hit(self@.list.len(), self@.named(name.key@), i as int);
                }
                return Some(i);
            }
            assert(!self@.named(name.key@)(i as int));
            i += 1;
        }
        None
    }

    pub fn get(&self, name: &WorkspaceName) -> (workspace: Option<&Workspace>)
        ensures
            match workspace {
                Some(found) => self@.get(*name) == Some(*found),
                None => self@.get(*name) is None,
            },
    {
        match self.find(name) {
            Some(i) => Some(&self.workspaces[i]),
            None => None,
        }
    }

    pub fn resolve(&self, request: &RequestedName) -> (at: Option<usize>)
        ensures
            match at {
                Some(i) => self@.resolve(*request) == Some(i as int) && i < self@.list.len(),
                None => self@.resolve(*request) is None,
            },
    {
        match &request.name {
            NameCheck::Valid(name) => self.find(name),
            NameCheck::Invalid(_) => None,
        }
    }

    pub fn displayed_at(&self, display_id: DisplayId) -> (at: Option<usize>)
        ensures
            match at {
                Some(i) => self@.displayed_at(display_id) == Some(i as int) && i < self@.list.len(),
                None => self@.displayed_at(display_id) is None,
            },
    {
        let mut i: usize = 0;
        while i < self.workspaces.len()
            invariant
                i <= self.workspaces@.len(),
                first_index(i as nat, self@.shows(display_id)) is None,
            decreases self.workspaces@.len() - i,
        {
            let shown = match self.workspaces[i].displayed_on {
                Some(d) => d == display_id,
                None => false,
            };
            if shown {
                proof {
                    assert(self@.shows(display_id)(i as int));
                    lemma_first_hit(self@.list.len(), self@.shows(display_id), i as int);
                }
                return Some(i);
            }
            assert(!self@.shows(display_id)(i as int));
            i += 1;
        }
        None
    }

    /// The workspace displayed on `display_id`.
    pub fn displayed_on(&self, display_id: DisplayId) -> (name: Option<WorkspaceName>)
        ensures
            name == self@.displayed_on(display_id),
    {
        match self.displayed_at(display_id) {
            Some(i) => Some(self.workspaces[i].name.clone()),
            None => None,
        }
    }

    pub fn display_of(&self, name: &WorkspaceName) -> (display_id: Option<DisplayId>)
        ensures
            display_id == self@.display_of(*name),
    {
        match self.find(name) {
            Some(i) => self.workspaces[i].displayed_on,
            None => None,
        }
    }

    pub fn is_displayed(&self, name: &WorkspaceName) -> (displayed: bool)
        ensures
            displayed == self@.is_displayed(*name),
    {
        self.display_of(name).is_some()
    }

    pub fn workspace_of(&self, window: isize) -> (name: Option<&WorkspaceName>)
        ensures
            match name {
                Some(found) => self@.workspace_of(window) == Some(*found),
                None => self@.workspace_of(window) is None,
            },
    {
        self.members.get(window)
    }

    /// The windows that belong to `name`, smallest handle first.
    pub fn members_of(&self, name: &WorkspaceName) -> (windows: Vec<isize>)
        ensures
            windows@ == self@.members_of(*name),
    {
        let keys = self.members.keys();
        let ghost all = keys@;
        let ghost pred = self@.belongs(*name);
        let mut windows: Vec<isize> = Vec::new();
        let mut i: usize = 0;
        while i < keys.len()
            invariant
                i <= keys@.len(),
                keys@ == all,
                keys@.to_set() == self@.members.dom(),
                pred == self@.belongs(*name),
                windows@ == all.take(i as int).filter(pred),
            decreases keys@.len() - i,
        {
            assert(keys@.to_set().contains(keys@[i as int]));
            let mine = match self.members.get(keys[i]) {
                Some(owner) => owner.collides_with(name),
                None => false,
            };
            proof {
                lemma_filter_step(all, i as int, pred);
            }
            if mine {
                windows.push(keys[i]);
            }
            i += 1;
        }
        assert(all.take(all.len() as int) =~= all);
        windows
    }

    /// Adds a hidden, empty workspace, keeping the pool in name order.
    pub fn create(&mut self, name: WorkspaceName, origin: WorkspaceOrigin)
        ensures
            final(self)@ == old(self)@.created(name, origin),
    {
        let mut at: usize = 0;
        while at < self.workspaces.len() && !name.before(&self.workspaces[at].name)
            invariant
                *self == *old(self),
                at <= self.workspaces@.len(),
                first_index(at as nat, self@.follows(name)) is None,
            decreases self.workspaces@.len() - at,
        {
            assert(!self@.follows(name)(at as int));
            at += 1;
        }
        proof {
            if at < self.workspaces@.len() {
                assert(self@.follows(name)(at as int));
                lemma_first_hit(self@.list.len(), self@.follows(name), at as int);
            }
        }
        self.workspaces.insert(
            at,
            Workspace {
                name,
                origin,
                displayed_on: None,
                last_focused: None,
                stashed_tree: None,
                pending_tree: None,
                pending_display: None,
                saved: None,
            },
        );
    }

    pub fn remove(&mut self, i: usize)
        requires
            i < old(self)@.list.len(),
        ensures
            final(self)@ == old(self)@.removed(i as int),
    {
        self.workspaces.remove(i);
    }

    /// Displays workspace `i` on `display_id`, hiding whatever was there.
    pub fn display(&mut self, i: usize, display_id: DisplayId)
        requires
            i < old(self)@.list.len(),
        ensures
            final(self)@ == old(self)@.displaying(i as int, display_id),
    {
        let ghost after = self@.displaying(i as int, display_id);
        let mut j: usize = 0;
        while j < self.workspaces.len()
            invariant
                j <= self.workspaces@.len(),
                self.workspaces@.len() == old(self).workspaces@.len(),
                self.members == old(self).members,
                after == old(self)@.displaying(i as int, display_id),
                forall|k: int| 0 <= k < j ==> self.workspaces@[k] == after.list[k],
                forall|k: int|
                    j <= k < self.workspaces@.len() ==> self.workspaces@[k] == old(
                        self,
                    ).workspaces@[k],
            decreases self.workspaces@.len() - j,
        {
            if j == i {
                self.workspaces[j].displayed_on = Some(display_id);
            } else {
                let shown = match self.workspaces[j].displayed_on {
                    Some(d) => d == display_id,
                    None => false,
                };
                if shown {
                    self.workspaces[j].displayed_on = None;
                }
            }
            j += 1;
        }
        assert(self@.list =~= after.list);
    }

    pub fn hide_display(&mut self, display_id: DisplayId)
        ensures
            final(self)@ == old(self)@.hiding(display_id),
    {
        let ghost after = self@.hiding(display_id);
        let mut j: usize = 0;
        while j < self.workspaces.len()
            invariant
                j <= self.workspaces@.len(),
                self.workspaces@.len() == old(self).workspaces@.len(),
                self.members == old(self).members,
                after == old(self)@.hiding(display_id),
                forall|k: int| 0 <= k < j ==> self.workspaces@[k] == after.list[k],
                forall|k: int|
                    j <= k < self.workspaces@.len() ==> self.workspaces@[k] == old(
                        self,
                    ).workspaces@[k],
            decreases self.workspaces@.len() - j,
        {
            let shown = match self.workspaces[j].displayed_on {
                Some(d) => d == display_id,
                None => false,
            };
            if shown {
                self.workspaces[j].displayed_on = None;
            }
            j += 1;
        }
        assert(self@.list =~= after.list);
    }

    /// Exchanges what two displays show.
    pub fn swap_displays(&mut self, a: DisplayId, b: DisplayId)
        ensures
            final(self)@ == old(self)@.swapped(a, b),
    {
        let ghost after = self@.swapped(a, b);
        let mut j: usize = 0;
        while j < self.workspaces.len()
            invariant
                j <= self.workspaces@.len(),
                self.workspaces@.len() == old(self).workspaces@.len(),
                self.members == old(self).members,
                after == old(self)@.swapped(a, b),
                forall|k: int| 0 <= k < j ==> self.workspaces@[k] == after.list[k],
                forall|k: int|
                    j <= k < self.workspaces@.len() ==> self.workspaces@[k] == old(
                        self,
                    ).workspaces@[k],
            decreases self.workspaces@.len() - j,
        {
            match self.workspaces[j].displayed_on {
                Some(d) => {
                    if d == a {
                        self.workspaces[j].displayed_on = Some(b);
                    } else if d == b {
                        self.workspaces[j].displayed_on = Some(a);
                    }
                },
                None => {},
            }
            j += 1;
        }
        assert(self@.list =~= after.list);
    }

    /// Hides every workspace whose display is not in `keep`.
    pub fn retain_displays(&mut self, keep: &IdSet)
        ensures
            final(self)@ == old(self)@.keeping_displays(keep@),
    {
        let ghost after = self@.keeping_displays(keep@);
        let mut j: usize = 0;
        while j < self.workspaces.len()
            invariant
                j <= self.workspaces@.len(),
                self.workspaces@.len() == old(self).workspaces@.len(),
                self.members == old(self).members,
                after == old(self)@.keeping_displays(keep@),
                forall|k: int| 0 <= k < j ==> self.workspaces@[k] == after.list[k],
                forall|k: int|
                    j <= k < self.workspaces@.len() ==> self.workspaces@[k] == old(
                        self,
                    ).workspaces@[k],
            decreases self.workspaces@.len() - j,
        {
            match self.workspaces[j].displayed_on {
                Some(d) => {
                    if !keep.contains(d.0) {
                        self.workspaces[j].displayed_on = None;
                    }
                },
                None => {},
            }
            j += 1;
        }
        assert(self@.list =~= after.list);
    }

    pub fn assign(&mut self, window: isize, name: &WorkspaceName)
        ensures
            final(self)@ == old(self)@.assigned(window, *name),
    {
        self.members.insert(window, name.clone());
    }

    /// Forgets every window that is not in `keep`.
    pub fn retain_members(&mut self, keep: &IdSet)
        ensures
            final(self)@ == old(self)@.keeping_members(keep@),
    {
        let ghost after = self@.keeping_members(keep@);
        let mut j: usize = 0;
        while j < self.workspaces.len()
            invariant
                j <= self.workspaces@.len(),
                self.workspaces@.len() == old(self).workspaces@.len(),
                self.members == old(self).members,
                after == old(self)@.keeping_members(keep@),
                forall|k: int| 0 <= k < j ==> self.workspaces@[k] == after.list[k],
                forall|k: int|
                    j <= k < self.workspaces@.len() ==> self.workspaces@[k] == old(
                        self,
                    ).workspaces@[k],
            decreases self.workspaces@.len() - j,
        {
            match self.workspaces[j].last_focused {
                Some(w) => {
                    if !keep.contains(w.0) {
                        self.workspaces[j].last_focused = None;
                    }
                },
                None => {},
            }
            j += 1;
        }
        self.members.retain(keep);
        assert(self@.list =~= after.list);
    }

    /// Remembers `window` as its workspace's last focused one.
    pub fn note_focus(&mut self, window: WindowId)
        ensures
            final(self)@ == old(self)@.focused(window),
    {
        let found = match self.members.get(window.0) {
            Some(name) => self.find(name),
            None => None,
        };
        match found {
            Some(i) => {
                self.workspaces[i].last_focused = Some(window);
            },
            None => {},
        }
    }
}

impl Clone for WorkspacePool {
    fn clone(&self) -> (copy: WorkspacePool)
        ensures
            copy@ == self@,
    {
        let mut workspaces: Vec<Workspace> = Vec::new();
        let mut i: usize = 0;
        while i < self.workspaces.len()
            invariant
                i <= self.workspaces@.len(),
                workspaces@ == self.workspaces@.take(i as int),
            decreases self.workspaces@.len() - i,
        {
            workspaces.push(self.workspaces[i].clone());
            i += 1;
        }
        assert(workspaces@ =~= self.workspaces@);
        let members = self.members.clone();
        assert(members@ =~= self.members@);
        WorkspacePool { workspaces, members }
    }
}

/// Filtering one element further.
pub proof fn lemma_filter_step<A>(list: Seq<A>, i: int, keep: spec_fn(A) -> bool)
    requires
        0 <= i < list.len(),
    ensures
        list.take(i + 1).filter(keep) == if keep(list[i]) {
            list.take(i).filter(keep).push(list[i])
        } else {
            list.take(i).filter(keep)
        },
{
    reveal(Seq::filter);
    assert(list.take(i + 1).drop_last() =~= list.take(i));
    assert(list.take(i + 1).last() == list[i]);
}

} // verus!
