//! What observations do to the state: migrating windows off vanished
//! displays, and rebuilding the inventory from one batch of windows.

use vstd::prelude::*;

verus! {

use crate::answers::{Answers, DormantPosition, Query, Question, TreeChange};
use crate::geometry::{center_distance, center_distance_of, Rect, WindowId};
use crate::name::RequestedName;
use crate::placement::reached;
use crate::state::{
    EngineEffect, EngineState, Intent, Model, PersistenceIntent, RuleWorkspaceRefusal,
};
use crate::table::{ascending, sorted, IdSet, Table};
use crate::text::copy_option;
use crate::topology::{connected, display_at, find_display, is_connected};
use crate::window::{
    eligibility, eligibility_for, first_placement, same_inventories, same_inventory, track,
    Display, EligibilityReason, ManageAction, ManagedWindow, Window, WindowPlacement,
};
use crate::workspace::{lemma_filter_step, Workspace};

/// The display among the first `n` whose center is nearest, the earliest of
/// those where several are.
pub open spec fn nearest(displays: Seq<Display>, from: Rect, n: int) -> int
    decreases n,
{
    if n <= 1 {
        0
    } else {
        let best = nearest(displays, from, n - 1);
        if center_distance(displays[n - 1].full_bounds, from) < center_distance(
            displays[best].full_bounds,
            from,
        ) {
            n - 1
        } else {
            best
        }
    }
}

/// Whether `a` is the better home for focus than `b`: nearer, or as near and
/// primary, or with the smaller handle.
pub open spec fn closer(a: Display, b: Display, from: Rect) -> bool {
    let da = center_distance(a.full_bounds, from);
    let db = center_distance(b.full_bounds, from);
    if da != db {
        da < db
    } else if a.is_primary != b.is_primary {
        a.is_primary
    } else {
        a.id.0 < b.id.0
    }
}

pub open spec fn closest(displays: Seq<Display>, from: Rect, n: int) -> int
    decreases n,
{
    if n <= 1 {
        0
    } else {
        let best = closest(displays, from, n - 1);
        if closer(displays[n - 1], displays[best], from) {
            n - 1
        } else {
            best
        }
    }
}

proof fn lemma_nearest_in_range(displays: Seq<Display>, from: Rect, n: int)
    requires
        0 < n <= displays.len(),
    ensures
        0 <= nearest(displays, from, n) < n,
    decreases n,
{
    if n > 1 {
        lemma_nearest_in_range(displays, from, n - 1);
    }
}

proof fn lemma_closest_in_range(displays: Seq<Display>, from: Rect, n: int)
    requires
        0 < n <= displays.len(),
    ensures
        0 <= closest(displays, from, n) < n,
    decreases n,
{
    if n > 1 {
        lemma_closest_in_range(displays, from, n - 1);
    }
}

/// The nearest display is no farther than any other.
pub proof fn lemma_nearest_is_nearest(displays: Seq<Display>, from: Rect, n: int, i: int)
    requires
        0 <= i < n <= displays.len(),
    ensures
        0 <= nearest(displays, from, n) < n,
        center_distance(displays[nearest(displays, from, n)].full_bounds, from)
            <= center_distance(displays[i].full_bounds, from),
    decreases n,
{
    lemma_nearest_in_range(displays, from, n);
    if n > 1 && i < n - 1 {
        lemma_nearest_is_nearest(displays, from, n - 1, i);
    }
}

fn find_nearest(displays: &Vec<Display>, from: Rect) -> (at: usize)
    requires
        displays@.len() > 0,
    ensures
        at == nearest(displays@, from, displays@.len() as int),
        at < displays@.len(),
{
    let mut best: usize = 0;
    let mut n: usize = 1;
    while n < displays.len()
        invariant
            1 <= n <= displays@.len(),
            best < n,
            best == nearest(displays@, from, n as int),
        decreases displays@.len() - n,
    {
        if center_distance_of(displays[n].full_bounds, from) < center_distance_of(
            displays[best].full_bounds,
            from,
        ) {
            best = n;
        }
        n += 1;
    }
    best
}

fn is_closer(a: &Display, b: &Display, from: Rect) -> (better: bool)
    ensures
        better == closer(*a, *b, from),
{
    let da = center_distance_of(a.full_bounds, from);
    let db = center_distance_of(b.full_bounds, from);
    if da != db {
        da < db
    } else if a.is_primary != b.is_primary {
        a.is_primary
    } else {
        a.id.0 < b.id.0
    }
}

fn find_closest(displays: &Vec<Display>, from: Rect) -> (at: usize)
    requires
        displays@.len() > 0,
    ensures
        at == closest(displays@, from, displays@.len() as int),
        at < displays@.len(),
{
    let mut best: usize = 0;
    let mut n: usize = 1;
    while n < displays.len()
        invariant
            1 <= n <= displays@.len(),
            best < n,
            best == closest(displays@, from, n as int),
        decreases displays@.len() - n,
    {
        if is_closer(&displays[n], &displays[best], from) {
            best = n;
        }
        n += 1;
    }
    best
}

/// A workspace a rule wants a new window in.
pub struct RuleTarget {
    pub window_id: WindowId,
    pub rule_id: Option<String>,
    pub request: RequestedName,
}

impl Model {
    /// A window on a display that `survivors` lacks carried to the nearest of
    /// them, keeping its ratio.
    pub open spec fn window_migrated(self, a: Answers, survivors: Seq<Display>, id: isize) -> Result<
        Model,
        Query,
    > {
        let placement = self.windows[id];
        match display_at(self.displays, placement.display_id) {
            Some(at) => if connected(survivors, placement.display_id) {
                Ok(self)
            } else {
                let old = self.displays[at];
                let home = survivors[nearest(survivors, old.full_bounds, survivors.len() as int)];
                match a.thrown_spec(placement.bounds, old.work_area, home.work_area) {
                    Err(query) => Err(query),
                    Ok(bounds) => Ok(
                        Model {
                            windows: self.windows.insert(
                                id,
                                WindowPlacement { display_id: home.id, bounds, ..placement },
                            ),
                            ..self
                        }.inventory_moved(WindowId(id), home.id, bounds).effect(
                            EngineEffect::PlaceWindow {
                                window_id: WindowId(id),
                                display_id: home.id,
                                bounds,
                            },
                        ),
                    ),
                }
            },
            None => Ok(self),
        }
    }

    pub open spec fn windows_migrated(
        self,
        a: Answers,
        survivors: Seq<Display>,
        ids: Seq<isize>,
        i: int,
    ) -> Result<Model, Query>
        decreases ids.len() - i,
    {
        if i >= ids.len() {
            Ok(self)
        } else {
            match self.window_migrated(a, survivors, ids[i]) {
                Ok(next) => next.windows_migrated(a, survivors, ids, i + 1),
                Err(query) => Err(query),
            }
        }
    }

    /// Every window on a vanished display carried to a surviving one.
    #[verifier::opaque]
    pub open spec fn orphans_migrated(self, a: Answers, survivors: Seq<Display>) -> Result<
        Model,
        Query,
    > {
        if survivors.len() == 0 {
            Ok(self)
        } else {
            self.windows_migrated(a, survivors, sorted(self.windows.dom()), 0)
        }
    }

    /// Focus moved off a vanished display to the best surviving one.
    #[verifier::opaque]
    pub open spec fn focus_migrated(self, survivors: Seq<Display>) -> Model {
        match self.focused_display {
            None => self,
            Some(focused) => if connected(survivors, focused) {
                self
            } else {
                Model {
                    focused_display: match display_at(self.displays, focused) {
                        Some(at) => if survivors.len() == 0 {
                            None
                        } else {
                            Some(
                                survivors[closest(
                                    survivors,
                                    self.displays[at].full_bounds,
                                    survivors.len() as int,
                                )].id,
                            )
                        },
                        None => None,
                    },
                    ..self
                }
            },
        }
    }

    /// The eligibility of a freshly observed window.
    pub open spec fn observed_eligibility(
        self,
        window: Window,
        action: ManageAction,
    ) -> EligibilityReason {
        let open = self.breaker_open(window.id.0);
        if self.session_tiled.contains(window.id.0) {
            eligibility(window, ManageAction::Tile, open)
        } else if self.session_floating.contains(window.id.0) {
            EligibilityReason::SessionFloating
        } else {
            eligibility(window, action, open)
        }
    }

    pub open spec fn tracking(self, window: Window) -> Model {
        if self.windows.contains_key(window.id.0) {
            self
        } else {
            Model {
                windows: self.windows.insert(
                    window.id.0,
                    first_placement(window.display_id, window.bounds),
                ),
                ..self
            }
        }
    }

    /// Every observed window from `i` on resolved by the rules: excluded, or
    /// recorded in `next`, with the workspace a rule wants a new one in.
    pub open spec fn resolved(
        self,
        a: Answers,
        observed: Seq<Window>,
        i: int,
        next: Map<isize, ManagedWindow>,
        targets: Seq<RuleTarget>,
    ) -> Result<(Model, Map<isize, ManagedWindow>, Seq<RuleTarget>), Query>
        decreases observed.len() - i,
    {
        if i >= observed.len() {
            Ok((self, next, targets))
        } else {
            let window = observed[i];
            match a.verdict_spec(self.rules, window) {
                Err(query) => Err(query),
                Ok(verdict) => if verdict.manage == ManageAction::Exclude {
                    self.resolved(a, observed, i + 1, next, targets)
                } else {
                    let wanted = match verdict.workspace {
                        Some(request) => if self.inventory.contains_key(window.id.0) {
                            targets
                        } else {
                            targets.push(
                                RuleTarget {
                                    window_id: window.id,
                                    rule_id: verdict.rule_id,
                                    request,
                                },
                            )
                        },
                        None => targets,
                    };
                    let managed = ManagedWindow {
                        window,
                        action: verdict.manage,
                        eligibility: self.observed_eligibility(window, verdict.manage),
                    };
                    self.tracking(window).resolved(
                        a,
                        observed,
                        i + 1,
                        next.insert(window.id.0, managed),
                        wanted,
                    )
                },
            }
        }
    }

    pub open spec fn outside(ids: Set<isize>) -> spec_fn(isize) -> bool {
        |id: isize| !ids.contains(id)
    }

    /// Nothing is tracked, overridden or focused outside `managed`.
    pub open spec fn tracking_kept(self, managed: Set<isize>) -> Model {
        Model {
            windows: self.windows.restrict(managed),
            session_floating: self.session_floating.intersect(managed),
            session_tiled: self.session_tiled.intersect(managed),
            focused_window: match self.focused_window {
                Some(window_id) => if managed.contains(window_id.0) {
                    Some(window_id)
                } else {
                    None
                },
                None => None,
            },
            ..self
        }
    }

    /// A member of a hidden workspace that closed leaves its position in that
    /// workspace's stashed tree dormant, or gives it up where nothing could
    /// recognise it.
    pub open spec fn departed_from_stash(self, a: Answers, id: isize) -> Result<Model, Query> {
        match self.workspaces.workspace_of(id) {
            None => Ok(self),
            Some(name) => if self.workspaces.is_displayed(name) {
                Ok(self)
            } else {
                let change = if self.leaf_evidence.contains_key(id) {
                    TreeChange::MakeDormant {
                        window_id: WindowId(id),
                        dormant: DormantPosition {
                            evidence: self.leaf_evidence[id],
                            since_unix: a.now_unix,
                        },
                    }
                } else {
                    TreeChange::Remove { window_id: WindowId(id) }
                };
                let used = Model { leaf_evidence: self.leaf_evidence.remove(id), ..self };
                match self.workspaces.find(name) {
                    None => Ok(used),
                    Some(i) => match self.workspaces.list[i].stashed_tree {
                        None => Ok(used),
                        Some(tree) => match a.changed_spec(tree, change) {
                            Err(query) => Err(query),
                            Ok(changed) => Ok(
                                Model {
                                    workspaces: self.workspaces.with(
                                        i,
                                        Workspace {
                                            stashed_tree: Some(changed),
                                            ..self.workspaces.list[i]
                                        },
                                    ),
                                    ..used
                                },
                            ),
                        },
                    },
                }
            },
        }
    }

    pub open spec fn all_departed(self, a: Answers, ids: Seq<isize>, i: int) -> Result<Model, Query>
        decreases ids.len() - i,
    {
        if i >= ids.len() {
            Ok(self)
        } else {
            match self.departed_from_stash(a, ids[i]) {
                Ok(next) => next.all_departed(a, ids, i + 1),
                Err(query) => Err(query),
            }
        }
    }

    pub open spec fn refuses_within(ids: Set<isize>) -> spec_fn(RuleWorkspaceRefusal) -> bool {
        |refusal: RuleWorkspaceRefusal| ids.contains(refusal.window_id.0)
    }

    /// Parked windows from `i` on that closed: nothing is left to restore, so
    /// their entries become history.
    pub open spec fn parked_closed(self, ids: Seq<isize>, i: int) -> Model
        decreases ids.len() - i,
    {
        if i >= ids.len() {
            self
        } else {
            Model { parked_windows: self.parked_windows.remove(ids[i]), ..self }.intent(
                Intent::MarkRestored(self.parked_windows[ids[i]]),
            ).parked_closed(ids, i + 1)
        }
    }

    /// Nothing outside `managed` is remembered.
    pub open spec fn memory_kept(self, managed: Set<isize>) -> Model {
        let kept = Model {
            workspaces: self.workspaces.keeping_members(managed),
            rule_workspace_refusals: self.rule_workspace_refusals.filter(
                Model::refuses_within(managed),
            ),
            ..self
        };
        kept.parked_closed(sorted(kept.parked_windows.dom()).filter(Model::outside(managed)), 0)
    }

    /// Rule targets from `i` on applied, or refused where the pool does not
    /// hold the workspace.
    pub open spec fn targets_applied(self, targets: Seq<RuleTarget>, i: int) -> Model
        decreases targets.len() - i,
    {
        if i >= targets.len() {
            self
        } else {
            let target = targets[i];
            let next = match self.workspaces.resolve(target.request) {
                Some(at) => Model {
                    workspaces: self.workspaces.assigned(
                        target.window_id.0,
                        self.workspaces.list[at].name,
                    ),
                    ..self
                },
                None => Model {
                    rule_workspace_refusals: self.rule_workspace_refusals.push(
                        RuleWorkspaceRefusal {
                            window_id: target.window_id,
                            rule_id: target.rule_id,
                            workspace: target.request.text,
                        },
                    ),
                    ..self
                },
            };
            next.targets_applied(targets, i + 1)
        }
    }

    /// The inventory replaced by `next`, and everything that follows.
    #[verifier::opaque]
    pub open spec fn inventory_replaced(
        self,
        a: Answers,
        next: Map<isize, ManagedWindow>,
        targets: Seq<RuleTarget>,
    ) -> Result<Model, Query> {
        let managed = next.dom();
        let departed = sorted(self.inventory.dom()).filter(Model::outside(managed));
        match self.tracking_kept(managed).all_departed(a, departed, 0) {
            Err(query) => Err(query),
            Ok(left) => Ok(
                Model { inventory: next, ..left.memory_kept(managed) }.targets_applied(
                    targets,
                    0,
                ).unassigned_assigned().hidden_reconciled(a.now_unix),
            ),
        }
    }

    /// Whether adopting `next` changes anything a reflow cares about.
    pub open spec fn inventory_differs(self, next: Map<isize, ManagedWindow>) -> bool {
        !same_inventory(next, self.inventory) || !(self.windows.dom().subset_of(next.dom()))
    }

    /// The inventory rebuilt from one batch of observations, and whether
    /// anything changed.
    #[verifier::opaque]
    pub open spec fn observed(self, a: Answers, windows: Seq<Window>) -> Result<
        (Model, bool),
        Query,
    > {
        match self.resolved(a, windows, 0, Map::empty(), Seq::empty()) {
            Err(query) => Err(query),
            Ok((seen, next, targets)) => match seen.inventory_replaced(a, next, targets) {
                Err(query) => Err(query),
                Ok(model) => Ok((model, seen.inventory_differs(next))),
            },
        }
    }
}

impl EngineState {
    fn migrate_window(&mut self, a: &Answers, survivors: &Vec<Display>, id: isize) -> (reply: Result<
        (),
        Question,
    >)
        requires
            old(self)@.windows.contains_key(id),
            survivors@.len() > 0,
        ensures
            reached(reply, final(self)@, old(self)@.window_migrated(*a, survivors@, id)),
            reply is Ok ==> final(self)@.windows.dom() == old(self)@.windows.dom(),
    {
        let placement = match self.windows.get(id) {
            Some(placement) => *placement,
            None => {
                return Ok(());
            },
        };
        let at = match find_display(&self.displays, placement.display_id) {
            Some(at) => at,
            None => {
                return Ok(());
            },
        };
        if is_connected(survivors, placement.display_id) {
            return Ok(());
        }
        let old_area = self.displays[at].work_area;
        let home = find_nearest(survivors, self.displays[at].full_bounds);
        let home_id = survivors[home].id;
        match a.thrown(placement.bounds, old_area, survivors[home].work_area) {
            Ok(bounds) => {
                let mut moved = placement;
                moved.display_id = home_id;
                moved.bounds = bounds;
                self.windows.insert(id, moved);
                self.move_inventory(WindowId(id), home_id, bounds);
                self.emit(
                    EngineEffect::PlaceWindow {
                        window_id: WindowId(id),
                        display_id: home_id,
                        bounds,
                    },
                );
                assert(self@.windows.dom() =~= old(self)@.windows.dom());
                Ok(())
            },
            Err(question) => Err(question),
        }
    }

    /// Carries every window whose display is absent from `survivors` to the
    /// nearest surviving display, preserving its normalized position. Called
    /// before the new topology is committed, so the old one is still there to
    /// compute ratios from.
    pub fn migrate_orphaned_windows(&mut self, a: &Answers, survivors: &Vec<Display>) -> (reply:
        Result<(), Question>)
        ensures
            reached(reply, final(self)@, old(self)@.orphans_migrated(*a, survivors@)),
    {
        proof {
            reveal(Model::orphans_migrated);
        }
        if survivors.len() == 0 {
            return Ok(());
        }
        let ids = self.windows.keys();
        let ghost total = self@.windows_migrated(*a, survivors@, ids@, 0);
        let mut i: usize = 0;
        while i < ids.len()
            invariant
                i <= ids@.len(),
                survivors@.len() > 0,
                ids@.to_set() == self@.windows.dom(),
                old(self)@.orphans_migrated(*a, survivors@) == total,
                self@.windows_migrated(*a, survivors@, ids@, i as int) == total,
            decreases ids@.len() - i,
        {
            assert(ids@.to_set().contains(ids@[i as int]));
            match self.migrate_window(a, survivors, ids[i]) {
                Ok(_) => {},
                Err(question) => {
                    return Err(question);
                },
            }
            i += 1;
        }
        Ok(())
    }

    pub fn migrate_focused_display(&mut self, survivors: &Vec<Display>)
        ensures
            final(self)@ == old(self)@.focus_migrated(survivors@),
    {
        proof {
            reveal(Model::focus_migrated);
        }
        let focused = match self.focused_display {
            Some(focused) => focused,
            None => {
                return;
            },
        };
        if is_connected(survivors, focused) {
            return;
        }
        match find_display(&self.displays, focused) {
            Some(at) => {
                if survivors.len() == 0 {
                    self.focused_display = None;
                } else {
                    let best = find_closest(survivors, self.displays[at].full_bounds);
                    self.focused_display = Some(survivors[best].id);
                }
            },
            None => {
                self.focused_display = None;
            },
        }
    }

    fn eligibility_of_observed(&self, window: &Window, action: ManageAction) -> (reason:
        EligibilityReason)
        ensures
            reason == self@.observed_eligibility(*window, action),
    {
        let open = self.circuit_is_open(window.id);
        if self.session_tiled.contains(window.id.0) {
            eligibility_for(window, ManageAction::Tile, open)
        } else if self.session_floating.contains(window.id.0) {
            EligibilityReason::SessionFloating
        } else {
            eligibility_for(window, action, open)
        }
    }

    fn track_window(&mut self, window: &Window)
        ensures
            final(self)@ == old(self)@.tracking(*window),
    {
        if !self.windows.contains_key(window.id.0) {
            self.windows.insert(window.id.0, track(window.display_id, window.bounds));
        }
    }

    fn resolve_observed(&mut self, a: &Answers, observed: &Vec<Window>) -> (reply: Result<
        (Table<ManagedWindow>, Vec<RuleTarget>),
        Question,
    >)
        ensures
            match (reply, old(self)@.resolved(*a, observed@, 0, Map::empty(), Seq::empty())) {
                (Ok((next, targets)), Ok((model, expected, wanted))) => final(self)@ == model
                    && next@ == expected && targets@ == wanted,
                (Err(question), Err(query)) => question@ == query,
                _ => false,
            },
    {
        let ghost total = self@.resolved(*a, observed@, 0, Map::empty(), Seq::empty());
        let mut next: Table<ManagedWindow> = Table::new();
        let mut targets: Vec<RuleTarget> = Vec::new();
        let mut i: usize = 0;
        while i < observed.len()
            invariant
                i <= observed@.len(),
                total == old(self)@.resolved(*a, observed@, 0, Map::empty(), Seq::empty()),
                self@.resolved(*a, observed@, i as int, next@, targets@) == total,
            decreases observed@.len() - i,
        {
            let window = &observed[i];
            let verdict = match a.verdict(self.rules, window) {
                Ok(verdict) => verdict,
                Err(question) => {
                    return Err(question);
                },
            };
            if verdict.manage != ManageAction::Exclude {
                match verdict.workspace {
                    Some(request) => {
                        if !self.inventory.contains_key(window.id.0) {
                            targets.push(
                                RuleTarget {
                                    window_id: window.id,
                                    rule_id: verdict.rule_id,
                                    request,
                                },
                            );
                        }
                    },
                    None => {},
                }
                let managed = ManagedWindow {
                    window: window.clone(),
                    action: verdict.manage,
                    eligibility: self.eligibility_of_observed(window, verdict.manage),
                };
                self.track_window(window);
                next.insert(window.id.0, managed);
            }
            i += 1;
        }
        Ok((next, targets))
    }

    fn keep_tracking(&mut self, managed: &IdSet)
        ensures
            final(self)@ == old(self)@.tracking_kept(managed@),
    {
        self.windows.retain(managed);
        self.session_floating.retain(managed);
        self.session_tiled.retain(managed);
        match self.focused_window {
            Some(window_id) => {
                if !managed.contains(window_id.0) {
                    self.focused_window = None;
                }
            },
            None => {},
        }
    }

    fn depart_from_stash(&mut self, a: &Answers, id: isize) -> (reply: Result<(), Question>)
        ensures
            reached(reply, final(self)@, old(self)@.departed_from_stash(*a, id)),
    {
        let found = match self.workspaces.workspace_of(id) {
            Some(name) => {
                if self.workspaces.is_displayed(name) {
                    return Ok(());
                }
                self.workspaces.find(name)
            },
            None => {
                return Ok(());
            },
        };
        let evidence = self.leaf_evidence.remove(id);
        match found {
            Some(i) => {
                let mut workspace = self.workspaces.at(i).clone();
                match workspace.stashed_tree {
                    Some(tree) => {
                        let change = match evidence {
                            Some(evidence) => TreeChange::MakeDormant {
                                window_id: WindowId(id),
                                dormant: DormantPosition { evidence, since_unix: a.now_unix },
                            },
                            None => TreeChange::Remove { window_id: WindowId(id) },
                        };
                        match a.changed(tree, change) {
                            Ok(changed) => {
                                workspace.stashed_tree = Some(changed);
                                self.workspaces.set(i, workspace);
                            },
                            Err(question) => {
                                return Err(question);
                            },
                        }
                    },
                    None => {},
                }
            },
            None => {},
        }
        Ok(())
    }

    fn depart_all(&mut self, a: &Answers, ids: &Vec<isize>) -> (reply: Result<(), Question>)
        ensures
            reached(reply, final(self)@, old(self)@.all_departed(*a, ids@, 0)),
    {
        let ghost total = self@.all_departed(*a, ids@, 0);
        let mut i: usize = 0;
        while i < ids.len()
            invariant
                i <= ids@.len(),
                total == old(self)@.all_departed(*a, ids@, 0),
                self@.all_departed(*a, ids@, i as int) == total,
            decreases ids@.len() - i,
        {
            match self.depart_from_stash(a, ids[i]) {
                Ok(_) => {},
                Err(question) => {
                    return Err(question);
                },
            }
            i += 1;
        }
        Ok(())
    }

    fn keep_memory(&mut self, managed: &IdSet)
        ensures
            final(self)@ == old(self)@.memory_kept(managed@),
    {
        self.workspaces.retain_members(managed);
        let ghost pred = Model::refuses_within(managed@);
        let ghost all = self.rule_workspace_refusals@;
        let ghost start = self@;
        let mut left: Vec<RuleWorkspaceRefusal> = Vec::new();
        let mut i: usize = 0;
        while i < self.rule_workspace_refusals.len()
            invariant
                i <= self.rule_workspace_refusals@.len(),
                self@ == start,
                all == self.rule_workspace_refusals@,
                pred == Model::refuses_within(managed@),
                left@ == all.take(i as int).filter(pred),
            decreases self.rule_workspace_refusals@.len() - i,
        {
            proof {
                lemma_filter_step(all, i as int, pred);
            }
            if managed.contains(self.rule_workspace_refusals[i].window_id.0) {
                left.push(self.rule_workspace_refusals[i].clone());
            }
            i += 1;
        }
        assert(all.take(all.len() as int) =~= all);
        self.rule_workspace_refusals = left;
        let ghost kept = self@;
        let parked = self.parked_windows.keys();
        let closed = ids_outside(&parked, managed);
        let ghost total = self@.parked_closed(closed@, 0);
        proof {
            assert forall|k: int| 0 <= k < closed@.len() implies kept.parked_windows.contains_key(
                #[trigger] closed@[k],
            ) by {
                assert(parked@.contains(closed@[k]));
                assert(parked@.to_set().contains(closed@[k]));
            }
        }
        let mut i: usize = 0;
        while i < closed.len()
            invariant
                i <= closed@.len(),
                ascending(closed@),
                forall|k: int|
                    i <= k < closed@.len() ==> self@.parked_windows.contains_key(
                        #[trigger] closed@[k],
                    ),
                self@.parked_closed(closed@, i as int) == total,
            decreases closed@.len() - i,
        {
            let id = closed[i];
            assert(self@.parked_windows.contains_key(closed@[i as int]));
            match self.parked_windows.remove(id) {
                Some(entry_id) => {
                    self.record(PersistenceIntent::MarkRestored(entry_id));
                },
                None => {},
            }
            i += 1;
        }
    }

    fn apply_targets(&mut self, targets: &Vec<RuleTarget>)
        ensures
            final(self)@ == old(self)@.targets_applied(targets@, 0),
    {
        let ghost total = self@.targets_applied(targets@, 0);
        let mut i: usize = 0;
        while i < targets.len()
            invariant
                i <= targets@.len(),
                self@.targets_applied(targets@, i as int) == total,
            decreases targets@.len() - i,
        {
            let target = &targets[i];
            match self.workspaces.resolve(&target.request) {
                Some(at) => {
                    let name = self.workspaces.at(at).name.clone();
                    self.workspaces.assign(target.window_id.0, &name);
                },
                None => {
                    self.rule_workspace_refusals.push(
                        RuleWorkspaceRefusal {
                            window_id: target.window_id,
                            rule_id: copy_option(&target.rule_id),
                            workspace: target.request.text.clone(),
                        },
                    );
                },
            }
            i += 1;
        }
    }

    fn replace_inventory(
        &mut self,
        a: &Answers,
        next: Table<ManagedWindow>,
        targets: &Vec<RuleTarget>,
    ) -> (reply: Result<(), Question>)
        ensures
            reached(reply, final(self)@, old(self)@.inventory_replaced(*a, next@, targets@)),
    {
        proof {
            reveal(Model::inventory_replaced);
        }
        let managed = next.ids();
        let known = self.inventory.keys();
        let departed = ids_outside(&known, &managed);
        self.keep_tracking(&managed);
        match self.depart_all(a, &departed) {
            Ok(_) => {},
            Err(question) => {
                return Err(question);
            },
        }
        self.keep_memory(&managed);
        self.inventory = next;
        self.apply_targets(targets);
        self.assign_unassigned_windows();
        self.reconcile_hidden_workspace_windows(a.now_unix);
        Ok(())
    }

    fn differs_from(&self, next: &Table<ManagedWindow>) -> (differs: bool)
        ensures
            differs == self@.inventory_differs(next@),
    {
        if !same_inventories(next, &self.inventory) {
            return true;
        }
        let ids = self.windows.keys();
        let mut i: usize = 0;
        while i < ids.len()
            invariant
                i <= ids@.len(),
                ids@.to_set() == self@.windows.dom(),
                forall|k: int| 0 <= k < i ==> next@.contains_key(#[trigger] ids@[k]),
            decreases ids@.len() - i,
        {
            if !next.contains_key(ids[i]) {
                assert(ids@.to_set().contains(ids@[i as int]));
                assert(self@.windows.dom().contains(ids@[i as int]));
                return true;
            }
            i += 1;
        }
        assert forall|id: isize| self@.windows.dom().contains(id) implies #[trigger] next@.dom().contains(
            id,
        ) by {
            assert(ids@.to_set().contains(id));
            let k = choose|k: int| 0 <= k < ids@.len() && ids@[k] == id;
            assert(next@.contains_key(ids@[k]));
        }
        false
    }

    /// Rebuilds the inspectable inventory from one normalized observation
    /// batch. Returns whether anything changed.
    pub fn replace_inventory_from_observations(&mut self, a: &Answers, observed: &Vec<Window>)
        -> (reply: Result<bool, Question>)
        ensures
            match (reply, old(self)@.observed(*a, observed@)) {
                (Ok(changed), Ok((model, expected))) => changed == expected && final(self)@
                    == model,
                (Err(question), Err(query)) => question@ == query,
                _ => false,
            },
    {
        proof {
            reveal(Model::observed);
        }
        let (next, targets) = match self.resolve_observed(a, observed) {
            Ok(resolved) => resolved,
            Err(question) => {
                return Err(question);
            },
        };
        let changed = self.differs_from(&next);
        match self.replace_inventory(a, next, &targets) {
            Ok(_) => Ok(changed),
            Err(question) => Err(question),
        }
    }
}

/// Those of `ids` that are not in `set`.
pub fn ids_outside(ids: &Vec<isize>, set: &IdSet) -> (left: Vec<isize>)
    requires
        ascending(ids@),
    ensures
        left@ == ids@.filter(Model::outside(set@)),
        ascending(left@),
        forall|k: int| 0 <= k < left@.len() ==> ids@.contains(#[trigger] left@[k]),
{
    let ghost pred = Model::outside(set@);
    let mut left: Vec<isize> = Vec::new();
    let mut i: usize = 0;
    while i < ids.len()
        invariant
            i <= ids@.len(),
            ascending(ids@),
            pred == Model::outside(set@),
            left@ == ids@.take(i as int).filter(pred),
            ascending(left@),
            forall|k: int| 0 <= k < left@.len() ==> ids@.contains(#[trigger] left@[k]),
            forall|k: int|
                #![trigger left@[k]]
                0 <= k < left@.len() && i < ids@.len() ==> left@[k] < ids@[i as int],
        decreases ids@.len() - i,
    {
        proof {
            lemma_filter_step(ids@, i as int, pred);
        }
        let ghost before = left@;
        if !set.contains(ids[i]) {
            left.push(ids[i]);
        }
        proof {
            if i + 1 < ids@.len() {
                assert(ids@[i as int] < ids@[i + 1]);
            }
            assert(ids@.contains(ids@[i as int]));
            assert forall|k: int| 0 <= k < left@.len() implies ids@.contains(#[trigger] left@[k]) by {
                if k < before.len() {
                    assert(left@[k] == before[k]);
                }
            }
            assert forall|k: int|
                #![trigger left@[k]]
                0 <= k < left@.len() && i + 1 < ids@.len() implies left@[k] < ids@[i + 1] by {
                if k < before.len() {
                    assert(left@[k] == before[k]);
                }
            }
            assert forall|x: int, y: int| 0 <= x < y < left@.len() implies left@[x] < left@[y] by {
                assert(left@[x] == before[x]);
                if y < before.len() {
                    assert(left@[y] == before[y]);
                }
            }
        }
        i += 1;
    }
    assert(ids@.take(ids@.len() as int) =~= ids@);
    left
}

} // verus!
