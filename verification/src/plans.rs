//! What each workspace command would do, decided without doing it.
//!
//! The same functions answer a preflight and drive the reducer, so a caller
//! is never told something different from what happens.

use vstd::prelude::*;

verus! {

use crate::answers::{told, Answers, Query, Question};
use crate::geometry::{DisplayId, WindowId};
use crate::name::{request_for, NameCheck, RequestedName, WorkspaceName};
use crate::outcome::{
    ParkingRefusal, PersistenceHealth, SwitchPlan, WorkspaceCreateApplied, WorkspaceDeleteApplied,
    WorkspaceFocusApplied, WorkspaceMoveApplied, WorkspaceRefusal, WorkspaceSwitchPlan,
    WorkspaceSwitchingStatus,
};
use crate::parking::plan_parking_authorization;
use crate::state::{EngineState, Model};
use crate::text::{first_index, lemma_first_hit};
use crate::topology::{connected, is_connected};
use crate::window::WindowLifecycle;
use crate::workspace::{lemma_filter_step, WorkspaceOrigin};

/// A plan against what it should be.
pub open spec fn planned<T: View, E>(plan: Result<T, E>, expected: Result<T::V, E>) -> bool {
    match (plan, expected) {
        (Ok(value), Ok(view)) => value@ == view,
        (Err(error), Err(other)) => error == other,
        _ => false,
    }
}

impl Model {
    /// The workspace a request names, or the refusal.
    pub open spec fn required(self, request: RequestedName) -> Result<int, WorkspaceRefusal> {
        match self.workspaces.resolve(request) {
            Some(i) => Ok(i),
            None => Err(WorkspaceRefusal::UnknownWorkspace { name: request.text }),
        }
    }

    pub open spec fn create_plan(self, request: RequestedName) -> Result<
        WorkspaceCreateApplied,
        WorkspaceRefusal,
    > {
        match request.name {
            NameCheck::Invalid(reason) => Err(WorkspaceRefusal::InvalidName { reason }),
            NameCheck::Valid(name) => match self.workspaces.get(name) {
                Some(existing) => Err(WorkspaceRefusal::AlreadyExists { name: existing.name }),
                None => Ok(WorkspaceCreateApplied { name }),
            },
        }
    }

    /// How many dormant positions a hidden workspace still owns.
    pub open spec fn dormant_positions(self, a: Answers, i: int) -> Result<nat, Query> {
        match self.workspaces.list[i].stashed_tree {
            Some(tree) => match a.dormant_spec(tree) {
                Ok(slots) => Ok(slots.len()),
                Err(query) => Err(query),
            },
            None => Ok(0),
        }
    }

    /// Only a hidden workspace that owns neither windows nor dormant
    /// positions and that configuration does not declare may be deleted.
    pub open spec fn delete_plan(self, a: Answers, request: RequestedName) -> Result<
        Result<WorkspaceDeleteApplied, WorkspaceRefusal>,
        Query,
    > {
        match self.required(request) {
            Err(refusal) => Ok(Err(refusal)),
            Ok(i) => {
                let workspace = self.workspaces.list[i];
                let name = workspace.name;
                match workspace.displayed_on {
                    Some(display_id) => Ok(Err(WorkspaceRefusal::Displayed { name, display_id })),
                    None => match self.dormant_positions(a, i) {
                        Err(query) => Err(query),
                        Ok(dormant) => {
                            let live = self.workspaces.members_of(name).len();
                            if live > 0 || dormant > 0 {
                                Ok(
                                    Err(
                                        WorkspaceRefusal::NotEmpty {
                                            name,
                                            live_members: live as usize,
                                            dormant_positions: dormant as usize,
                                        },
                                    ),
                                )
                            } else if workspace.origin == WorkspaceOrigin::Configuration {
                                Ok(Err(WorkspaceRefusal::DeclaredByConfiguration { name }))
                            } else {
                                Ok(Ok(WorkspaceDeleteApplied { name }))
                            }
                        },
                    },
                }
            },
        }
    }

    /// The members from `i` on that have to leave the screen: those that are
    /// live, not parked and not minimized. A full-screen one refuses.
    pub open spec fn leaving(
        self,
        name: WorkspaceName,
        members: Seq<isize>,
        i: int,
        done: Seq<WindowId>,
    ) -> Result<Seq<WindowId>, WorkspaceRefusal>
        decreases members.len() - i,
    {
        if i >= members.len() {
            Ok(done)
        } else {
            let id = members[i];
            if !self.inventory.contains_key(id) || self.parked_windows.contains_key(id) {
                self.leaving(name, members, i + 1, done)
            } else if self.inventory[id].window.lifecycle == WindowLifecycle::Fullscreen {
                Err(WorkspaceRefusal::FullscreenMember { name, window_id: WindowId(id) })
            } else if self.inventory[id].window.lifecycle == WindowLifecycle::Minimized {
                self.leaving(name, members, i + 1, done)
            } else {
                self.leaving(name, members, i + 1, done.push(WindowId(id)))
            }
        }
    }

    pub open spec fn is_parked(self) -> spec_fn(isize) -> bool {
        |id: isize| self.parked_windows.contains_key(id)
    }

    /// The workspace's windows this session parked.
    pub open spec fn returning(self, name: WorkspaceName) -> Seq<WindowId> {
        self.workspaces.members_of(name).filter(self.is_parked()).map_values(
            |id: isize| WindowId(id),
        )
    }

    /// Why a window may not be parked, whatever the time.
    pub open spec fn parking_refusal(self, window_id: WindowId) -> Option<ParkingRefusal> {
        match self.parking(window_id, 0) {
            Ok(_) => None,
            Err(refusal) => Some(refusal),
        }
    }

    pub open spec fn unparkable(self, park: Seq<WindowId>) -> spec_fn(int) -> bool {
        |i: int| self.parking_refusal(park[i]) is Some
    }

    /// Whether a plan that moves windows is authorised.
    pub open spec fn authorised(self, plan: SwitchPlan) -> Result<SwitchPlan, WorkspaceRefusal> {
        let status = self.switching_status();
        if !plan.moves() {
            Ok(plan)
        } else if !(status is Experimental) {
            Err(WorkspaceRefusal::SwitchingNotAuthorised { status })
        } else if self.persistence_health is Degraded {
            Err(WorkspaceRefusal::PersistenceDegraded)
        } else {
            match first_index(plan.park.len(), self.unparkable(plan.park)) {
                Some(i) => Err(
                    WorkspaceRefusal::MemberNotParkable {
                        name: match plan.outgoing {
                            Some(name) => name,
                            None => plan.target,
                        },
                        window_id: plan.park[i],
                        reason: self.parking_refusal(plan.park[i])->0,
                    },
                ),
                None => Ok(plan),
            }
        }
    }

    pub open spec fn switch_plan_on(
        self,
        display_id: DisplayId,
        request: RequestedName,
    ) -> Result<SwitchPlan, WorkspaceRefusal> {
        match self.required(request) {
            Err(refusal) => Err(refusal),
            Ok(i) => {
                let target = self.workspaces.list[i].name;
                if self.paused {
                    Err(WorkspaceRefusal::Paused)
                } else if let Some(degraded) = self.switch_degraded {
                    Err(
                        WorkspaceRefusal::SwitchDegraded {
                            stranded_windows: degraded.stranded.len() as usize,
                        },
                    )
                } else if let Some(switch) = self.switch {
                    Err(WorkspaceRefusal::SwitchInFlight { display_id: switch.display_id })
                } else if !connected(self.displays, display_id) {
                    Err(WorkspaceRefusal::UnknownDisplay { display_id })
                } else {
                    let outgoing = self.workspaces.displayed_on(display_id);
                    let leaving = match outgoing {
                        Some(name) => self.leaving(
                            name,
                            self.workspaces.members_of(name),
                            0,
                            Seq::empty(),
                        ),
                        None => Ok(Seq::empty()),
                    };
                    match leaving {
                        Err(refusal) => Err(refusal),
                        Ok(park) => self.authorised(
                            SwitchPlan {
                                display_id,
                                target,
                                outgoing,
                                park,
                                restore: self.returning(target),
                            },
                        ),
                    }
                }
            },
        }
    }

    /// The focused display, if it is connected.
    pub open spec fn target_display(self) -> Option<DisplayId> {
        match self.focused_display {
            Some(display_id) => if connected(self.displays, display_id) {
                Some(display_id)
            } else {
                None
            },
            None => None,
        }
    }

    pub open spec fn switch_plan(self, request: RequestedName) -> Result<
        SwitchPlan,
        WorkspaceRefusal,
    > {
        match self.target_display() {
            Some(display_id) => self.switch_plan_on(display_id, request),
            None => Err(WorkspaceRefusal::NoFocusedDisplay),
        }
    }

    pub open spec fn live_at(self, members: Seq<isize>) -> spec_fn(int) -> bool {
        |i: int| self.inventory.contains_key(members[i])
    }

    /// The window of workspace `i` that gets the attention: the one that last
    /// had it, or the first live member.
    pub open spec fn attention(self, i: int) -> Option<WindowId> {
        let members = self.workspaces.members_of(self.workspaces.list[i].name);
        let fallback = match first_index(members.len(), self.live_at(members)) {
            Some(k) => Some(WindowId(members[k])),
            None => None,
        };
        match self.workspaces.list[i].last_focused {
            Some(window_id) => if self.inventory.contains_key(window_id.0) {
                Some(window_id)
            } else {
                fallback
            },
            None => fallback,
        }
    }

    pub open spec fn focus_plan(self, request: RequestedName) -> Result<
        WorkspaceFocusApplied,
        WorkspaceRefusal,
    > {
        match self.required(request) {
            Err(refusal) => Err(refusal),
            Ok(i) => {
                let name = self.workspaces.list[i].name;
                match self.workspaces.list[i].displayed_on {
                    Some(display_id) => Ok(
                        WorkspaceFocusApplied::FocusedExisting {
                            name,
                            display_id,
                            focused_window: self.attention(i),
                        },
                    ),
                    None => match self.switch_plan(request_for(name)) {
                        Err(refusal) => Err(refusal),
                        Ok(plan) => if plan.moves() {
                            Ok(
                                WorkspaceFocusApplied::SwitchStarted {
                                    name,
                                    display_id: plan.display_id,
                                    replaced: plan.outgoing,
                                    parking: plan.park.len() as usize,
                                    restoring: plan.restore.len() as usize,
                                },
                            )
                        } else {
                            Ok(
                                WorkspaceFocusApplied::Displayed {
                                    name,
                                    display_id: plan.display_id,
                                    replaced: plan.outgoing,
                                },
                            )
                        },
                    },
                }
            },
        }
    }

    pub open spec fn move_plan(self, request: RequestedName, display_id: DisplayId) -> Result<
        WorkspaceMoveApplied,
        WorkspaceRefusal,
    > {
        match self.required(request) {
            Err(refusal) => Err(refusal),
            Ok(i) => {
                let name = self.workspaces.list[i].name;
                if self.paused {
                    Err(WorkspaceRefusal::Paused)
                } else if let Some(switch) = self.switch {
                    Err(WorkspaceRefusal::SwitchInFlight { display_id: switch.display_id })
                } else {
                    match self.workspaces.list[i].displayed_on {
                        None => Err(WorkspaceRefusal::NotDisplayed { name }),
                        Some(from_display_id) => if !connected(self.displays, display_id) {
                            Err(WorkspaceRefusal::UnknownDisplay { display_id })
                        } else if from_display_id == display_id {
                            Err(WorkspaceRefusal::AlreadyDisplayedThere { name, display_id })
                        } else {
                            Ok(
                                WorkspaceMoveApplied {
                                    name,
                                    from_display_id,
                                    to_display_id: display_id,
                                    swapped_with: self.workspaces.displayed_on(display_id),
                                },
                            )
                        },
                    }
                }
            },
        }
    }
}

impl EngineState {
    fn require(&self, request: &RequestedName) -> (at: Result<usize, WorkspaceRefusal>)
        ensures
            match (at, self@.required(*request)) {
                (Ok(i), Ok(expected)) => i == expected && i < self@.workspaces.list.len(),
                (Err(refusal), Err(expected)) => refusal == expected,
                _ => false,
            },
    {
        match self.workspaces.resolve(request) {
            Some(i) => Ok(i),
            None => Err(WorkspaceRefusal::UnknownWorkspace { name: request.text.clone() }),
        }
    }

    fn members_leaving(&self, name: &WorkspaceName) -> (park: Result<
        Vec<WindowId>,
        WorkspaceRefusal,
    >)
        ensures
            planned(
                park,
                self@.leaving(*name, self@.workspaces.members_of(*name), 0, Seq::empty()),
            ),
    {
        let members = self.workspaces.members_of(name);
        let ghost total = self@.leaving(*name, members@, 0, Seq::empty());
        let mut park: Vec<WindowId> = Vec::new();
        let mut i: usize = 0;
        while i < members.len()
            invariant
                i <= members@.len(),
                members@ == self@.workspaces.members_of(*name),
                total == self@.leaving(*name, members@, 0, Seq::empty()),
                self@.leaving(*name, members@, i as int, park@) == total,
            decreases members@.len() - i,
        {
            let id = members[i];
            match self.inventory.get(id) {
                Some(managed) => {
                    if !self.parked_windows.contains_key(id) {
                        if managed.window.lifecycle == WindowLifecycle::Fullscreen {
                            return Err(
                                WorkspaceRefusal::FullscreenMember {
                                    name: name.clone(),
                                    window_id: WindowId(id),
                                },
                            );
                        }
                        if managed.window.lifecycle != WindowLifecycle::Minimized {
                            park.push(WindowId(id));
                        }
                    }
                },
                None => {},
            }
            i += 1;
        }
        Ok(park)
    }

    fn members_returning(&self, name: &WorkspaceName) -> (restore: Vec<WindowId>)
        ensures
            restore@ == self@.returning(*name),
    {
        let members = self.workspaces.members_of(name);
        let ghost pred = self@.is_parked();
        let ghost as_window = |id: isize| WindowId(id);
        let mut restore: Vec<WindowId> = Vec::new();
        let mut i: usize = 0;
        while i < members.len()
            invariant
                i <= members@.len(),
                pred == self@.is_parked(),
                as_window == (|id: isize| WindowId(id)),
                restore@ == members@.take(i as int).filter(pred).map_values(as_window),
            decreases members@.len() - i,
        {
            let id = members[i];
            proof {
                lemma_filter_step(members@, i as int, pred);
            }
            if self.parked_windows.contains_key(id) {
                restore.push(WindowId(id));
                proof {
                    let shorter = members@.take(i as int).filter(pred);
                    assert(shorter.push(id).map_values(as_window) =~= shorter.map_values(
                        as_window,
                    ).push(WindowId(id)));
                }
            }
            i += 1;
        }
        assert(members@.take(members@.len() as int) =~= members@);
        restore
    }

    fn authorise(&self, plan: WorkspaceSwitchPlan) -> (authorised: Result<
        WorkspaceSwitchPlan,
        WorkspaceRefusal,
    >)
        ensures
            planned(authorised, self@.authorised(plan@)),
    {
        if !plan.moves_windows() {
            return Ok(plan);
        }
        let status = self.workspace_switching_status();
        match status {
            WorkspaceSwitchingStatus::Experimental => {},
            _ => {
                return Err(WorkspaceRefusal::SwitchingNotAuthorised { status });
            },
        }
        match self.persistence_health {
            PersistenceHealth::Degraded { .. } => {
                return Err(WorkspaceRefusal::PersistenceDegraded);
            },
            PersistenceHealth::Healthy { .. } => {},
        }
        let ghost p = self@.unparkable(plan.park@);
        let mut i: usize = 0;
        while i < plan.park.len()
            invariant
                i <= plan.park@.len(),
                p == self@.unparkable(plan.park@),
                first_index(i as nat, p) is None,
                plan@.moves(),
                self@.switching_status() is Experimental,
                !(self@.persistence_health is Degraded),
            decreases plan.park@.len() - i,
        {
            match plan_parking_authorization(self, plan.park[i], 0) {
                Ok(_) => {},
                Err(reason) => {
                    proof {
                        assert(p(i as int));
                        lemma_first_hit(plan.park@.len(), p, i as int);
                    }
                    let name = match &plan.outgoing {
                        Some(name) => name.clone(),
                        None => plan.target.clone(),
                    };
                    return Err(
                        WorkspaceRefusal::MemberNotParkable {
                            name,
                            window_id: plan.park[i],
                            reason,
                        },
                    );
                },
            }
            assert(!p(i as int));
            i += 1;
        }
        Ok(plan)
    }

    /// The window of workspace `i` that gets the attention.
    pub fn attention_of(&self, i: usize) -> (window_id: Option<WindowId>)
        requires
            i < self@.workspaces.list.len(),
        ensures
            window_id == self@.attention(i as int),
    {
        let workspace = self.workspaces.at(i);
        match workspace.last_focused {
            Some(window_id) => {
                if self.inventory.contains_key(window_id.0) {
                    return Some(window_id);
                }
            },
            None => {},
        }
        let members = self.workspaces.members_of(&workspace.name);
        let ghost p = self@.live_at(members@);
        let mut k: usize = 0;
        while k < members.len()
            invariant
                k <= members@.len(),
                p == self@.live_at(members@),
                first_index(k as nat, p) is None,
                members@ == self@.workspaces.members_of(self@.workspaces.list[i as int].name),
                match self@.workspaces.list[i as int].last_focused {
                    Some(window_id) => !self@.inventory.contains_key(window_id.0),
                    None => true,
                },
            decreases members@.len() - k,
        {
            if self.inventory.contains_key(members[k]) {
                proof {
                    assert(p(k as int));
                    lemma_first_hit(members@.len(), p, k as int);
                }
                return Some(WindowId(members[k]));
            }
            assert(!p(k as int));
            k += 1;
        }
        None
    }
}

/// Decides what creating a workspace would do, without doing it.
pub fn plan_workspace_create(state: &EngineState, request: &RequestedName) -> (plan: Result<
    WorkspaceCreateApplied,
    WorkspaceRefusal,
>)
    ensures
        plan == state@.create_plan(*request),
{
    match &request.name {
        NameCheck::Invalid(reason) => Err(WorkspaceRefusal::InvalidName { reason: *reason }),
        NameCheck::Valid(name) => match state.workspaces.get(name) {
            Some(existing) => Err(WorkspaceRefusal::AlreadyExists { name: existing.name.clone() }),
            None => Ok(WorkspaceCreateApplied { name: name.clone() }),
        },
    }
}

/// Decides what deleting a workspace would do, without doing it.
pub fn plan_workspace_delete(state: &EngineState, a: &Answers, request: &RequestedName) -> (plan:
    Result<Result<WorkspaceDeleteApplied, WorkspaceRefusal>, Question>)
    ensures
        told(plan, state@.delete_plan(*a, *request)),
{
    let i = match state.require(request) {
        Ok(i) => i,
        Err(refusal) => {
            return Ok(Err(refusal));
        },
    };
    let workspace = state.workspaces.at(i);
    let name = workspace.name.clone();
    match workspace.displayed_on {
        Some(display_id) => {
            return Ok(Err(WorkspaceRefusal::Displayed { name, display_id }));
        },
        None => {},
    }
    let dormant_positions = match workspace.stashed_tree {
        Some(tree) => match a.dormant(tree) {
            Ok(slots) => slots.len(),
            Err(question) => {
                return Err(question);
            },
        },
        None => 0,
    };
    let live_members = state.workspaces.members_of(&name).len();
    if live_members > 0 || dormant_positions > 0 {
        return Ok(
            Err(WorkspaceRefusal::NotEmpty { name, live_members, dormant_positions }),
        );
    }
    if workspace.origin == WorkspaceOrigin::Configuration {
        return Ok(Err(WorkspaceRefusal::DeclaredByConfiguration { name }));
    }
    Ok(Ok(WorkspaceDeleteApplied { name }))
}

/// Decides what displaying the hidden workspace on the focused monitor would
/// move, and refuses before anything does.
///
/// A switch that moves nothing is pure bookkeeping and needs neither a
/// parking site nor durable recovery data.
pub fn plan_workspace_switch(state: &EngineState, request: &RequestedName) -> (plan: Result<
    WorkspaceSwitchPlan,
    WorkspaceRefusal,
>)
    ensures
        planned(plan, state@.switch_plan(*request)),
{
    match state.focused_display {
        Some(display_id) => {
            if is_connected(&state.displays, display_id) {
                plan_workspace_switch_on(state, display_id, request)
            } else {
                Err(WorkspaceRefusal::NoFocusedDisplay)
            }
        },
        None => Err(WorkspaceRefusal::NoFocusedDisplay),
    }
}

/// Like [`plan_workspace_switch`], for a named monitor rather than the
/// focused one.
pub fn plan_workspace_switch_on(
    state: &EngineState,
    display_id: DisplayId,
    request: &RequestedName,
) -> (plan: Result<WorkspaceSwitchPlan, WorkspaceRefusal>)
    ensures
        planned(plan, state@.switch_plan_on(display_id, *request)),
{
    let i = match state.require(request) {
        Ok(i) => i,
        Err(refusal) => {
            return Err(refusal);
        },
    };
    let target = state.workspaces.at(i).name.clone();
    if state.paused {
        return Err(WorkspaceRefusal::Paused);
    }
    match &state.switch_degraded {
        Some(degraded) => {
            return Err(
                WorkspaceRefusal::SwitchDegraded {
                    stranded_windows: degraded.stranded_windows.len(),
                },
            );
        },
        None => {},
    }
    match &state.switch {
        Some(switch) => {
            return Err(WorkspaceRefusal::SwitchInFlight { display_id: switch.display_id });
        },
        None => {},
    }
    if !is_connected(&state.displays, display_id) {
        return Err(WorkspaceRefusal::UnknownDisplay { display_id });
    }
    let outgoing = state.workspaces.displayed_on(display_id);
    let park = match &outgoing {
        Some(name) => match state.members_leaving(name) {
            Ok(park) => park,
            Err(refusal) => {
                return Err(refusal);
            },
        },
        None => {
            let park: Vec<WindowId> = Vec::new();
            assert(park@ =~= Seq::<WindowId>::empty());
            park
        },
    };
    let restore = state.members_returning(&target);
    state.authorise(WorkspaceSwitchPlan { display_id, target, outgoing, park, restore })
}

/// Decides what focusing a workspace would do, without doing it.
pub fn plan_workspace_focus(state: &EngineState, request: &RequestedName) -> (plan: Result<
    WorkspaceFocusApplied,
    WorkspaceRefusal,
>)
    ensures
        plan == state@.focus_plan(*request),
{
    let i = match state.require(request) {
        Ok(i) => i,
        Err(refusal) => {
            return Err(refusal);
        },
    };
    let name = state.workspaces.at(i).name.clone();
    match state.workspaces.at(i).displayed_on {
        Some(display_id) => {
            let focused_window = state.attention_of(i);
            return Ok(WorkspaceFocusApplied::FocusedExisting { name, display_id, focused_window });
        },
        None => {},
    }
    let inner = RequestedName::for_name(&name);
    match plan_workspace_switch(state, &inner) {
        Err(refusal) => Err(refusal),
        Ok(plan) => {
            if plan.moves_windows() {
                Ok(
                    WorkspaceFocusApplied::SwitchStarted {
                        name,
                        display_id: plan.display_id,
                        parking: plan.park.len(),
                        restoring: plan.restore.len(),
                        replaced: plan.outgoing,
                    },
                )
            } else {
                Ok(
                    WorkspaceFocusApplied::Displayed {
                        name,
                        display_id: plan.display_id,
                        replaced: plan.outgoing,
                    },
                )
            }
        },
    }
}

/// Decides what moving a displayed workspace to `display_id` would do,
/// without doing it.
pub fn plan_workspace_move(
    state: &EngineState,
    request: &RequestedName,
    display_id: DisplayId,
) -> (plan: Result<WorkspaceMoveApplied, WorkspaceRefusal>)
    ensures
        plan == state@.move_plan(*request, display_id),
{
    let i = match state.require(request) {
        Ok(i) => i,
        Err(refusal) => {
            return Err(refusal);
        },
    };
    let name = state.workspaces.at(i).name.clone();
    if state.paused {
        return Err(WorkspaceRefusal::Paused);
    }
    match &state.switch {
        Some(switch) => {
            return Err(WorkspaceRefusal::SwitchInFlight { display_id: switch.display_id });
        },
        None => {},
    }
    let from_display_id = match state.workspaces.at(i).displayed_on {
        Some(from_display_id) => from_display_id,
        None => {
            return Err(WorkspaceRefusal::NotDisplayed { name });
        },
    };
    if !is_connected(&state.displays, display_id) {
        return Err(WorkspaceRefusal::UnknownDisplay { display_id });
    }
    if from_display_id == display_id {
        return Err(WorkspaceRefusal::AlreadyDisplayedThere { name, display_id });
    }
    let swapped_with = state.workspaces.displayed_on(display_id);
    Ok(WorkspaceMoveApplied { name, from_display_id, to_display_id: display_id, swapped_with })
}

} // verus!
