//! The same for switches and observations: every part of a step keeps what
//! [`steady`](crate::laws::steady::steady) says.

use vstd::prelude::*;

verus! {

use crate::answers::Answers;
use crate::geometry::{DisplayId, Rect, UndoTransactionId, WindowId};
use crate::name::WorkspaceName;
use crate::observe::RuleTarget;
use crate::outcome::{ParkingRefusal, PriorPlacement, SwitchFailure, SwitchPlan, Switching};
use crate::state::Model;
use crate::laws::steady::{
    calm, calm_or_asked, kept, lemma_sound_assigned, lemma_sound_keeping_members, lemma_sound_with,
    lemma_steady_arranged, lemma_steady_hidden_reconciled, lemma_steady_persisted,
    lemma_steady_restore_asked, lemma_steady_scope_closed, lemma_steady_tree_stashed,
    lemma_steady_unassigned_assigned, lemma_steady_workspace_shown, lemma_then, lemma_trans,
    pool_sound, tame, tame_or_asked,
};
use crate::table::sorted;
use crate::text::lemma_first_index;
use crate::window::{Display, ManagedWindow, Window};
use crate::workspace::Workspace;

pub proof fn lemma_calm_restores_emitted(m: Model, windows: Seq<WindowId>, i: int)
    ensures
        calm(m, m.restores_emitted(windows, i)),
        m.restores_emitted(windows, i).workspaces == m.workspaces,
    decreases windows.len() - i,
{
    if i < windows.len() {
        let next = m.restore_asked(windows[i]);
        lemma_steady_restore_asked(m, windows[i]);
        lemma_calm_restores_emitted(next, windows, i + 1);
        lemma_trans(m, next, m.restores_emitted(windows, i));
    }
}

pub proof fn lemma_calm_compensation_finished(m: Model, switch: Switching)
    ensures
        calm(m, m.compensation_finished(switch)),
        m.compensation_finished(switch).workspaces == m.workspaces,
{
}

pub proof fn lemma_calm_compensation_advanced(m: Model, switch: Switching)
    ensures
        calm(m, m.compensation_advanced(switch)),
        m.compensation_advanced(switch).workspaces == m.workspaces,
{
    let owed = switch.parked.filter(m.at_parking_site());
    lemma_calm_compensation_finished(m, switch);
    let moved = m.switching(
        Switching {
            phase: crate::outcome::WorkspaceSwitchPhase::CompensatingRestore,
            in_flight: owed,
            parked: owed,
            ..switch
        },
    );
    lemma_calm_restores_emitted(moved, owed, 0);
    lemma_trans(m, moved, moved.restores_emitted(owed, 0));
}

pub proof fn lemma_calm_reparks_asked(
    m: Model,
    switch: Switching,
    windows: Seq<WindowId>,
    i: int,
    now_unix: i64,
)
    ensures
        calm(m, m.reparks_asked(switch, windows, i, now_unix).0),
        m.reparks_asked(switch, windows, i, now_unix).0.workspaces == m.workspaces,
    decreases windows.len() - i,
{
    if i < windows.len() {
        let (next, moved) = m.repark_asked(switch, windows[i], now_unix);
        assert(calm(m, next));
        lemma_calm_reparks_asked(next, moved, windows, i + 1, now_unix);
        lemma_trans(m, next, m.reparks_asked(switch, windows, i, now_unix).0);
    }
}

/// Compensation never touches the pool: which workspace each display shows
/// stays what it was.
pub proof fn lemma_calm_compensating(
    m: Model,
    switch: Switching,
    reason: SwitchFailure,
    now_unix: i64,
)
    ensures
        calm(m, m.compensating(switch, reason, now_unix)),
        m.compensating(switch, reason, now_unix).workspaces == m.workspaces,
{
    let dropped = Model {
        pending_parking: m.pending_parking.filter(Model::on_its_own()),
        ..m
    };
    let abandoned = Switching {
        failure: Some(reason),
        phase: crate::outcome::WorkspaceSwitchPhase::CompensatingPark,
        queued: Seq::empty(),
        recording: Seq::empty(),
        in_flight: switch.in_flight + switch.restored,
        ..switch
    };
    let (asked, moved) = dropped.reparks_asked(abandoned, switch.restored, 0, now_unix);
    assert(calm(m, dropped));
    lemma_calm_reparks_asked(dropped, abandoned, switch.restored, 0, now_unix);
    lemma_trans(m, dropped, asked);
    lemma_calm_compensation_advanced(asked, moved);
    lemma_trans(m, asked, m.compensating(switch, reason, now_unix));
}

pub proof fn lemma_calm_compensation_begun(m: Model, reason: SwitchFailure, now_unix: i64)
    ensures
        calm(m, m.compensation_begun(reason, now_unix)),
        m.compensation_begun(reason, now_unix).workspaces == m.workspaces,
{
    match m.switch {
        Some(switch) => {
            lemma_calm_compensating(m.unswitched(), switch, reason, now_unix);
            lemma_trans(
                m,
                m.unswitched(),
                m.unswitched().compensating(switch, reason, now_unix),
            );
        },
        None => {},
    }
}

pub proof fn lemma_tame_name_shown(m: Model, name: WorkspaceName, display_id: DisplayId)
    ensures
        tame(m, m.name_shown(name, display_id)),
{
    lemma_first_index(m.workspaces.list.len(), m.workspaces.named(name.key@));
    match m.workspaces.find(name) {
        Some(i) => {
            lemma_steady_workspace_shown(m, i, display_id);
        },
        None => {},
    }
}

pub proof fn lemma_tame_displayed_now(
    m: Model,
    a: Answers,
    name: WorkspaceName,
    display_id: DisplayId,
    replaces: bool,
)
    ensures
        tame_or_asked(m, m.displayed_now(a, name, display_id, replaces)),
{
    reveal(Model::displayed_now);
    let stashed = if replaces {
        m.tree_stashed(display_id)
    } else {
        m
    };
    lemma_steady_tree_stashed(m, display_id);
    assert(calm(m, stashed));
    let named = stashed.name_shown(name, display_id);
    lemma_tame_name_shown(stashed, name, display_id);
    lemma_trans(m, stashed, named);
    let shown = Model { focused_display: Some(display_id), ..named };
    lemma_trans(m, named, shown);
    lemma_steady_arranged(shown, a);
    match shown.arranged(a) {
        Ok(next) => {
            lemma_trans(m, shown, next);
            lemma_steady_persisted(next, a);
            lemma_then(m, next, next.workspaces_persisted(a, 0));
        },
        Err(_) => {},
    }
}

pub proof fn lemma_steady_member_recorded(
    m: Model,
    window_id: WindowId,
    previous: Option<(DisplayId, Rect)>,
)
    ensures
        calm(m, m.member_recorded(window_id, previous)),
        m.member_recorded(window_id, previous).workspaces == m.workspaces,
{
}

pub proof fn lemma_steady_priors_recorded(m: Model, priors: Seq<PriorPlacement>, i: int)
    ensures
        calm(m, m.priors_recorded(priors, i)),
    decreases priors.len() - i,
{
    if i < priors.len() {
        let previous = Some((priors[i].display_id, priors[i].bounds));
        let next = m.member_recorded(priors[i].window_id, previous);
        lemma_steady_member_recorded(m, priors[i].window_id, previous);
        lemma_steady_priors_recorded(next, priors, i + 1);
        lemma_trans(m, next, m.priors_recorded(priors, i));
    }
}

pub proof fn lemma_steady_commit_scoped(m: Model, switch: Switching)
    ensures
        kept(m, m.commit_scoped(switch)),
        switch.reverses_undo is Some ==> m.commit_scoped(switch) == m,
{
    reveal(Model::commit_scoped);
    let opened = m.scope_opened(crate::commands::CommandLabel::WorkspaceFocus(switch.target));
    let captured = opened.assignment_captured(switch.display_id);
    assert(kept(m, captured));
    lemma_steady_priors_recorded(captured, switch.prior_placements, 0);
    lemma_trans(m, captured, captured.priors_recorded(switch.prior_placements, 0));
}

pub proof fn lemma_calm_commit_concluded(m: Model, switch: Switching)
    ensures
        calm(m, m.commit_concluded(switch)),
        m.commit_concluded(switch).workspaces == m.workspaces,
{
    reveal(Model::commit_concluded);
}

pub proof fn lemma_tame_committed(m: Model, a: Answers, switch: Switching)
    ensures
        tame_or_asked(m, m.committed(a, switch)),
{
    let closed = m.unswitched();
    let scoped = closed.commit_scoped(switch);
    lemma_steady_commit_scoped(closed, switch);
    lemma_trans(m, closed, scoped);
    lemma_tame_displayed_now(
        scoped,
        a,
        switch.target,
        switch.display_id,
        switch.outgoing is Some,
    );
    match scoped.displayed_now(a, switch.target, switch.display_id, switch.outgoing is Some) {
        Ok(shown) => {
            lemma_trans(m, scoped, shown);
            reveal(Model::commit_closed);
            lemma_steady_scope_closed(shown, a);
            match shown.commit_closed(a, switch) {
                Ok(done) => {
                    lemma_trans(m, shown, done);
                    assert(tame(m, done));
                    lemma_calm_commit_concluded(done, switch);
                    lemma_trans(m, done, done.commit_concluded(switch));
                },
                Err(_) => {},
            }
        },
        Err(_) => {},
    }
}

pub proof fn lemma_tame_switch_advanced(m: Model, a: Answers)
    ensures
        tame_or_asked(m, m.switch_advanced(a)),
        m.switch matches Some(switch) && switch.phase.compensating() ==> calm_or_asked(
            m,
            m.switch_advanced(a),
        ),
{
    match m.switch {
        None => {},
        Some(switch) => {
            let closed = m.unswitched();
            assert(calm(m, closed));
            lemma_calm_compensation_advanced(closed, switch);
            lemma_trans(m, closed, closed.compensation_advanced(switch));
            lemma_tame_committed(closed, a, switch);
            lemma_then(m, closed, closed.committed(a, switch));
            let owed = switch.queued.filter(closed.at_parking_site());
            let moved = closed.switching(
                Switching {
                    phase: crate::outcome::WorkspaceSwitchPhase::Restoring,
                    queued: Seq::empty(),
                    in_flight: owed,
                    restored: switch.restored + switch.queued.filter(closed.off_parking_site()),
                    ..switch
                },
            );
            assert(calm(m, moved));
            lemma_calm_restores_emitted(moved, owed, 0);
            lemma_trans(m, moved, moved.restores_emitted(owed, 0));
        },
    }
}

proof fn lemma_tame_reswitched(m: Model, a: Answers, switch: Switching)
    ensures
        tame_or_asked(m, m.unswitched().switching(switch).switch_advanced(a)),
        switch.phase.compensating() ==> calm_or_asked(
            m,
            m.unswitched().switching(switch).switch_advanced(a),
        ),
{
    let moved = m.unswitched().switching(switch);
    assert(calm(m, moved));
    lemma_tame_switch_advanced(moved, a);
    lemma_then(m, moved, moved.switch_advanced(a));
}

pub proof fn lemma_tame_window_settled(
    m: Model,
    a: Answers,
    window_id: WindowId,
    failure: Option<SwitchFailure>,
)
    ensures
        tame_or_asked(m, m.window_settled(a, window_id, failure)),
        failure is Some ==> calm_or_asked(m, m.window_settled(a, window_id, failure)),
{
    reveal(Model::window_settled);
    match m.switch {
        None => {},
        Some(switch) => {
            let heard = switch.heard(window_id);
            match failure {
                Some(reason) => {
                    lemma_tame_reswitched(m, a, switch.given_up(window_id));
                    lemma_calm_compensating(m.unswitched(), heard, reason, a.now_unix);
                    lemma_trans(
                        m,
                        m.unswitched(),
                        m.unswitched().compensating(heard, reason, a.now_unix),
                    );
                },
                None => {
                    let late = m.unswitched().landed_late(heard, window_id, a.now_unix);
                    assert(calm(m, late));
                    lemma_tame_switch_advanced(late, a);
                    lemma_then(m, late, late.switch_advanced(a));
                    lemma_tame_reswitched(
                        m,
                        a,
                        Switching { parked: heard.parked.push(window_id), ..heard },
                    );
                    lemma_tame_reswitched(
                        m,
                        a,
                        Switching { restored: heard.restored.push(window_id), ..heard },
                    );
                    lemma_tame_reswitched(
                        m,
                        a,
                        Switching {
                            restored: heard.restored.filter(
                                crate::parking::other_than(window_id),
                            ),
                            ..heard
                        },
                    );
                    lemma_tame_reswitched(
                        m,
                        a,
                        Switching {
                            parked: heard.parked.filter(crate::parking::other_than(window_id)),
                            ..heard
                        },
                    );
                },
            }
        },
    }
}

pub proof fn lemma_calm_switch_parks_asked(
    m: Model,
    windows: Seq<WindowId>,
    i: int,
    now_unix: i64,
)
    ensures
        calm(m, m.switch_parks_asked(windows, i, now_unix)),
        m.switch_parks_asked(windows, i, now_unix).workspaces == m.workspaces,
    decreases windows.len() - i,
{
    match m.switch {
        None => {},
        Some(switch) => if i >= windows.len() {
        } else if !m.inventory.contains_key(windows[i].0) {
            lemma_calm_switch_parks_asked(m, windows, i + 1, now_unix);
        } else {
            match m.parking(windows[i], now_unix) {
                Err(ParkingRefusal::UnknownDisplay { .. }) => {
                    lemma_calm_switch_parks_asked(m, windows, i + 1, now_unix);
                },
                Err(refusal) => {
                    lemma_calm_compensation_begun(
                        m,
                        SwitchFailure::NotParkable(refusal),
                        now_unix,
                    );
                },
                Ok(draft) => {
                    let next = m.entry_requested(windows[i], draft, Some(switch.id)).switching(
                        Switching {
                            recording: switch.recording.push(
                                crate::state::bumped(m.next_parking_token),
                            ),
                            ..switch
                        },
                    );
                    assert(calm(m, next));
                    lemma_calm_switch_parks_asked(next, windows, i + 1, now_unix);
                    lemma_trans(m, next, m.switch_parks_asked(windows, i, now_unix));
                },
            }
        },
    }
}

pub proof fn lemma_tame_switch_begun(
    m: Model,
    a: Answers,
    plan: SwitchPlan,
    reverses_undo: Option<UndoTransactionId>,
)
    ensures
        tame_or_asked(m, m.switch_begun(a, plan, reverses_undo)),
{
    reveal(Model::switch_begun);
    let id = crate::state::bumped(m.next_switch_id);
    let opened = Model {
        next_switch_id: id,
        switch: Some(
            Switching {
                id,
                display_id: plan.display_id,
                target: plan.target,
                outgoing: plan.outgoing,
                phase: crate::outcome::WorkspaceSwitchPhase::Recording,
                recording: Seq::empty(),
                in_flight: Seq::empty(),
                queued: plan.restore,
                parked: Seq::empty(),
                restored: Seq::empty(),
                stranded: Seq::empty(),
                failure: None,
                prior_placements: plan.park.filter(m.managed()).map_values(m.prior_placement()),
                reverses_undo,
            },
        ),
        ..m
    };
    assert(calm(m, opened));
    let asked = opened.switch_parks_asked(plan.park, 0, a.now_unix);
    lemma_calm_switch_parks_asked(opened, plan.park, 0, a.now_unix);
    lemma_trans(m, opened, asked);
    lemma_tame_switch_advanced(asked, a);
    lemma_then(m, asked, asked.switch_advanced(a));
}

// Observing.

pub proof fn lemma_calm_windows_migrated(
    m: Model,
    a: Answers,
    survivors: Seq<Display>,
    ids: Seq<isize>,
    i: int,
)
    ensures
        calm_or_asked(m, m.windows_migrated(a, survivors, ids, i)),
    decreases ids.len() - i,
{
    if i < ids.len() {
        match m.window_migrated(a, survivors, ids[i]) {
            Ok(next) => {
                assert(calm(m, next));
                lemma_calm_windows_migrated(next, a, survivors, ids, i + 1);
                lemma_then(m, next, next.windows_migrated(a, survivors, ids, i + 1));
            },
            Err(_) => {},
        }
    }
}

pub proof fn lemma_calm_orphans_migrated(m: Model, a: Answers, survivors: Seq<Display>)
    ensures
        calm_or_asked(m, m.orphans_migrated(a, survivors)),
{
    reveal(Model::orphans_migrated);
    lemma_calm_windows_migrated(m, a, survivors, sorted(m.windows.dom()), 0);
}

pub proof fn lemma_calm_focus_migrated(m: Model, survivors: Seq<Display>)
    ensures
        calm(m, m.focus_migrated(survivors)),
{
    reveal(Model::focus_migrated);
}

pub proof fn lemma_calm_resolved(
    m: Model,
    a: Answers,
    seen: Seq<Window>,
    i: int,
    next: Map<isize, ManagedWindow>,
    targets: Seq<RuleTarget>,
)
    ensures
        match m.resolved(a, seen, i, next, targets) {
            Ok((after, _, _)) => calm(m, after),
            Err(_) => true,
        },
    decreases seen.len() - i,
{
    if i < seen.len() {
        let window = seen[i];
        match a.verdict_spec(m.rules, window) {
            Err(_) => {},
            Ok(verdict) => {
                if verdict.manage == crate::window::ManageAction::Exclude {
                    lemma_calm_resolved(m, a, seen, i + 1, next, targets);
                } else {
                    let wanted = match verdict.workspace {
                        Some(request) => if m.inventory.contains_key(window.id.0) {
                            targets
                        } else {
                            targets.push(
                                RuleTarget {
                                    window_id: window.id,
                                    rule_id: verdict.rule_id,
                                    request,
                                },
                            )
                        },
                        None => targets,
                    };
                    let managed = ManagedWindow {
                        window,
                        action: verdict.manage,
                        eligibility: m.observed_eligibility(window, verdict.manage),
                    };
                    let moved = m.tracking(window);
                    assert(calm(m, moved));
                    let more = next.insert(window.id.0, managed);
                    lemma_calm_resolved(moved, a, seen, i + 1, more, wanted);
                    match moved.resolved(a, seen, i + 1, more, wanted) {
                        Ok((after, _, _)) => {
                            lemma_trans(m, moved, after);
                        },
                        Err(_) => {},
                    }
                }
            },
        }
    }
}

pub proof fn lemma_calm_departed_from_stash(m: Model, a: Answers, id: isize)
    ensures
        calm_or_asked(m, m.departed_from_stash(a, id)),
{
    match m.workspaces.workspace_of(id) {
        None => {},
        Some(name) => {
            lemma_first_index(m.workspaces.list.len(), m.workspaces.named(name.key@));
            match (m.workspaces.find(name), m.departed_from_stash(a, id)) {
                (Some(i), Ok(after)) => {
                    if after.workspaces != m.workspaces && pool_sound(m.workspaces) {
                        lemma_sound_with(
                            m.workspaces,
                            i,
                            Workspace {
                                stashed_tree: after.workspaces.list[i].stashed_tree,
                                ..m.workspaces.list[i]
                            },
                        );
                    }
                },
                _ => {},
            }
        },
    }
}

pub proof fn lemma_calm_all_departed(m: Model, a: Answers, ids: Seq<isize>, i: int)
    ensures
        calm_or_asked(m, m.all_departed(a, ids, i)),
    decreases ids.len() - i,
{
    if i < ids.len() {
        lemma_calm_departed_from_stash(m, a, ids[i]);
        match m.departed_from_stash(a, ids[i]) {
            Ok(next) => {
                lemma_calm_all_departed(next, a, ids, i + 1);
                lemma_then(m, next, next.all_departed(a, ids, i + 1));
            },
            Err(_) => {},
        }
    }
}

pub proof fn lemma_calm_parked_closed(m: Model, ids: Seq<isize>, i: int)
    ensures
        calm(m, m.parked_closed(ids, i)),
    decreases ids.len() - i,
{
    if i < ids.len() {
        let next = Model { parked_windows: m.parked_windows.remove(ids[i]), ..m }.intent(
            crate::state::Intent::MarkRestored(m.parked_windows[ids[i]]),
        );
        assert(calm(m, next));
        lemma_calm_parked_closed(next, ids, i + 1);
        lemma_trans(m, next, m.parked_closed(ids, i));
    }
}

pub proof fn lemma_calm_memory_kept(m: Model, managed: Set<isize>)
    ensures
        calm(m, m.memory_kept(managed)),
{
    let kept = Model {
        workspaces: m.workspaces.keeping_members(managed),
        rule_workspace_refusals: m.rule_workspace_refusals.filter(Model::refuses_within(managed)),
        ..m
    };
    if pool_sound(m.workspaces) {
        lemma_sound_keeping_members(m.workspaces, managed);
    }
    assert(calm(m, kept));
    let gone = sorted(kept.parked_windows.dom()).filter(Model::outside(managed));
    lemma_calm_parked_closed(kept, gone, 0);
    lemma_trans(m, kept, kept.parked_closed(gone, 0));
}

pub proof fn lemma_resolve_in_range(pool: crate::workspace::Pool, request: crate::name::RequestedName)
    ensures
        match pool.resolve(request) {
            Some(i) => 0 <= i < pool.list.len(),
            None => true,
        },
{
    match request.name {
        crate::name::NameCheck::Valid(name) => {
            lemma_first_index(pool.list.len(), pool.named(name.key@));
        },
        crate::name::NameCheck::Invalid(_) => {},
    }
}

pub proof fn lemma_calm_targets_applied(m: Model, targets: Seq<RuleTarget>, i: int)
    ensures
        calm(m, m.targets_applied(targets, i)),
    decreases targets.len() - i,
{
    if i < targets.len() {
        let target = targets[i];
        lemma_resolve_in_range(m.workspaces, target.request);
        let next = match m.workspaces.resolve(target.request) {
            Some(at) => Model {
                workspaces: m.workspaces.assigned(
                    target.window_id.0,
                    m.workspaces.list[at].name,
                ),
                ..m
            },
            None => Model {
                rule_workspace_refusals: m.rule_workspace_refusals.push(
                    crate::state::RuleWorkspaceRefusal {
                        window_id: target.window_id,
                        rule_id: target.rule_id,
                        workspace: target.request.text,
                    },
                ),
                ..m
            },
        };
        match m.workspaces.resolve(target.request) {
            Some(at) => {
                if pool_sound(m.workspaces) {
                    lemma_sound_assigned(m.workspaces, target.window_id.0, at);
                }
            },
            None => {},
        }
        assert(calm(m, next));
        lemma_calm_targets_applied(next, targets, i + 1);
        lemma_trans(m, next, m.targets_applied(targets, i));
    }
}

pub proof fn lemma_calm_inventory_replaced(
    m: Model,
    a: Answers,
    next: Map<isize, ManagedWindow>,
    targets: Seq<RuleTarget>,
)
    ensures
        calm_or_asked(m, m.inventory_replaced(a, next, targets)),
{
    reveal(Model::inventory_replaced);
    let managed = next.dom();
    let departed = sorted(m.inventory.dom()).filter(Model::outside(managed));
    let kept = m.tracking_kept(managed);
    assert(calm(m, kept));
    lemma_calm_all_departed(kept, a, departed, 0);
    match kept.all_departed(a, departed, 0) {
        Err(_) => {},
        Ok(left) => {
            lemma_trans(m, kept, left);
            let memory = left.memory_kept(managed);
            lemma_calm_memory_kept(left, managed);
            lemma_trans(m, left, memory);
            let replaced = Model { inventory: next, ..memory };
            assert(calm(memory, replaced));
            lemma_trans(m, memory, replaced);
            let applied = replaced.targets_applied(targets, 0);
            lemma_calm_targets_applied(replaced, targets, 0);
            lemma_trans(m, replaced, applied);
            let assigned = applied.unassigned_assigned();
            lemma_steady_unassigned_assigned(applied);
            lemma_trans(m, applied, assigned);
            lemma_steady_hidden_reconciled(assigned, a.now_unix);
            lemma_trans(m, assigned, assigned.hidden_reconciled(a.now_unix));
        },
    }
}

pub proof fn lemma_calm_observed(m: Model, a: Answers, windows: Seq<Window>)
    ensures
        match m.observed(a, windows) {
            Ok((after, _)) => calm(m, after),
            Err(_) => true,
        },
{
    reveal(Model::observed);
    lemma_calm_resolved(m, a, windows, 0, Map::empty(), Seq::empty());
    match m.resolved(a, windows, 0, Map::empty(), Seq::empty()) {
        Err(_) => {},
        Ok((seen, next, targets)) => {
            lemma_calm_inventory_replaced(seen, a, next, targets);
            lemma_then(m, seen, seen.inventory_replaced(a, next, targets));
        },
    }
}

} // verus!
