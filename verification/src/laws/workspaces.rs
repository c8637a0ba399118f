//! What the engine promises of workspaces, of the windows in them, and of
//! displays that go away.

use vstd::prelude::*;

verus! {

use crate::answers::{Answers, Query, RuleBook};
use crate::config::ConfigSet;
use crate::event::Event;
use crate::laws::every_step::{capture_agrees, lemma_no_members};
use crate::laws::frame::{extends, lemma_arranged, lemma_workspaces_persisted};
use crate::geometry::{DisplayId, UndoTransactionId, WindowId};
use crate::name::{collides, RequestedName, WorkspaceName};
use crate::observe::RuleTarget;
use crate::outcome::{
    Conclusion, SwitchPlan, Switching, WorkspaceFocusApplied, WorkspaceRefusal,
};
use crate::reducer::step;
use crate::state::{EngineEffect, Intent, Model};
use crate::laws::steady::{
    lemma_steady_displays_filled, lemma_steady_mapping_applied, lemma_steady_pool_synced,
    lemma_trans, pool_sound,
};
use crate::table::{lemma_sorted, sorted};
use crate::text::lemma_first_index;
use crate::topology::{connected, display_at, display_ids, display_is};
use crate::window::{Display, ManageAction, ManagedWindow, Window, WindowLifecycle};
use crate::workspace::{Pool, WorkspaceOrigin};

// What the engine starts from.

/// The engine starts sound: no command is open, nothing has been asked for,
/// no capture is held, and the pool keeps its promises.
pub proof fn law_the_engine_starts_sound(
    displays: Seq<Display>,
    topology: String,
    config_set: ConfigSet,
    session_id: String,
)
    ensures
        ({
            let m = Model::initial(displays, topology, config_set, session_id);
            &&& m.undo_scope is None
            &&& capture_agrees(m)
            &&& pool_sound(m.workspaces)
        }),
{
    let config = config_set.select(topology@);
    let first = Model {
        displays,
        focused_display: if displays.len() > 0 {
            Some(displays[0].id)
        } else {
            None
        },
        config,
        config_set,
        rules: config.rules,
        tiling_active: config.automatic_tiling_enabled,
        ..Model::blank(session_id, topology)
    };
    assert(pool_sound(first.workspaces));
    let synced = first.pool_synced();
    lemma_steady_pool_synced(first);
    let filled = synced.displays_filled();
    lemma_steady_displays_filled(synced);
    lemma_trans(first, synced, filled);
    lemma_steady_mapping_applied(filled);
    lemma_trans(first, filled, filled.mapping_applied());
}

// Commands.

/// A workspace command that is refused says why, and changes nothing else.
pub proof fn law_refused_commands_change_nothing(before: Model, event: Event, a: Answers)
    ensures
        match event {
            Event::WorkspaceCreateRequested { name } => before.create_plan(
                name,
            ) matches Err(refusal) ==> step(before, event, a) == Ok::<Model, Query>(
                Model { undo_scope: None, ..before }.answered(Conclusion::Refused(refusal)),
            ),
            Event::WorkspaceDeleteRequested { name } => before.delete_plan(
                a,
                name,
            ) matches Ok(Err(refusal)) ==> step(before, event, a) == Ok::<Model, Query>(
                Model { undo_scope: None, ..before }.answered(Conclusion::Refused(refusal)),
            ),
            Event::WorkspaceMoveRequested { name, display_id } => before.move_plan(
                name,
                display_id,
            ) matches Err(refusal) ==> step(before, event, a) == Ok::<Model, Query>(
                Model { undo_scope: None, ..before }.answered(Conclusion::Refused(refusal)),
            ),
            _ => true,
        },
{
    reveal(Model::on_create);
    reveal(Model::on_delete);
    reveal(Model::on_workspace_move);
}

/// A workspace that was created is there, and creating it again is refused
/// with the name it was created under.
pub proof fn law_created_workspaces_exist(before: Model, request: RequestedName, a: Answers)
    ensures
        match (
            before.create_plan(request),
            step(before, Event::WorkspaceCreateRequested { name: request }, a),
        ) {
            (Ok(applied), Ok(after)) => {
                &&& after.workspaces.find(applied.name) is Some
                &&& after.workspaces.list.len() == before.workspaces.list.len() + 1
                &&& after.create_plan(request) matches Err(
                    WorkspaceRefusal::AlreadyExists { name },
                ) && collides(name, applied.name)
            },
            _ => true,
        },
{
    reveal(Model::on_create);
    match before.create_plan(request) {
        Ok(applied) => {
            let m = Model { undo_scope: None, ..before };
            let pool = m.workspaces.created(applied.name, WorkspaceOrigin::Command);
            let slot = m.workspaces.slot_for(applied.name);
            lemma_first_index(m.workspaces.list.len(), m.workspaces.follows(applied.name));
            assert(pool.list[slot].name == applied.name);
            let created = Model { workspaces: pool, ..m };
            lemma_workspaces_persisted(created, a, 0);
            match created.workspaces_persisted(a, 0) {
                Ok(next) => {
                    assert(next.workspaces.list[slot].name == applied.name);
                    assert(next.workspaces.named(applied.name.key@)(slot));
                    lemma_first_index(
                        next.workspaces.list.len(),
                        next.workspaces.named(applied.name.key@),
                    );
                },
                Err(_) => {},
            }
        },
        Err(_) => {},
    }
}

/// Only a hidden workspace that owns no window and that configuration does
/// not declare is ever deleted.
pub proof fn law_only_unused_workspaces_are_deleted(before: Model, request: RequestedName, a: Answers)
    requires
        before.workspaces.members.dom().finite(),
    ensures
        before.delete_plan(a, request) matches Ok(Ok(applied)) ==> (before.workspaces.resolve(
            request,
        ) matches Some(i) && before.workspaces.list[i].name == applied.name
            && before.workspaces.list[i].displayed_on is None && before.workspaces.list[i].origin
            != WorkspaceOrigin::Configuration && forall|window: isize| #[trigger]
            before.workspaces.members.contains_key(window) ==> !collides(
                before.workspaces.members[window],
                applied.name,
            )),
{
    match before.delete_plan(a, request) {
        Ok(Ok(applied)) => {
            lemma_no_members(before.workspaces, applied.name);
        },
        _ => {},
    }
}

/// One switch at a time: while a switch is in flight, no request to focus or
/// move a workspace changes what any display shows, or the switch itself.
pub proof fn law_one_switch_at_a_time(before: Model, event: Event, a: Answers)
    requires
        before.switch is Some,
        event is WorkspaceFocusRequested || event is WorkspaceMoveRequested,
    ensures
        match step(before, event, a) {
            Ok(after) => after.workspaces == before.workspaces && after.switch == before.switch,
            Err(_) => false,
        },
{
    reveal(Model::on_workspace_focus);
    reveal(Model::on_workspace_move);
}

/// While a failed switch has left windows stranded, no hidden workspace can be
/// shown by asking to focus it.
pub proof fn law_stranded_windows_block_switching(
    before: Model,
    request: RequestedName,
    a: Answers,
)
    requires
        before.switch_degraded is Some,
    ensures
        match step(before, Event::WorkspaceFocusRequested { name: request }, a) {
            Ok(after) => after.workspaces == before.workspaces && after.switch == before.switch
                && after.switch_degraded == before.switch_degraded,
            Err(_) => false,
        },
{
    reveal(Model::on_workspace_focus);
}

/// A switch that commits shows its target where it was asked for, and is
/// over.
pub proof fn law_committed_switch_shows_its_target(m: Model, a: Answers, switch: Switching, i: int)
    requires
        m.workspaces.find(switch.target) == Some(i),
    ensures
        match m.committed(a, switch) {
            Ok(after) => {
                &&& i < after.workspaces.list.len()
                &&& after.workspaces.list[i].name == m.workspaces.list[i].name
                &&& after.workspaces.list[i].displayed_on == Some(switch.display_id)
                &&& after.switch is None
                &&& after.focused_display == Some(switch.display_id)
                &&& after.last_switch_result == Some(
                    Conclusion::Focused(
                        WorkspaceFocusApplied::Displayed {
                            name: switch.target,
                            display_id: switch.display_id,
                            replaced: switch.outgoing,
                        },
                    ),
                )
            },
            Err(_) => true,
        },
{
    let closed = m.unswitched();
    let scoped = closed.commit_scoped(switch);
    lemma_scoped_only(closed, switch);
    lemma_first_index(m.workspaces.list.len(), m.workspaces.named(switch.target.key@));
    lemma_displayed_now_shows(
        scoped,
        a,
        switch.target,
        switch.display_id,
        switch.outgoing is Some,
        i,
    );
    match scoped.displayed_now(a, switch.target, switch.display_id, switch.outgoing is Some) {
        Ok(shown) => {
            reveal(Model::commit_closed);
            reveal(Model::scope_closed);
            match shown.commit_closed(a, switch) {
                Ok(done) => {
                    assert(done.workspaces == shown.workspaces);
                    reveal(Model::commit_concluded);
                },
                Err(_) => {},
            }
        },
        Err(_) => {},
    }
}

proof fn lemma_priors_only(m: Model, priors: Seq<crate::outcome::PriorPlacement>, i: int)
    ensures
        m.priors_recorded(priors, i) == (Model {
            undo_scope: m.priors_recorded(priors, i).undo_scope,
            ..m
        }),
    decreases priors.len() - i,
{
    if i < priors.len() {
        let next = m.member_recorded(
            priors[i].window_id,
            Some((priors[i].display_id, priors[i].bounds)),
        );
        lemma_priors_only(next, priors, i + 1);
    }
}

proof fn lemma_scoped_only(m: Model, switch: Switching)
    ensures
        m.commit_scoped(switch) == (Model { undo_scope: m.commit_scoped(switch).undo_scope, ..m }),
{
    reveal(Model::commit_scoped);
    let captured = m.scope_opened(
        crate::commands::CommandLabel::WorkspaceFocus(switch.target),
    ).assignment_captured(switch.display_id);
    lemma_priors_only(captured, switch.prior_placements, 0);
}

proof fn lemma_displayed_now_shows(
    m: Model,
    a: Answers,
    name: WorkspaceName,
    display_id: DisplayId,
    replaces: bool,
    i: int,
)
    requires
        m.workspaces.find(name) == Some(i),
    ensures
        match m.displayed_now(a, name, display_id, replaces) {
            Ok(after) => {
                &&& i < after.workspaces.list.len()
                &&& after.workspaces.list[i].name == m.workspaces.list[i].name
                &&& after.workspaces.list[i].displayed_on == Some(display_id)
                &&& after.switch == m.switch
                &&& after.focused_display == Some(display_id)
            },
            Err(_) => true,
        },
{
    reveal(Model::displayed_now);
    lemma_first_index(m.workspaces.list.len(), m.workspaces.named(name.key@));
    lemma_first_index(m.workspaces.list.len(), m.workspaces.shows(display_id));
    let stashed = if replaces {
        m.tree_stashed(display_id)
    } else {
        m
    };
    crate::laws::steady::lemma_find_same(m.workspaces, stashed.workspaces, name);
    let shown = Model {
        focused_display: Some(display_id),
        ..stashed.name_shown(name, display_id)
    };
    assert(shown.workspaces.list[i].displayed_on == Some(display_id));
    lemma_arranged(shown, a);
    match shown.arranged(a) {
        Ok(next) => {
            assert(next.workspaces.list[i].displayed_on == Some(display_id));
            lemma_workspaces_persisted(next, a, 0);
            match next.workspaces_persisted(a, 0) {
                Ok(after) => {
                    assert(after.workspaces.list[i].displayed_on == Some(display_id));
                },
                Err(_) => {},
            }
        },
        Err(_) => {},
    }
}

/// Moving a workspace exchanges what the two displays show: the mover gets
/// what was there, and moving it back restores both.
pub proof fn law_exchanging_displays_twice_is_nothing(pool: Pool, from: DisplayId, to: DisplayId)
    ensures
        pool.swapped(from, to).swapped(to, from) == pool,
{
    let back = pool.swapped(from, to).swapped(to, from);
    assert forall|j: int| 0 <= j < pool.list.len() implies back.list[j] == pool.list[j] by {
        if pool.list[j].displayed_on == Some(from) {
            assert(pool.swapped(from, to).list[j].displayed_on == Some(to));
        }
    }
    assert(back.list =~= pool.list);
}

/// A parked window that is back on screen closes its recovery entry: the
/// database is told, under the entry it was parked with.
pub proof fn law_restored_window_closes_its_entry(before: Model, window_id: WindowId, a: Answers)
    requires
        before.parked_windows.contains_key(window_id.0),
    ensures
        match step(before, Event::WindowRestored { window_id }, a) {
            Ok(after) => {
                &&& before.intents.len() < after.intents.len()
                &&& after.intents[before.intents.len() as int] == Intent::MarkRestored(
                    before.parked_windows[window_id.0],
                )
            },
            Err(_) => true,
        },
{
    let m = Model { undo_scope: None, ..before };
    reveal(Model::on_restored);
    let back = Model {
        parked_windows: m.parked_windows.remove(window_id.0),
        last_parking_failure: None,
        ..m
    }.intent(Intent::MarkRestored(m.parked_windows[window_id.0])).revised();
    let lifted = back.stranded_settled(window_id);
    crate::laws::parts::lemma_tame_window_settled(lifted, a, window_id, None);
    match lifted.window_settled(a, window_id, None) {
        Ok(after) => {
            assert(extends(lifted.intents, after.intents));
            assert(lifted.intents[before.intents.len() as int] == after.intents[before.intents.len() as int]);
        },
        Err(_) => {},
    }
}

// Observations.

/// Every window is one the inventory holds.
pub open spec fn remembers_only_managed(m: Model) -> bool {
    &&& m.session_floating.subset_of(m.inventory.dom())
    &&& m.session_tiled.subset_of(m.inventory.dom())
    &&& m.workspaces.members.dom().subset_of(m.inventory.dom())
    &&& m.parked_windows.dom().subset_of(m.inventory.dom())
    &&& (m.focused_window matches Some(window_id) ==> m.inventory.contains_key(window_id.0))
}

/// Every managed window on a display that shows a workspace belongs to one.
pub open spec fn all_belong(m: Model) -> bool {
    forall|id: isize| #[trigger]
        m.inventory.contains_key(id) && m.workspaces.displayed_on(
            m.inventory[id].window.display_id,
        ) is Some ==> m.workspaces.members.contains_key(id)
}

pub proof fn lemma_targets_seen(
    m: Model,
    a: Answers,
    seen: Seq<Window>,
    i: int,
    next: Map<isize, ManagedWindow>,
    targets: Seq<RuleTarget>,
)
    requires
        forall|k: int|
            0 <= k < targets.len() ==> next.contains_key((#[trigger] targets[k]).window_id.0),
    ensures
        match m.resolved(a, seen, i, next, targets) {
            Ok((after, all, wanted)) => {
                &&& after == (Model { windows: after.windows, ..m })
                &&& forall|k: int|
                    0 <= k < wanted.len() ==> all.contains_key((#[trigger] wanted[k]).window_id.0)
            },
            Err(_) => true,
        },
    decreases seen.len() - i,
{
    if i < seen.len() {
        let window = seen[i];
        match a.verdict_spec(m.rules, window) {
            Err(_) => {},
            Ok(verdict) => {
                if verdict.manage == crate::window::ManageAction::Exclude {
                    lemma_targets_seen(m, a, seen, i + 1, next, targets);
                } else {
                    let wanted = match verdict.workspace {
                        Some(request) => if m.inventory.contains_key(window.id.0) {
                            targets
                        } else {
                            targets.push(
                                RuleTarget {
                                    window_id: window.id,
                                    rule_id: verdict.rule_id,
                                    request,
                                },
                            )
                        },
                        None => targets,
                    };
                    let managed = ManagedWindow {
                        window,
                        action: verdict.manage,
                        eligibility: m.observed_eligibility(window, verdict.manage),
                    };
                    let more = next.insert(window.id.0, managed);
                    assert forall|k: int| 0 <= k < wanted.len() implies more.contains_key(
                        (#[trigger] wanted[k]).window_id.0,
                    ) by {
                        if k < targets.len() {
                            assert(next.contains_key(targets[k].window_id.0));
                        }
                    }
                    lemma_targets_seen(m.tracking(window), a, seen, i + 1, more, wanted);
                }
            },
        }
    }
}

pub proof fn lemma_all_departed_only(m: Model, a: Answers, ids: Seq<isize>, i: int)
    ensures
        match m.all_departed(a, ids, i) {
            Ok(after) => after.workspaces.members == m.workspaces.members && after == (Model {
                workspaces: after.workspaces,
                leaf_evidence: after.leaf_evidence,
                ..m
            }),
            Err(_) => true,
        },
    decreases ids.len() - i,
{
    if i < ids.len() {
        match m.departed_from_stash(a, ids[i]) {
            Ok(next) => {
                assert(next.workspaces.members == m.workspaces.members && next == (Model {
                    workspaces: next.workspaces,
                    leaf_evidence: next.leaf_evidence,
                    ..m
                }));
                lemma_all_departed_only(next, a, ids, i + 1);
            },
            Err(_) => {},
        }
    }
}

proof fn lemma_parked_closed(m: Model, ids: Seq<isize>, i: int, id: isize)
    requires
        0 <= i,
    ensures
        ({
            let after = m.parked_closed(ids, i);
            &&& after == (Model {
                parked_windows: after.parked_windows,
                intents: after.intents,
                ..m
            })
            &&& after.parked_windows.dom().subset_of(m.parked_windows.dom())
            &&& ((exists|k: int| i <= k < ids.len() && #[trigger] ids[k] == id)
                ==> !after.parked_windows.contains_key(id))
        }),
    decreases ids.len() - i,
{
    if i < ids.len() {
        let next = Model { parked_windows: m.parked_windows.remove(ids[i]), ..m }.intent(
            Intent::MarkRestored(m.parked_windows[ids[i]]),
        );
        lemma_parked_closed(next, ids, i + 1, id);
        let after = m.parked_closed(ids, i);
        if exists|k: int| i <= k < ids.len() && #[trigger] ids[k] == id {
            let k = choose|k: int| i <= k < ids.len() && #[trigger] ids[k] == id;
            if k == i {
                assert(!next.parked_windows.contains_key(id));
                assert(!after.parked_windows.dom().contains(id));
            }
        }
    }
}

pub proof fn lemma_memory_kept(m: Model, managed: Set<isize>)
    requires
        m.parked_windows.dom().finite(),
    ensures
        ({
            let after = m.memory_kept(managed);
            &&& after.parked_windows.dom().subset_of(managed)
            &&& after.workspaces == m.workspaces.keeping_members(managed)
            &&& after == (Model {
                parked_windows: after.parked_windows,
                intents: after.intents,
                workspaces: after.workspaces,
                rule_workspace_refusals: after.rule_workspace_refusals,
                ..m
            })
        }),
{
    broadcast use vstd::seq_lib::group_filter_ensures;

    let kept = Model {
        workspaces: m.workspaces.keeping_members(managed),
        rule_workspace_refusals: m.rule_workspace_refusals.filter(Model::refuses_within(managed)),
        ..m
    };
    let all = sorted(kept.parked_windows.dom());
    let pred = Model::outside(managed);
    let gone = all.filter(pred);
    lemma_sorted(kept.parked_windows.dom());
    lemma_parked_closed(kept, gone, 0, 0);
    assert forall|id: isize| #[trigger]
        m.memory_kept(managed).parked_windows.dom().contains(id) implies managed.contains(id) by {
        lemma_parked_closed(kept, gone, 0, id);
        if !managed.contains(id) {
            assert(all.to_set().contains(id));
            let k = choose|k: int| 0 <= k < all.len() && all[k] == id;
            assert(pred(all[k]));
            assert(gone.contains(all[k]));
            let j = choose|j: int| 0 <= j < gone.len() && gone[j] == id;
            assert(gone[j] == id);
        }
    }
}

pub proof fn lemma_targets_applied_only(
    m: Model,
    targets: Seq<RuleTarget>,
    i: int,
    managed: Set<isize>,
)
    requires
        0 <= i,
        m.workspaces.members.dom().subset_of(managed),
        forall|k: int|
            0 <= k < targets.len() ==> managed.contains((#[trigger] targets[k]).window_id.0),
    ensures
        ({
            let after = m.targets_applied(targets, i);
            &&& after.workspaces.members.dom().subset_of(managed)
            &&& after.workspaces.list == m.workspaces.list
            &&& after == (Model {
                workspaces: after.workspaces,
                rule_workspace_refusals: after.rule_workspace_refusals,
                ..m
            })
        }),
    decreases targets.len() - i,
{
    if i < targets.len() {
        let target = targets[i];
        assert(managed.contains(targets[i].window_id.0));
        let next = match m.workspaces.resolve(target.request) {
            Some(at) => Model {
                workspaces: m.workspaces.assigned(
                    target.window_id.0,
                    m.workspaces.list[at].name,
                ),
                ..m
            },
            None => Model {
                rule_workspace_refusals: m.rule_workspace_refusals.push(
                    crate::state::RuleWorkspaceRefusal {
                        window_id: target.window_id,
                        rule_id: target.rule_id,
                        workspace: target.request.text,
                    },
                ),
                ..m
            },
        };
        lemma_targets_applied_only(next, targets, i + 1, managed);
    }
}

pub proof fn lemma_parks_asked_only(m: Model, windows: Seq<isize>, i: int, now_unix: i64)
    ensures
        ({
            let after = m.parks_asked(windows, i, now_unix);
            after == (Model {
                next_parking_token: after.next_parking_token,
                pending_parking: after.pending_parking,
                last_parking_refusal: after.last_parking_refusal,
                intents: after.intents,
                ..m
            })
        }),
    decreases windows.len() - i,
{
    if i < windows.len() {
        lemma_parks_asked_only(m.park_asked(WindowId(windows[i]), now_unix), windows, i + 1, now_unix);
    }
}

pub proof fn lemma_restores_asked_only(m: Model, windows: Seq<isize>, i: int)
    ensures
        m.restores_asked(windows, i) == (Model {
            effects: m.restores_asked(windows, i).effects,
            ..m
        }),
    decreases windows.len() - i,
{
    if i < windows.len() {
        lemma_restores_asked_only(m.restore_asked(WindowId(windows[i])), windows, i + 1);
    }
}

pub proof fn lemma_hidden_reconciled_only(m: Model, now_unix: i64)
    ensures
        ({
            let after = m.hidden_reconciled(now_unix);
            after == (Model {
                next_parking_token: after.next_parking_token,
                pending_parking: after.pending_parking,
                last_parking_refusal: after.last_parking_refusal,
                intents: after.intents,
                effects: after.effects,
                ..m
            })
        }),
{
    reveal(Model::hidden_reconciled);
    let managed = sorted(m.inventory.dom());
    let parks = managed.filter(m.must_park());
    lemma_parks_asked_only(m, parks, 0, now_unix);
    let next = m.parks_asked(parks, 0, now_unix);
    lemma_restores_asked_only(next, managed.filter(m.must_restore()), 0);
}

pub proof fn lemma_replaced(
    m: Model,
    a: Answers,
    next: Map<isize, ManagedWindow>,
    targets: Seq<RuleTarget>,
)
    requires
        m.parked_windows.dom().finite(),
        forall|k: int|
            0 <= k < targets.len() ==> next.contains_key((#[trigger] targets[k]).window_id.0),
    ensures
        match m.inventory_replaced(a, next, targets) {
            Ok(after) => {
                &&& after.inventory == next
                &&& after.windows.dom().subset_of(next.dom())
                &&& remembers_only_managed(after)
                &&& all_belong(after)
            },
            Err(_) => true,
        },
{
    reveal(Model::inventory_replaced);
    reveal(Model::unassigned_assigned);
    let managed = next.dom();
    let departed = sorted(m.inventory.dom()).filter(Model::outside(managed));
    let kept = m.tracking_kept(managed);
    lemma_all_departed_only(kept, a, departed, 0);
    match kept.all_departed(a, departed, 0) {
        Err(_) => {},
        Ok(left) => {
            lemma_memory_kept(left, managed);
            let replaced = Model { inventory: next, ..left.memory_kept(managed) };
            lemma_targets_applied_only(replaced, targets, 0, managed);
            let applied = replaced.targets_applied(targets, 0);
            let assigned = applied.unassigned_assigned();
            lemma_hidden_reconciled_only(assigned, a.now_unix);
            let after = assigned.hidden_reconciled(a.now_unix);
            assert(after.workspaces == assigned.workspaces && after.inventory == next);
            assert(assigned.workspaces.list == applied.workspaces.list);
            assert forall|display_id: DisplayId| #[trigger]
                assigned.workspaces.displayed_on(display_id) == applied.workspaces.displayed_on(
                    display_id,
                ) by {
                assert(assigned.workspaces.shows(display_id) =~= applied.workspaces.shows(
                    display_id,
                ));
            }
            assert forall|id: isize| #[trigger]
                after.inventory.contains_key(id) && after.workspaces.displayed_on(
                    after.inventory[id].window.display_id,
                ) is Some implies after.workspaces.members.contains_key(id) by {
                assert(applied.inventory == next);
            }
        },
    }
}

/// Once a batch of observations has been taken in, nothing is remembered of
/// any other window, and every managed window on a display that shows a
/// workspace belongs to one.
pub proof fn law_observations_settle_who_is_managed(m: Model, a: Answers, windows: Seq<Window>)
    requires
        m.parked_windows.dom().finite(),
    ensures
        match m.observed(a, windows) {
            Ok((after, _)) => {
                &&& after.windows.dom().subset_of(after.inventory.dom())
                &&& remembers_only_managed(after)
                &&& all_belong(after)
            },
            Err(_) => true,
        },
{
    reveal(Model::observed);
    lemma_targets_seen(m, a, windows, 0, Map::empty(), Seq::empty());
    match m.resolved(a, windows, 0, Map::empty(), Seq::empty()) {
        Err(_) => {},
        Ok((seen, next, targets)) => {
            lemma_replaced(seen, a, next, targets);
        },
    }
}

// Displays that go away.

/// The windows that sit on a display that is known here and not among
/// `survivors`.
pub open spec fn orphaned(m: Model, survivors: Seq<Display>, id: isize) -> bool {
    m.windows.contains_key(id) && display_at(m.displays, m.windows[id].display_id) is Some
        && !connected(survivors, m.windows[id].display_id)
}

proof fn lemma_nearest_in_range(survivors: Seq<Display>, from: crate::geometry::Rect, n: int)
    requires
        0 < n <= survivors.len(),
    ensures
        0 <= crate::observe::nearest(survivors, from, n) < n,
    decreases n,
{
    if n > 1 {
        lemma_nearest_in_range(survivors, from, n - 1);
    }
}

proof fn lemma_migrated_one(m: Model, a: Answers, survivors: Seq<Display>, id: isize)
    requires
        survivors.len() > 0,
        m.windows.contains_key(id),
    ensures
        match m.window_migrated(a, survivors, id) {
            Ok(after) => {
                &&& after.windows.dom() == m.windows.dom()
                &&& after.displays == m.displays
                &&& !orphaned(after, survivors, id)
                &&& forall|other: isize|
                    other != id && #[trigger] m.windows.contains_key(other)
                        ==> after.windows[other] == m.windows[other]
            },
            Err(_) => true,
        },
{
    let placement = m.windows[id];
    match display_at(m.displays, placement.display_id) {
        Some(at) => {
            let from = m.displays[at].full_bounds;
            lemma_nearest_in_range(survivors, from, survivors.len() as int);
            let home = crate::observe::nearest(survivors, from, survivors.len() as int);
            assert(connected(survivors, survivors[home].id)) by {
                let same = display_is(survivors, survivors[home].id);
                lemma_first_index(survivors.len(), same);
                assert(same(home));
            }
            match m.window_migrated(a, survivors, id) {
                Ok(after) => {
                    assert(after.windows.dom() =~= m.windows.dom());
                },
                Err(_) => {},
            }
        },
        None => {},
    }
}

proof fn lemma_migrated(m: Model, a: Answers, survivors: Seq<Display>, ids: Seq<isize>, i: int)
    requires
        survivors.len() > 0,
        0 <= i <= ids.len(),
        forall|k: int| 0 <= k < ids.len() ==> m.windows.contains_key(#[trigger] ids[k]),
        forall|k: int| 0 <= k < i ==> !orphaned(m, survivors, #[trigger] ids[k]),
    ensures
        match m.windows_migrated(a, survivors, ids, i) {
            Ok(after) => {
                &&& after.windows.dom() == m.windows.dom()
                &&& after.displays == m.displays
                &&& forall|k: int|
                    0 <= k < ids.len() ==> !orphaned(after, survivors, #[trigger] ids[k])
            },
            Err(_) => true,
        },
    decreases ids.len() - i,
{
    if i < ids.len() {
        lemma_migrated_one(m, a, survivors, ids[i]);
        match m.window_migrated(a, survivors, ids[i]) {
            Ok(next) => {
                assert forall|k: int| 0 <= k < ids.len() implies next.windows.contains_key(
                    #[trigger] ids[k],
                ) by {
                    assert(m.windows.contains_key(ids[k]));
                    assert(next.windows.dom().contains(ids[k]));
                }
                assert forall|k: int| 0 <= k < i + 1 implies !orphaned(
                    next,
                    survivors,
                    #[trigger] ids[k],
                ) by {
                    if k < i {
                        assert(!orphaned(m, survivors, ids[k]));
                        assert(m.windows.contains_key(ids[k]));
                    }
                }
                lemma_migrated(next, a, survivors, ids, i + 1);
            },
            Err(_) => {},
        }
    }
}

/// No tracked window is left behind on a display that went away: each is
/// carried to a surviving one.
pub proof fn law_no_window_is_left_behind(m: Model, a: Answers, survivors: Seq<Display>, id: isize)
    requires
        survivors.len() > 0,
        m.windows.dom().finite(),
    ensures
        match m.orphans_migrated(a, survivors) {
            Ok(after) => after.windows.dom() == m.windows.dom() && !orphaned(after, survivors, id),
            Err(_) => true,
        },
{
    reveal(Model::orphans_migrated);
    let ids = sorted(m.windows.dom());
    lemma_sorted(m.windows.dom());
    assert forall|k: int| 0 <= k < ids.len() implies m.windows.contains_key(#[trigger] ids[k]) by {
        assert(ids.to_set().contains(ids[k]));
    }
    lemma_migrated(m, a, survivors, ids, 0);
    match m.orphans_migrated(a, survivors) {
        Ok(after) => {
            if after.windows.contains_key(id) {
                assert(m.windows.dom().contains(id));
                assert(ids.to_set().contains(id));
                let k = choose|k: int| 0 <= k < ids.len() && ids[k] == id;
                assert(!orphaned(after, survivors, ids[k]));
            }
        },
        Err(_) => {},
    }
}

/// The workspace of a display that went away is shown nowhere: only displays
/// that are still there show one.
pub proof fn law_vanished_displays_show_nothing(m: Model, survivors: Seq<Display>, i: int)
    requires
        0 <= i < m.vanished_hidden(survivors).workspaces.list.len(),
    ensures
        m.vanished_hidden(survivors).workspaces.list[i].displayed_on matches Some(display_id)
            ==> display_ids(survivors).contains(display_id.0),
{
    reveal(Model::vanished_hidden);
}

/// Focus never rests on a display that went away.
pub proof fn law_focus_leaves_vanished_displays(m: Model, survivors: Seq<Display>)
    ensures
        m.focus_migrated(survivors).focused_display matches Some(display_id) ==> connected(
            survivors,
            display_id,
        ),
{
    reveal(Model::focus_migrated);
    match m.focused_display {
        Some(focused) => {
            if !connected(survivors, focused) && survivors.len() > 0 {
                match display_at(m.displays, focused) {
                    Some(at) => {
                        let from = m.displays[at].full_bounds;
                        let n = survivors.len() as int;
                        lemma_closest_in_range(survivors, from, n);
                        let best = crate::observe::closest(survivors, from, n);
                        let same = display_is(survivors, survivors[best].id);
                        lemma_first_index(survivors.len(), same);
                        assert(same(best));
                    },
                    None => {},
                }
            }
        },
        None => {},
    }
}

proof fn lemma_closest_in_range(survivors: Seq<Display>, from: crate::geometry::Rect, n: int)
    requires
        0 < n <= survivors.len(),
    ensures
        0 <= crate::observe::closest(survivors, from, n) < n,
    decreases n,
{
    if n > 1 {
        lemma_closest_in_range(survivors, from, n - 1);
    }
}

// What is off the screen, and what is on it.

/// A switch moves on only once every answer it waits for is in: until then it
/// stands as it is.
pub proof fn law_a_switch_waits_for_every_answer(m: Model, a: Answers)
    requires
        m.switch matches Some(switch) && (switch.recording.len() > 0 || switch.in_flight.len() > 0),
    ensures
        m.switch_advanced(a) == Ok::<Model, Query>(m),
{
}

/// A window the switch was asked about that it is not waiting for changes
/// nothing about the switch.
pub proof fn law_a_switch_ignores_other_windows(
    m: Model,
    a: Answers,
    window_id: WindowId,
    failure: Option<crate::outcome::SwitchFailure>,
)
    requires
        m.switch matches Some(switch) ==> !switch.in_flight.contains(window_id),
    ensures
        m.window_settled(a, window_id, failure) == Ok::<Model, Query>(m),
{
    reveal(Model::window_settled);
}

proof fn lemma_parks_asked(m: Model, windows: Seq<isize>, i: int, now_unix: i64, k: int)
    requires
        0 <= i <= windows.len(),
        i <= k < windows.len() || m.is_pending(WindowId(windows[k]))
            || m.last_parking_refusal is Some,
        0 <= k < windows.len(),
    ensures
        ({
            let after = m.parks_asked(windows, i, now_unix);
            after.is_pending(WindowId(windows[k])) || after.last_parking_refusal is Some
        }),
    decreases windows.len() - i,
{
    if i < windows.len() {
        let next = m.park_asked(WindowId(windows[i]), now_unix);
        if m.is_pending(WindowId(windows[k])) {
            let p = choose|p: int|
                0 <= p < m.pending_parking.len() && (#[trigger] m.pending_parking[p]).window_id
                    == WindowId(windows[k]);
            assert(next.pending_parking[p] == m.pending_parking[p]);
        } else if k == i {
            match m.parking(WindowId(windows[i]), now_unix) {
                Ok(_) => {
                    assert(next.pending_parking[m.pending_parking.len() as int].window_id
                        == WindowId(windows[k]));
                },
                Err(_) => {},
            }
        }
        lemma_parks_asked(next, windows, i + 1, now_unix, k);
    }
}

proof fn lemma_restores_keep_pending(m: Model, windows: Seq<isize>, i: int)
    ensures
        m.restores_asked(windows, i).pending_parking == m.pending_parking,
        m.restores_asked(windows, i).last_parking_refusal == m.last_parking_refusal,
{
    lemma_restores_asked_only(m, windows, i);
}

/// No window of a hidden workspace stays on screen in silence: once the
/// parking site has been brought into agreement it is waiting for its recovery
/// entry, or a refusal to park is published.
pub proof fn law_hidden_windows_leave_or_are_refused(m: Model, now_unix: i64, id: isize)
    requires
        m.inventory.dom().finite(),
        m.switch is None,
        m.switch_degraded is None,
        m.inventory.contains_key(id),
        m.in_hidden_workspace(id),
        !m.parked_windows.contains_key(id),
        m.inventory[id].window.lifecycle != WindowLifecycle::Minimized,
        m.inventory[id].window.lifecycle != WindowLifecycle::Fullscreen,
    ensures
        ({
            let after = m.hidden_reconciled(now_unix);
            after.is_pending(WindowId(id)) || after.last_parking_refusal is Some
        }),
{
    broadcast use vstd::seq_lib::group_filter_ensures;

    reveal(Model::hidden_reconciled);
    let managed = sorted(m.inventory.dom());
    lemma_sorted(m.inventory.dom());
    let parks = managed.filter(m.must_park());
    let next = m.parks_asked(parks, 0, now_unix);
    let restores = managed.filter(m.must_restore());
    lemma_restores_keep_pending(next, restores, 0);
    if m.is_pending(WindowId(id)) {
        lemma_parks_keep_pending(m, parks, 0, now_unix, WindowId(id));
        let p = choose|p: int|
            0 <= p < next.pending_parking.len() && (#[trigger] next.pending_parking[p]).window_id
                == WindowId(id);
        assert(m.hidden_reconciled(now_unix).pending_parking[p].window_id == WindowId(id));
    } else {
        assert(managed.to_set().contains(id));
        let j = choose|j: int| 0 <= j < managed.len() && managed[j] == id;
        assert(m.must_park()(managed[j]));
        assert(parks.contains(managed[j]));
        let k = choose|k: int| 0 <= k < parks.len() && parks[k] == id;
        lemma_parks_asked(m, parks, 0, now_unix, k);
        if next.is_pending(WindowId(parks[k])) {
            let p = choose|p: int|
                0 <= p < next.pending_parking.len() && (
                #[trigger] next.pending_parking[p]).window_id == WindowId(id);
            assert(m.hidden_reconciled(now_unix).pending_parking[p].window_id == WindowId(id));
        }
    }
}

proof fn lemma_parks_keep_pending(
    m: Model,
    windows: Seq<isize>,
    i: int,
    now_unix: i64,
    window_id: WindowId,
)
    requires
        m.is_pending(window_id),
    ensures
        m.parks_asked(windows, i, now_unix).is_pending(window_id),
    decreases windows.len() - i,
{
    if i < windows.len() {
        let next = m.park_asked(WindowId(windows[i]), now_unix);
        let p = choose|p: int|
            0 <= p < m.pending_parking.len() && (#[trigger] m.pending_parking[p]).window_id
                == window_id;
        assert(next.pending_parking[p] == m.pending_parking[p]);
        lemma_parks_keep_pending(next, windows, i + 1, now_unix, window_id);
    }
}

proof fn lemma_restores_told(m: Model, windows: Seq<isize>, i: int, k: int)
    requires
        0 <= i,
        i <= k < windows.len(),
        m.parked_windows.contains_key(windows[k]),
    ensures
        m.restores_asked(windows, i).effects.contains(
            EngineEffect::RestoreWindow {
                window_id: WindowId(windows[k]),
                entry_id: m.parked_windows[windows[k]],
            },
        ),
    decreases windows.len() - i,
{
    let next = m.restore_asked(WindowId(windows[i]));
    if i == k {
        let told = EngineEffect::RestoreWindow {
            window_id: WindowId(windows[k]),
            entry_id: m.parked_windows[windows[k]],
        };
        assert(next.effects[m.effects.len() as int] == told);
        crate::laws::steady::lemma_steady_restores_asked(next, windows, i + 1);
        let after = next.restores_asked(windows, i + 1);
        assert(after.effects[m.effects.len() as int] == next.effects[m.effects.len() as int]);
    } else {
        lemma_restores_told(next, windows, i + 1, k);
    }
}

/// A parked window whose workspace is displayed is asked back on screen,
/// under the entry it was parked with.
pub proof fn law_shown_windows_are_asked_back(m: Model, now_unix: i64, id: isize)
    requires
        m.inventory.dom().finite(),
        m.switch is None,
        m.switch_degraded is None,
        m.inventory.contains_key(id),
        !m.in_hidden_workspace(id),
        m.parked_windows.contains_key(id),
    ensures
        m.hidden_reconciled(now_unix).effects.contains(
            EngineEffect::RestoreWindow {
                window_id: WindowId(id),
                entry_id: m.parked_windows[id],
            },
        ),
{
    broadcast use vstd::seq_lib::group_filter_ensures;

    reveal(Model::hidden_reconciled);
    let managed = sorted(m.inventory.dom());
    lemma_sorted(m.inventory.dom());
    let parks = managed.filter(m.must_park());
    let next = m.parks_asked(parks, 0, now_unix);
    lemma_parks_asked_only(m, parks, 0, now_unix);
    let restores = managed.filter(m.must_restore());
    assert(managed.to_set().contains(id));
    let j = choose|j: int| 0 <= j < managed.len() && managed[j] == id;
    assert(m.must_restore()(managed[j]));
    assert(restores.contains(managed[j]));
    let k = choose|k: int| 0 <= k < restores.len() && restores[k] == id;
    lemma_restores_told(next, restores, 0, k);
}

/// The rules do not exclude the window, and it is managed the way they say.
pub open spec fn admitted(a: Answers, rules: RuleBook, managed: ManagedWindow) -> bool {
    match a.verdict_spec(rules, managed.window) {
        Ok(verdict) => verdict.manage != ManageAction::Exclude && managed.action == verdict.manage,
        Err(_) => false,
    }
}

proof fn lemma_resolved_admits(
    m: Model,
    a: Answers,
    seen: Seq<Window>,
    i: int,
    next: Map<isize, ManagedWindow>,
    targets: Seq<RuleTarget>,
)
    requires
        forall|id: isize| #[trigger] next.contains_key(id) ==> admitted(a, m.rules, next[id]),
    ensures
        match m.resolved(a, seen, i, next, targets) {
            Ok((_, all, _)) => forall|id: isize| #[trigger] all.contains_key(id) ==> admitted(
                a,
                m.rules,
                all[id],
            ),
            Err(_) => true,
        },
    decreases seen.len() - i,
{
    if i < seen.len() {
        let window = seen[i];
        match a.verdict_spec(m.rules, window) {
            Err(_) => {},
            Ok(verdict) => {
                if verdict.manage == ManageAction::Exclude {
                    lemma_resolved_admits(m, a, seen, i + 1, next, targets);
                } else {
                    let wanted = match verdict.workspace {
                        Some(request) => if m.inventory.contains_key(window.id.0) {
                            targets
                        } else {
                            targets.push(
                                RuleTarget {
                                    window_id: window.id,
                                    rule_id: verdict.rule_id,
                                    request,
                                },
                            )
                        },
                        None => targets,
                    };
                    let managed = ManagedWindow {
                        window,
                        action: verdict.manage,
                        eligibility: m.observed_eligibility(window, verdict.manage),
                    };
                    let more = next.insert(window.id.0, managed);
                    lemma_resolved_admits(m.tracking(window), a, seen, i + 1, more, wanted);
                }
            },
        }
    }
}

/// Only windows the rules do not exclude are managed, each the way the rules
/// say.
pub proof fn law_only_what_the_rules_admit_is_managed(
    m: Model,
    a: Answers,
    windows: Seq<Window>,
    id: isize,
)
    requires
        m.parked_windows.dom().finite(),
    ensures
        match m.observed(a, windows) {
            Ok((after, _)) => after.inventory.contains_key(id) ==> admitted(
                a,
                m.rules,
                after.inventory[id],
            ),
            Err(_) => true,
        },
{
    reveal(Model::observed);
    lemma_resolved_admits(m, a, windows, 0, Map::empty(), Seq::empty());
    lemma_targets_seen(m, a, windows, 0, Map::empty(), Seq::empty());
    match m.resolved(a, windows, 0, Map::empty(), Seq::empty()) {
        Err(_) => {},
        Ok((seen, next, targets)) => {
            lemma_replaced(seen, a, next, targets);
        },
    }
}

// While a switch is under way.

proof fn lemma_committed_ends(m: Model, a: Answers, switch: Switching)
    ensures
        match m.committed(a, switch) {
            Ok(after) => after.switch is None,
            Err(_) => true,
        },
{
    let closed = m.unswitched();
    let scoped = closed.commit_scoped(switch);
    lemma_scoped_only(closed, switch);
    reveal(Model::displayed_now);
    let stashed = if switch.outgoing is Some {
        scoped.tree_stashed(switch.display_id)
    } else {
        scoped
    };
    let shown = Model {
        focused_display: Some(switch.display_id),
        ..stashed.name_shown(switch.target, switch.display_id)
    };
    lemma_arranged(shown, a);
    match shown.arranged(a) {
        Ok(next) => {
            lemma_workspaces_persisted(next, a, 0);
            match next.workspaces_persisted(a, 0) {
                Ok(done) => {
                    reveal(Model::commit_closed);
                    reveal(Model::scope_closed);
                    reveal(Model::commit_concluded);
                },
                Err(_) => {},
            }
        },
        Err(_) => {},
    }
}

/// As long as a switch is under way no display shows anything else than
/// before: moving on changes the pool only by ending the switch.
pub proof fn law_a_switch_under_way_changes_no_display(m: Model, a: Answers)
    ensures
        match m.switch_advanced(a) {
            Ok(after) => after.switch is Some ==> after.workspaces == m.workspaces,
            Err(_) => true,
        },
{
    match m.switch {
        None => {},
        Some(switch) => {
            let closed = m.unswitched();
            lemma_committed_ends(closed, a, switch);
            crate::laws::parts::lemma_calm_compensation_advanced(closed, switch);
            let owed = switch.queued.filter(closed.at_parking_site());
            let moved = closed.switching(
                Switching {
                    phase: crate::outcome::WorkspaceSwitchPhase::Restoring,
                    queued: Seq::empty(),
                    in_flight: owed,
                    restored: switch.restored + switch.queued.filter(closed.off_parking_site()),
                    ..switch
                },
            );
            crate::laws::parts::lemma_calm_restores_emitted(moved, owed, 0);
        },
    }
}

/// A switch that has begun and is still under way has changed no display: its
/// windows move first, and the displayed assignment follows when all have.
pub proof fn law_a_begun_switch_changes_no_display(
    m: Model,
    a: Answers,
    plan: SwitchPlan,
    reverses_undo: Option<UndoTransactionId>,
)
    ensures
        match m.switch_begun(a, plan, reverses_undo) {
            Ok(after) => after.switch is Some ==> after.workspaces == m.workspaces,
            Err(_) => true,
        },
{
    reveal(Model::switch_begun);
    let id = crate::state::bumped(m.next_switch_id);
    let opened = Model {
        next_switch_id: id,
        switch: Some(
            Switching {
                id,
                display_id: plan.display_id,
                target: plan.target,
                outgoing: plan.outgoing,
                phase: crate::outcome::WorkspaceSwitchPhase::Recording,
                recording: Seq::empty(),
                in_flight: Seq::empty(),
                queued: plan.restore,
                parked: Seq::empty(),
                restored: Seq::empty(),
                stranded: Seq::empty(),
                failure: None,
                prior_placements: plan.park.filter(m.managed()).map_values(m.prior_placement()),
                reverses_undo,
            },
        ),
        ..m
    };
    crate::laws::parts::lemma_calm_switch_parks_asked(opened, plan.park, 0, a.now_unix);
    let asked = opened.switch_parks_asked(plan.park, 0, a.now_unix);
    law_a_switch_under_way_changes_no_display(asked, a);
}

// Plans and what comes of them.

/// A caller is never told something else than what happens: what a plan says
/// a workspace command would do is what the command concludes.
pub proof fn law_commands_conclude_what_was_planned(before: Model, event: Event, a: Answers)
    ensures
        match (event, step(before, event, a)) {
            (Event::WorkspaceCreateRequested { name }, Ok(after)) => after.last_workspace_result
                == Some(
                match before.create_plan(name) {
                    Ok(applied) => Conclusion::Created(applied),
                    Err(refusal) => Conclusion::Refused(refusal),
                },
            ),
            (Event::WorkspaceDeleteRequested { name }, Ok(after)) => match before.delete_plan(
                a,
                name,
            ) {
                Ok(Ok(applied)) => after.last_workspace_result == Some(
                    Conclusion::Deleted(applied),
                ),
                Ok(Err(refusal)) => after.last_workspace_result == Some(
                    Conclusion::Refused(refusal),
                ),
                Err(_) => false,
            },
            (
                Event::WorkspaceMoveRequested { name, display_id },
                Ok(after),
            ) => after.last_workspace_result == Some(
                match before.move_plan(name, display_id) {
                    Ok(applied) => Conclusion::Moved(applied),
                    Err(refusal) => Conclusion::Refused(refusal),
                },
            ),
            (Event::WorkspaceFocusRequested { name }, Ok(after)) => match before.focus_plan(name) {
                Ok(applied) => applied is SwitchStarted || after.last_workspace_result == Some(
                    Conclusion::Focused(applied),
                ),
                Err(refusal) => after.last_workspace_result == Some(Conclusion::Refused(refusal)),
            },
            _ => true,
        },
{
    reveal(Model::on_create);
    reveal(Model::on_delete);
    reveal(Model::on_workspace_move);
    reveal(Model::on_workspace_focus);
    reveal(Model::shown_without_moves);
    let m = Model { undo_scope: None, ..before };
    match event {
        Event::WorkspaceFocusRequested { name } => {
            assert(m.focus_plan(name) == before.focus_plan(name)) by {
                lemma_focus_plan_unscoped(before, name);
            }
        },
        _ => {},
    }
}

/// What a command gathers for its undo decides nothing about a focus.
proof fn lemma_focus_plan_unscoped(before: Model, name: RequestedName)
    ensures
        (Model { undo_scope: None, ..before }).focus_plan(name) == before.focus_plan(name),
{
    let m = Model { undo_scope: None, ..before };
    match before.required(name) {
        Ok(i) => {
            let members = before.workspaces.members_of(before.workspaces.list[i].name);
            assert(m.live_at(members) =~= before.live_at(members));
            let target = crate::name::request_for(before.workspaces.list[i].name);
            match before.target_display() {
                Some(display_id) => {
                    lemma_switch_plan_unscoped(before, display_id, target);
                },
                None => {},
            }
        },
        Err(_) => {},
    }
}

proof fn lemma_switch_plan_unscoped(before: Model, display_id: DisplayId, request: RequestedName)
    ensures
        (Model { undo_scope: None, ..before }).switch_plan_on(display_id, request)
            == before.switch_plan_on(display_id, request),
{
    let m = Model { undo_scope: None, ..before };
    match before.required(request) {
        Ok(i) => {
            let outgoing = before.workspaces.displayed_on(display_id);
            match outgoing {
                Some(name) => {
                    lemma_leaving_unscoped(
                        before,
                        name,
                        before.workspaces.members_of(name),
                        0,
                        Seq::empty(),
                    );
                },
                None => {},
            }
            assert(m.is_parked() =~= before.is_parked());
            let leaving = match outgoing {
                Some(name) => before.leaving(
                    name,
                    before.workspaces.members_of(name),
                    0,
                    Seq::empty(),
                ),
                None => Ok(Seq::empty()),
            };
            match leaving {
                Ok(park) => {
                    assert forall|window_id: WindowId| #[trigger]
                        m.parking_refusal(window_id) == before.parking_refusal(window_id) by {
                        assert(m.is_pending(window_id) == before.is_pending(window_id));
                    }
                    assert(m.unparkable(park) =~= before.unparkable(park));
                },
                Err(_) => {},
            }
        },
        Err(_) => {},
    }
}

proof fn lemma_leaving_unscoped(
    before: Model,
    name: WorkspaceName,
    members: Seq<isize>,
    i: int,
    done: Seq<WindowId>,
)
    ensures
        (Model { undo_scope: None, ..before }).leaving(name, members, i, done) == before.leaving(
            name,
            members,
            i,
            done,
        ),
    decreases members.len() - i,
{
    if i < members.len() {
        lemma_leaving_unscoped(before, name, members, i + 1, done);
        lemma_leaving_unscoped(before, name, members, i + 1, done.push(WindowId(members[i])));
    }
}

/// A compensation that put everything back leaves the state as the switch
/// found it, but for the conclusion it publishes.
pub proof fn law_clean_compensation_leaves_no_trace(m: Model, switch: Switching)
    requires
        switch.stranded.len() == 0,
    ensures
        ({
            let after = m.compensation_finished(switch);
            after == (Model {
                switch: None,
                last_switch_result: after.last_switch_result,
                last_workspace_result: after.last_workspace_result,
                revision: after.revision,
                ..m
            })
        }),
        m.compensation_finished(switch).last_switch_result matches Some(
            Conclusion::SwitchFailed { compensated, .. },
        ) && compensated,
{
}

/// A stranded window that still owes a move settles nothing: switching stays
/// blocked until it has landed.
pub proof fn law_a_window_that_owes_a_move_settles_nothing(m: Model, window_id: WindowId)
    requires
        m.stranded_move(window_id) is Some,
    ensures
        m.stranded_settled(window_id) == m,
{
}

} // verus!
