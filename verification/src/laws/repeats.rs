//! A batch of observations after which nothing looks different changed
//! nothing.

use vstd::prelude::*;

verus! {

use crate::answers::Answers;
use crate::geometry::WindowId;
use crate::glance::attention;
use crate::laws::steady::unnoticed;
use crate::observe::RuleTarget;
use crate::state::Model;
use crate::table::{lemma_sorted, sorted};
use crate::window::{same_inventory, ManagedWindow, Window, WindowPlacement};

/// What was tracked is tracked as it was.
pub open spec fn tracks_on(
    before: Map<isize, WindowPlacement>,
    after: Map<isize, WindowPlacement>,
) -> bool {
    forall|id: isize| #[trigger]
        before.contains_key(id) ==> after.contains_key(id) && after[id] == before[id]
}

proof fn lemma_resolved_tracks(
    m: Model,
    a: Answers,
    seen: Seq<Window>,
    i: int,
    next: Map<isize, ManagedWindow>,
    targets: Seq<RuleTarget>,
)
    requires
        forall|k: int|
            0 <= k < targets.len() ==> next.contains_key((#[trigger] targets[k]).window_id.0)
                && !m.inventory.contains_key(targets[k].window_id.0),
    ensures
        match m.resolved(a, seen, i, next, targets) {
            Ok((after, all, wanted)) => {
                &&& after == (Model { windows: after.windows, ..m })
                &&& tracks_on(m.windows, after.windows)
                &&& forall|k: int|
                    0 <= k < wanted.len() ==> all.contains_key((#[trigger] wanted[k]).window_id.0)
                        && !m.inventory.contains_key(wanted[k].window_id.0)
            },
            Err(_) => true,
        },
    decreases seen.len() - i,
{
    if i < seen.len() {
        let window = seen[i];
        match a.verdict_spec(m.rules, window) {
            Err(_) => {},
            Ok(verdict) => {
                if verdict.manage == crate::window::ManageAction::Exclude {
                    lemma_resolved_tracks(m, a, seen, i + 1, next, targets);
                } else {
                    let wanted = match verdict.workspace {
                        Some(request) => if m.inventory.contains_key(window.id.0) {
                            targets
                        } else {
                            targets.push(
                                RuleTarget {
                                    window_id: window.id,
                                    rule_id: verdict.rule_id,
                                    request,
                                },
                            )
                        },
                        None => targets,
                    };
                    let managed = ManagedWindow {
                        window,
                        action: verdict.manage,
                        eligibility: m.observed_eligibility(window, verdict.manage),
                    };
                    let longer = next.insert(window.id.0, managed);
                    assert forall|k: int| 0 <= k < wanted.len() implies longer.contains_key(
                        (#[trigger] wanted[k]).window_id.0,
                    ) && !m.inventory.contains_key(wanted[k].window_id.0) by {
                        if k < targets.len() {
                            assert(wanted[k] == targets[k]);
                        }
                    }
                    let tracking = m.tracking(window);
                    assert(tracks_on(m.windows, tracking.windows));
                    lemma_resolved_tracks(tracking, a, seen, i + 1, longer, wanted);
                }
            },
        }
    }
}

proof fn lemma_maximized_floated_only(m: Model, windows: Seq<Window>, i: int)
    ensures
        m.maximized_floated(windows, i) == (Model {
            session_floating: m.maximized_floated(windows, i).session_floating,
            ..m
        }),
    decreases windows.len() - i,
{
    if i < windows.len() {
        let floated = Model {
            session_floating: m.session_floating.insert(windows[i].id.0),
            ..m
        };
        lemma_maximized_floated_only(floated, windows, i + 1);
        lemma_maximized_floated_only(m, windows, i + 1);
    }
}

/// A parked window that closed leaves an intent behind.
proof fn lemma_parked_closed_counts(m: Model, ids: Seq<isize>, i: int)
    requires
        0 <= i <= ids.len(),
    ensures
        m.parked_closed(ids, i).intents.len() == m.intents.len() + ids.len() - i,
    decreases ids.len() - i,
{
    if i < ids.len() {
        let next = Model { parked_windows: m.parked_windows.remove(ids[i]), ..m }.intent(
            crate::state::Intent::MarkRestored(m.parked_windows[ids[i]]),
        );
        lemma_parked_closed_counts(next, ids, i + 1);
    }
}

/// A window asked to park leaves an intent behind, or only a refusal.
proof fn lemma_parks_asked_counts(m: Model, windows: Seq<isize>, i: int, now_unix: i64)
    ensures
        ({
            let after = m.parks_asked(windows, i, now_unix);
            &&& after.intents.len() >= m.intents.len()
            &&& (after.intents.len() == m.intents.len() ==> after == (Model {
                last_parking_refusal: after.last_parking_refusal,
                ..m
            }))
        }),
    decreases windows.len() - i,
{
    if i < windows.len() {
        lemma_parks_asked_counts(
            m.park_asked(WindowId(windows[i]), now_unix),
            windows,
            i + 1,
            now_unix,
        );
    }
}

/// A window asked back leaves an effect behind.
proof fn lemma_restores_asked_counts(m: Model, windows: Seq<isize>, i: int)
    ensures
        ({
            let after = m.restores_asked(windows, i);
            &&& after.effects.len() >= m.effects.len()
            &&& after.intents == m.intents
            &&& (after.effects.len() == m.effects.len() ==> after == m)
        }),
    decreases windows.len() - i,
{
    if i < windows.len() {
        lemma_restores_asked_counts(m.restore_asked(WindowId(windows[i])), windows, i + 1);
    }
}

proof fn lemma_hidden_reconciled_counts(m: Model, now_unix: i64)
    ensures
        ({
            let after = m.hidden_reconciled(now_unix);
            &&& after.intents.len() >= m.intents.len()
            &&& after.effects.len() >= m.effects.len()
            &&& (after.intents.len() == m.intents.len() && after.effects.len() == m.effects.len()
                ==> after == (Model { last_parking_refusal: after.last_parking_refusal, ..m }))
        }),
{
    reveal(Model::hidden_reconciled);
    let managed = sorted(m.inventory.dom());
    let parks = managed.filter(m.must_park());
    lemma_parks_asked_counts(m, parks, 0, now_unix);
    crate::laws::workspaces::lemma_parks_asked_only(m, parks, 0, now_unix);
    let next = m.parks_asked(parks, 0, now_unix);
    lemma_restores_asked_counts(next, managed.filter(m.must_restore()), 0);
}

/// A filter that dropped nothing kept everything.
proof fn lemma_filter_all<T>(all: Seq<T>, pred: spec_fn(T) -> bool)
    ensures
        all.filter(pred).len() <= all.len(),
        all.filter(pred).len() == all.len() ==> all.filter(pred) == all,
    decreases all.len(),
{
    reveal(Seq::filter);
    if all.len() > 0 {
        lemma_filter_all(all.drop_last(), pred);
        assert(all =~= all.drop_last().push(all.last()));
    }
}

/// Nothing is outside the set whose members are listed.
proof fn lemma_none_outside(ids: Set<isize>)
    requires
        ids.finite(),
    ensures
        sorted(ids).filter(Model::outside(ids)) == Seq::<isize>::empty(),
{
    broadcast use vstd::seq_lib::group_filter_ensures;

    lemma_sorted(ids);
    let all = sorted(ids);
    let pred = Model::outside(ids);
    let left = all.filter(pred);
    if left.len() > 0 {
        assert(left.contains(left[0]));
        all.lemma_filter_pred(pred, 0);
        all.lemma_filter_contains_rev(pred, left[0]);
        assert(all.to_set().contains(left[0]));
    }
    assert(left =~= Seq::<isize>::empty());
}

/// Taking up the same inventory again changes nothing that does not show.
proof fn lemma_same_inventory_replaced(
    m: Model,
    seen: Model,
    a: Answers,
    next: Map<isize, ManagedWindow>,
    targets: Seq<RuleTarget>,
    after: Model,
)
    requires
        m.finite(),
        seen == (Model {
            windows: seen.windows,
            session_floating: seen.session_floating,
            observed_windows: seen.observed_windows,
            ..m
        }),
        tracks_on(m.windows, seen.windows),
        targets.len() == 0,
        !seen.inventory_differs(next),
        seen.inventory_replaced(a, next, targets) == Ok::<Model, crate::answers::Query>(after),
        !m.stirred(after),
    ensures
        unnoticed(m, after),
{
    reveal(Model::inventory_replaced);
    let managed = next.dom();
    assert(managed == m.inventory.dom());
    lemma_none_outside(managed);
    let kept = seen.tracking_kept(managed);
    assert(kept.windows =~= seen.windows);
    assert(kept.all_departed(a, Seq::empty(), 0) == Ok::<Model, crate::answers::Query>(kept));
    let remembered = kept.memory_kept(managed);
    let gone = sorted(kept.parked_windows.dom()).filter(Model::outside(managed));
    let pooled = Model {
        workspaces: kept.workspaces.keeping_members(managed),
        rule_workspace_refusals: kept.rule_workspace_refusals.filter(
            Model::refuses_within(managed),
        ),
        ..kept
    };
    assert(pooled.parked_windows == kept.parked_windows);
    lemma_parked_closed_counts(pooled, gone, 0);
    let taken = Model { inventory: next, ..remembered };
    assert(taken.targets_applied(targets, 0) == taken);
    let assigned = taken.unassigned_assigned();
    reveal(Model::unassigned_assigned);
    lemma_hidden_reconciled_counts(assigned, a.now_unix);
    let looks = m.at_a_glance();
    assert(looks == after.at_a_glance());
    crate::laws::workspaces::lemma_memory_kept(kept, managed);
    assert(looks.intents == after.at_a_glance().intents);
    assert(looks.effects == after.at_a_glance().effects);
    assert(gone.len() == 0);
    assert(remembered == pooled);
    assert(after == (Model { last_parking_refusal: after.last_parking_refusal, ..assigned }));
    assert(m.windows =~= after.windows) by {
        assert(looks.windows == after.at_a_glance().windows);
    }
    assert(m.session_floating == after.session_floating) by {
        assert(looks.floating == after.at_a_glance().floating);
    }
    assert(m.session_tiled == after.session_tiled) by {
        assert(looks.tiled == after.at_a_glance().tiled);
    }
    assert(m.focused_window == after.focused_window) by {
        assert(looks.focused == after.at_a_glance().focused);
    }
    assert(m.rule_workspace_refusals == after.rule_workspace_refusals) by {
        assert(looks.refusals == after.at_a_glance().refusals);
        lemma_filter_all(m.rule_workspace_refusals, Model::refuses_within(managed));
    }
    assert(m.workspaces.members =~= after.workspaces.members) by {
        assert(looks.members == after.at_a_glance().members);
        assert forall|id: isize| #[trigger]
            m.workspaces.members.contains_key(id) implies after.workspaces.members.contains_key(id)
            && after.workspaces.members[id] == m.workspaces.members[id] by {
            assert(looks.members.contains(id));
            assert(after.workspaces.members.contains_key(id));
            if !managed.contains(id) {
                assert(!taken.inventory.contains_key(id));
                assert(taken.gained(id) is None);
            }
        }
    }
    assert(m.workspaces.list =~= after.workspaces.list) by {
        assert(looks.attention == after.at_a_glance().attention);
        assert forall|j: int| 0 <= j < m.workspaces.list.len() implies m.workspaces.list[j]
            == after.workspaces.list[j] by {
            assert(attention(m.workspaces)[j] == attention(after.workspaces)[j]);
        }
    }
    assert(m.workspaces == after.workspaces);
    assert(same_inventory(after.inventory, m.inventory));
}

/// A batch that changed neither the inventory nor what a glance takes in left
/// nothing to notice.
pub proof fn lemma_unstirred(m: Model, a: Answers, windows: Seq<Window>)
    requires
        m.finite(),
    ensures
        ({
            let floated = if m.tiling_active {
                m.maximized_floated(windows, 0)
            } else {
                m
            };
            match floated.remembering(windows).observed(a, windows) {
                Ok((next, changed)) => !changed && !m.stirred(next) ==> unnoticed(m, next),
                Err(_) => true,
            }
        }),
{
    lemma_maximized_floated_only(m, windows, 0);
    let floated = if m.tiling_active {
        m.maximized_floated(windows, 0)
    } else {
        m
    };
    let remembering = floated.remembering(windows);
    reveal(Model::observed);
    match remembering.resolved(a, windows, 0, Map::empty(), Seq::empty()) {
        Err(_) => {},
        Ok((seen, next, targets)) => {
            lemma_resolved_tracks(remembering, a, windows, 0, Map::empty(), Seq::empty());
            match seen.inventory_replaced(a, next, targets) {
                Err(_) => {},
                Ok(after) => {
                    if !seen.inventory_differs(next) && !m.stirred(after) {
                        if targets.len() > 0 {
                            assert(next.contains_key(targets[0].window_id.0));
                            assert(next.dom() == seen.inventory.dom());
                        }
                        lemma_same_inventory_replaced(m, seen, a, next, targets, after);
                    }
                },
            }
        },
    }
}

} // verus!
