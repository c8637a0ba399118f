//! Who is managed, who may be tiled, and what is remembered of a window, said
//! of what was observed.

use vstd::prelude::*;

verus! {

use crate::answers::{Answer, Answers, Query};
use crate::config::{Config, ConfigSet};
use crate::geometry::WindowId;
use crate::laws::hotplug::{called, gone, lemma_called};
use crate::laws::repeats::tracks_on;
use crate::laws::workspaces::{lemma_replaced, lemma_targets_seen};
use crate::observe::RuleTarget;
use crate::outcome::{ParkingCapability, ParkingRefusal, ShowState};
use crate::state::Model;
use crate::table::{lemma_sorted, sorted};
use crate::text::lemma_first_index;
use crate::window::{
    eligibility, EligibilityReason, ManageAction, ManagedWindow, Window, WindowLifecycle,
};

// Eligibility.

/// Why a window may be tiled or not: a rule that floats it comes first, and
/// after that what it cannot do, what it may not, a breaker, and the state it
/// is in.
pub open spec fn why(window: Window, action: ManageAction, open: bool, reason: EligibilityReason) -> bool {
    let floats = action == ManageAction::Float;
    let fit = !floats && window.capabilities.tileable && !window.elevated;
    match reason {
        EligibilityReason::Eligible => fit && !open && window.lifecycle == WindowLifecycle::Active,
        EligibilityReason::FloatingRule => floats,
        EligibilityReason::NotTileable => !floats && !window.capabilities.tileable,
        EligibilityReason::Elevated => !floats && window.capabilities.tileable && window.elevated,
        EligibilityReason::CircuitOpen => fit && open,
        EligibilityReason::Minimized => fit && !open && window.lifecycle
            == WindowLifecycle::Minimized,
        EligibilityReason::Maximized => fit && !open && window.lifecycle
            == WindowLifecycle::Maximized,
        EligibilityReason::Fullscreen => fit && !open && window.lifecycle
            == WindowLifecycle::Fullscreen,
        EligibilityReason::Hidden => fit && !open && window.lifecycle == WindowLifecycle::Hidden,
        EligibilityReason::Cloaked => fit && !open && window.lifecycle == WindowLifecycle::Cloaked,
        EligibilityReason::SessionFloating => false,
    }
}

/// A window is eligible exactly where no rule floats it, it can be tiled, it
/// is not elevated, its breaker is closed and it is simply open on screen; and
/// the reason given where it is not is true of it.
pub proof fn law_eligibility_is_true_of_the_window(
    window: Window,
    action: ManageAction,
    open: bool,
    reason: EligibilityReason,
)
    ensures
        eligibility(window, action, open) == reason <==> why(window, action, open, reason),
{
}

/// The breaker of a window is open exactly from its third rejection in a row.
pub proof fn law_three_rejections_open_the_breaker(m: Model, id: isize)
    ensures
        m.breaker_open(id) <==> m.windows.contains_key(id) && m.windows[id].rejection_count >= 3,
{
}

// Observations.

/// What a batch says of one window, where it is managed.
pub open spec fn managed_as_observed(
    m: Model,
    a: Answers,
    window: Window,
    managed: ManagedWindow,
) -> bool {
    let id = window.id.0;
    let open = m.windows.contains_key(id) && m.windows[id].rejection_count >= 3;
    &&& managed.window == window
    &&& match a.look_up(Query::Verdict { rules: m.rules, window }) {
        Some(Answer::Verdict(verdict)) => verdict.manage != ManageAction::Exclude && managed.action
            == verdict.manage,
        _ => false,
    }
    &&& if m.session_tiled.contains(id) {
        why(window, ManageAction::Tile, open, managed.eligibility)
    } else if m.session_floating.contains(id) {
        managed.eligibility == EligibilityReason::SessionFloating
    } else {
        why(window, managed.action, open, managed.eligibility)
    }
}

/// Whether the rules exclude a window.
pub open spec fn excluded(m: Model, a: Answers, window: Window) -> bool {
    match a.look_up(Query::Verdict { rules: m.rules, window }) {
        Some(Answer::Verdict(verdict)) => verdict.manage == ManageAction::Exclude,
        _ => false,
    }
}

/// A batch that lists each window once.
pub open spec fn each_once(windows: Seq<Window>) -> bool {
    forall|i: int, j: int|
        0 <= i < j < windows.len() ==> (#[trigger] windows[i]).id != (#[trigger] windows[j]).id
}

proof fn lemma_resolved_says(
    start: Model,
    m: Model,
    a: Answers,
    seen: Seq<Window>,
    i: int,
    next: Map<isize, ManagedWindow>,
    targets: Seq<RuleTarget>,
    k: int,
)
    requires
        0 <= i <= seen.len(),
        0 <= k < seen.len(),
        each_once(seen),
        m == (Model { windows: m.windows, ..start }),
        tracks_on(start.windows, m.windows),
        k >= i ==> m.windows.contains_key(seen[k].id.0) == start.windows.contains_key(seen[k].id.0),
        k < i ==> {
            let id = seen[k].id.0;
            &&& !excluded(start, a, seen[k]) ==> next.contains_key(id) && managed_as_observed(
                start,
                a,
                seen[k],
                next[id],
            ) && m.windows.contains_key(id) && (!start.windows.contains_key(id)
                ==> m.windows[id].display_id == seen[k].display_id && m.windows[id].bounds
                == seen[k].bounds && m.windows[id].rejection_count == 0
                && m.windows[id].previous_placement is None)
            &&& excluded(start, a, seen[k]) ==> !next.contains_key(id)
        },
        k >= i ==> !next.contains_key(seen[k].id.0),
    ensures
        match m.resolved(a, seen, i, next, targets) {
            Ok((after, all, _)) => {
                let id = seen[k].id.0;
                &&& after == (Model { windows: after.windows, ..start })
                &&& tracks_on(start.windows, after.windows)
                &&& !excluded(start, a, seen[k]) ==> all.contains_key(id) && managed_as_observed(
                    start,
                    a,
                    seen[k],
                    all[id],
                ) && after.windows.contains_key(id) && (!start.windows.contains_key(id)
                    ==> after.windows[id].display_id == seen[k].display_id
                    && after.windows[id].bounds == seen[k].bounds
                    && after.windows[id].rejection_count == 0
                    && after.windows[id].previous_placement is None)
                &&& excluded(start, a, seen[k]) ==> !all.contains_key(id)
            },
            Err(_) => true,
        },
    decreases seen.len() - i,
{
    if i < seen.len() {
        let window = seen[i];
        if k < i {
            assert(seen[k].id != seen[i].id);
        }
        if i < k {
            assert(seen[i].id != seen[k].id);
        }
        match a.verdict_spec(m.rules, window) {
            Err(_) => {},
            Ok(verdict) => {
                if verdict.manage == ManageAction::Exclude {
                    lemma_resolved_says(start, m, a, seen, i + 1, next, targets, k);
                } else {
                    let wanted = match verdict.workspace {
                        Some(request) => if m.inventory.contains_key(window.id.0) {
                            targets
                        } else {
                            targets.push(
                                RuleTarget {
                                    window_id: window.id,
                                    rule_id: verdict.rule_id,
                                    request,
                                },
                            )
                        },
                        None => targets,
                    };
                    let managed = ManagedWindow {
                        window,
                        action: verdict.manage,
                        eligibility: m.observed_eligibility(window, verdict.manage),
                    };
                    let more = next.insert(window.id.0, managed);
                    let tracking = m.tracking(window);
                    lemma_resolved_says(start, tracking, a, seen, i + 1, more, wanted, k);
                }
            },
        }
    }
}

/// A managed window was observed.
proof fn lemma_resolved_only(
    m: Model,
    a: Answers,
    seen: Seq<Window>,
    i: int,
    next: Map<isize, ManagedWindow>,
    targets: Seq<RuleTarget>,
    id: isize,
)
    requires
        0 <= i <= seen.len(),
    ensures
        match m.resolved(a, seen, i, next, targets) {
            Ok((_, all, _)) => all.contains_key(id) ==> next.contains_key(id) || exists|k: int|
                i <= k < seen.len() && (#[trigger] seen[k]).id.0 == id,
            Err(_) => true,
        },
    decreases seen.len() - i,
{
    if i < seen.len() {
        let window = seen[i];
        match a.verdict_spec(m.rules, window) {
            Err(_) => {},
            Ok(verdict) => {
                if verdict.manage == ManageAction::Exclude {
                    lemma_resolved_only(m, a, seen, i + 1, next, targets, id);
                } else {
                    let wanted = match verdict.workspace {
                        Some(request) => if m.inventory.contains_key(window.id.0) {
                            targets
                        } else {
                            targets.push(
                                RuleTarget {
                                    window_id: window.id,
                                    rule_id: verdict.rule_id,
                                    request,
                                },
                            )
                        },
                        None => targets,
                    };
                    let managed = ManagedWindow {
                        window,
                        action: verdict.manage,
                        eligibility: m.observed_eligibility(window, verdict.manage),
                    };
                    let more = next.insert(window.id.0, managed);
                    lemma_resolved_only(m.tracking(window), a, seen, i + 1, more, wanted, id);
                    if window.id.0 == id {
                        assert(seen[i].id.0 == id);
                    }
                }
            },
        }
    }
}

/// A batch of observations settles who is managed: every window in it that the
/// rules do not exclude, the way they say, as it was observed, and with the
/// eligibility that is true of it, the session's own overrides first; and no
/// other window. A window that was not tracked is tracked where it was seen;
/// one that was stays placed as it was.
pub proof fn law_observations_are_taken_as_they_are(
    m: Model,
    a: Answers,
    windows: Seq<Window>,
    k: int,
    id: isize,
)
    requires
        m.parked_windows.dom().finite(),
        each_once(windows),
        0 <= k < windows.len(),
    ensures
        match m.observed(a, windows) {
            Ok((after, _)) => {
                let seen = windows[k].id.0;
                &&& (excluded(m, a, windows[k]) ==> !after.inventory.contains_key(seen))
                &&& (!excluded(m, a, windows[k]) ==> {
                    &&& after.inventory.contains_key(seen)
                    &&& managed_as_observed(m, a, windows[k], after.inventory[seen])
                    &&& after.windows.contains_key(seen)
                    &&& if m.windows.contains_key(seen) {
                        after.windows[seen] == m.windows[seen]
                    } else {
                        &&& after.windows[seen].display_id == windows[k].display_id
                        &&& after.windows[seen].bounds == windows[k].bounds
                        &&& after.windows[seen].rejection_count == 0
                        &&& after.windows[seen].previous_placement is None
                    }
                })
                &&& (after.inventory.contains_key(id) ==> exists|j: int|
                    0 <= j < windows.len() && (#[trigger] windows[j]).id.0 == id)
                &&& (after.windows.contains_key(id) ==> after.inventory.contains_key(id))
            },
            Err(_) => true,
        },
{
    reveal(Model::observed);
    lemma_targets_seen(m, a, windows, 0, Map::empty(), Seq::empty());
    lemma_resolved_says(m, m, a, windows, 0, Map::empty(), Seq::empty(), k);
    lemma_resolved_only(m, a, windows, 0, Map::empty(), Seq::empty(), id);
    match m.resolved(a, windows, 0, Map::empty(), Seq::empty()) {
        Err(_) => {},
        Ok((seen, next, targets)) => {
            lemma_replaced(seen, a, next, targets);
            lemma_replaced_windows(seen, a, next, targets);
            match seen.inventory_replaced(a, next, targets) {
                Ok(after) => {
                    if after.windows.contains_key(id) {
                        assert(after.windows.dom().contains(id));
                    }
                },
                Err(_) => {},
            }
        },
    }
}

/// What follows a new inventory keeps every placement of a managed window.
proof fn lemma_replaced_windows(
    m: Model,
    a: Answers,
    next: Map<isize, ManagedWindow>,
    targets: Seq<RuleTarget>,
)
    requires
        m.parked_windows.dom().finite(),
        forall|k: int|
            0 <= k < targets.len() ==> next.contains_key((#[trigger] targets[k]).window_id.0),
    ensures
        match m.inventory_replaced(a, next, targets) {
            Ok(after) => after.windows == m.windows.restrict(next.dom()),
            Err(_) => true,
        },
{
    reveal(Model::inventory_replaced);
    reveal(Model::unassigned_assigned);
    let managed = next.dom();
    let departed = sorted(m.inventory.dom()).filter(Model::outside(managed));
    let kept = m.tracking_kept(managed);
    crate::laws::workspaces::lemma_all_departed_only(kept, a, departed, 0);
    match kept.all_departed(a, departed, 0) {
        Err(_) => {},
        Ok(left) => {
            crate::laws::workspaces::lemma_memory_kept(left, managed);
            let replaced = Model { inventory: next, ..left.memory_kept(managed) };
            crate::laws::workspaces::lemma_targets_applied_only(replaced, targets, 0, managed);
            let assigned = replaced.targets_applied(targets, 0).unassigned_assigned();
            crate::laws::workspaces::lemma_hidden_reconciled_only(assigned, a.now_unix);
        },
    }
}

// What is remembered of a window.

/// What recognises a window later is its application, its path, its class, its
/// role, its ordinal among its application's windows, its bounds and the
/// display it is on: each exactly as it was observed.
pub proof fn law_evidence_is_what_was_observed(m: Model, id: isize, at: int)
    requires
        m.inventory.contains_key(id),
        called(m.displays, m.inventory[id].window.display_id, at),
    ensures
        ({
            let window = m.inventory[id].window;
            match m.evidence(id) {
                Some(evidence) => {
                    &&& evidence.application_id == window.application_id
                    &&& evidence.executable_path == window.executable_path
                    &&& evidence.native_class == window.native_class
                    &&& evidence.role == window.role
                    &&& evidence.launch_order == m.launch_order(id)
                    &&& evidence.last_placement == window.bounds
                    &&& evidence.display_fingerprint == m.displays[at].stable_fingerprint
                },
                None => false,
            }
        }),
{
    lemma_called(m.displays, m.inventory[id].window.display_id, at);
}

/// A window's ordinal counts the managed windows of its application with a
/// smaller handle, and no others.
pub proof fn law_launch_order_counts_older_siblings(m: Model, id: isize, older: Set<isize>)
    requires
        m.inventory.dom().finite(),
        m.inventory.contains_key(id),
        older == Set::new(
            |k: isize|
                m.inventory.contains_key(k) && k < id
                    && m.inventory[k].window.application_id.0@
                    == m.inventory[id].window.application_id.0@,
        ),
        older.len() <= u32::MAX,
    ensures
        m.launch_order(id) == older.len(),
{
    broadcast use vstd::seq_lib::group_filter_ensures;

    let all = sorted(m.inventory.dom());
    lemma_sorted(m.inventory.dom());
    let pred = m.older_sibling(id);
    let left = all.filter(pred);
    crate::laws::arrangement::lemma_ascending_no_duplicates(all);
    crate::laws::arrangement::lemma_filter_no_duplicates(all, pred);
    left.unique_seq_to_set();
    assert(left.to_set() =~= older) by {
        assert forall|k: isize| left.to_set().contains(k) == older.contains(k) by {
            if left.to_set().contains(k) {
                let i = choose|i: int| 0 <= i < left.len() && left[i] == k;
                all.lemma_filter_pred(pred, i);
            }
            if older.contains(k) {
                assert(all.to_set().contains(k));
                let i = choose|i: int| 0 <= i < all.len() && all[i] == k;
                assert(pred(all[i]));
                assert(left.contains(all[i]));
            }
        }
    }
}

/// What the matcher is shown of the managed windows is each of them as it was
/// observed, with its display and its ordinal, in the order asked for.
pub proof fn law_candidates_are_the_managed_windows(m: Model, windows: Seq<WindowId>, i: int)
    requires
        0 <= i < windows.len(),
        forall|k: int| 0 <= k < windows.len() ==> m.inventory.contains_key((#[trigger] windows[k]).0),
    ensures
        m.candidates(windows).len() == windows.len(),
        ({
            let candidate = m.candidates(windows)[i];
            let window = m.inventory[windows[i].0].window;
            &&& candidate.window == window
            &&& candidate.launch_order == m.launch_order(windows[i].0)
            &&& forall|at: int| #[trigger]
                called(m.displays, window.display_id, at) ==> candidate.display_fingerprint == Some(
                    m.displays[at].stable_fingerprint,
                )
            &&& (gone(m.displays, window.display_id) ==> candidate.display_fingerprint is None)
        }),
{
    assert forall|k: int| 0 <= k < windows.len() implies m.managed()(#[trigger] windows[k]) by {}
    crate::laws::overflow::lemma_filter_everything(windows, m.managed());
    let window = m.inventory[windows[i].0].window;
    assert forall|at: int| #[trigger]
        called(m.displays, window.display_id, at) implies crate::topology::display_at(
        m.displays,
        window.display_id,
    ) == Some(at) by {
        lemma_called(m.displays, window.display_id, at);
    }
    lemma_called(m.displays, window.display_id, 0);
}

// Parking.

/// A window may be parked exactly where it is managed, the state database is
/// healthy, the parking site is verified, the window is neither full screen
/// nor minimized nor waiting already, and its display is connected. What is
/// recorded is the window itself, where it is seen, where it belongs, how it
/// is shown, and when.
pub proof fn law_parking_needs_a_way_back(m: Model, window_id: WindowId, now_unix: i64, at: int)
    ensures
        match m.parking(window_id, now_unix) {
            Ok(draft) => {
                let window = m.inventory[window_id.0].window;
                &&& m.inventory.contains_key(window_id.0)
                &&& m.persistence_health is Healthy
                &&& m.parking_capability is Verified
                &&& window.lifecycle != WindowLifecycle::Fullscreen
                &&& window.lifecycle != WindowLifecycle::Minimized
                &&& !gone(m.displays, window.display_id)
                &&& (forall|k: int|
                    0 <= k < m.pending_parking.len() ==> (
                    #[trigger] m.pending_parking[k]).window_id != window_id)
                &&& draft.session_id == m.session_id
                &&& draft.native_handle == window.id.0
                &&& draft.process_id == window.process_id
                &&& draft.application_id == window.application_id
                &&& (called(m.displays, window.display_id, at)
                    ==> draft.original_display_fingerprint == m.displays[at].stable_fingerprint)
                &&& draft.visible_bounds == window.bounds
                &&& draft.normal_bounds == if m.windows.contains_key(window_id.0) {
                    m.windows[window_id.0].bounds
                } else {
                    window.bounds
                }
                &&& (draft.show_state == ShowState::Maximized <==> window.lifecycle
                    == WindowLifecycle::Maximized)
                &&& (draft.show_state != ShowState::Minimized)
                &&& draft.recorded_at_unix == now_unix
            },
            Err(refusal) => match refusal {
                ParkingRefusal::NotManaged { window_id: w } => w == window_id
                    && !m.inventory.contains_key(window_id.0),
                ParkingRefusal::PersistenceDegraded => m.persistence_health is Degraded,
                ParkingRefusal::ParkingCapabilityUnverified => m.persistence_health is Healthy
                    && m.parking_capability is Unverified,
                ParkingRefusal::ParkingRefused { reason } => m.persistence_health is Healthy
                    && m.parking_capability == (ParkingCapability::Refused { reason }),
                ParkingRefusal::Fullscreen { window_id: w } => w == window_id
                    && m.inventory[window_id.0].window.lifecycle == WindowLifecycle::Fullscreen
                    && m.parking_capability is Verified,
                ParkingRefusal::Minimized { window_id: w } => w == window_id
                    && m.inventory[window_id.0].window.lifecycle == WindowLifecycle::Minimized
                    && m.parking_capability is Verified,
                ParkingRefusal::AlreadyPending { window_id: w } => w == window_id && exists|k: int|
                    0 <= k < m.pending_parking.len() && (
                    #[trigger] m.pending_parking[k]).window_id == window_id,
                ParkingRefusal::UnknownDisplay { window_id: w } => w == window_id && gone(
                    m.displays,
                    m.inventory[window_id.0].window.display_id,
                ),
            },
        },
{
    lemma_called(m.displays, m.inventory[window_id.0].window.display_id, at);
}

// Configuration.

/// The configuration in force is that of the first profile made for the
/// topology, and the base where none was.
pub proof fn law_the_profile_of_the_topology_applies(set: ConfigSet, topology: Seq<char>, i: int)
    requires
        0 <= i < set.profiles.len(),
    ensures
        set.profiles[i].fingerprint@ == topology && (forall|k: int|
            0 <= k < i ==> (#[trigger] set.profiles[k]).fingerprint@ != topology)
            ==> set.select(topology) == set.profiles[i].config,
        (forall|k: int|
            0 <= k < set.profiles.len() ==> (#[trigger] set.profiles[k]).fingerprint@ != topology)
            ==> set.select(topology) == set.base,
{
    let p = set.profile_for(topology);
    lemma_first_index(set.profiles.len(), p);
    assert forall|k: int| #[trigger] p(k) == (set.profiles[k].fingerprint@ == topology) by {}
    match crate::text::first_index(set.profiles.len(), p) {
        Some(found) => {
            assert(p(found));
            if set.profiles[i].fingerprint@ == topology && found < i {
                assert(set.profiles[found].fingerprint@ == topology);
            }
            if i < found {
                assert(!p(i));
            }
        },
        None => {
            assert(!p(i));
        },
    }
}

/// A layout is found by its name: the first saved one of that name.
pub proof fn law_a_layout_is_found_by_its_name(config: Config, name: Seq<char>, i: int)
    requires
        0 <= i < config.layouts.len(),
    ensures
        config.layouts[i].name@ == name && (forall|k: int|
            0 <= k < i ==> (#[trigger] config.layouts[k]).name@ != name) ==> config.layout(name)
            == Some(config.layouts[i].cells),
        (forall|k: int| 0 <= k < config.layouts.len() ==> (#[trigger] config.layouts[k]).name@ != name)
            ==> config.layout(name) is None,
{
    let p = config.layout_named(name);
    lemma_first_index(config.layouts.len(), p);
    assert forall|k: int| #[trigger] p(k) == (config.layouts[k].name@ == name) by {}
    match crate::text::first_index(config.layouts.len(), p) {
        Some(found) => {
            assert(p(found));
            if config.layouts[i].name@ == name && found < i {
                assert(config.layouts[found].name@ == name);
            }
            if i < found {
                assert(!p(i));
            }
        },
        None => {
            assert(!p(i));
        },
    }
}

} // verus!
