//! What plain reports and requests change, said of the fields they are about,
//! and what a resize may not cost.

use vstd::prelude::*;

verus! {

use crate::answers::{Answer, Answers, ContainerTree, PlannedPlacement, Query, TreePlan};
use crate::event::Event;
use crate::geometry::{
    CardinalDirection, DisplayId, Rect, RecoveryEntryId, SplitAxis, Toward, WindowId,
};
use crate::laws::commands::{law_resize_takes_the_largest_legal_step, undisturbed};
use crate::laws::frame::lemma_arranged;
use crate::laws::hotplug::{called, gone, lemma_called};
use crate::laws::settling::{off_stage, lemma_off_stage};
use crate::outcome::{ParkingCapability, ParkingStage, PersistenceHealth, RecoveryOutcome};
use crate::reducer::step;
use crate::state::{EngineEffect, Intent, Model};
use crate::table::{lemma_sorted, sorted};
use crate::text::{first_index, lemma_first_index};

/// Whether `plan` is how the tree is laid out in `area` with the gaps and the
/// minimums of now.
pub open spec fn laid_out_as(m: Model, a: Answers, tree: ContainerTree, area: Rect, plan: TreePlan) -> bool {
    match a.look_up(Query::Shape { tree }) {
        Some(Answer::Shape(shape)) => a.look_up(
            Query::Plan {
                tree,
                area,
                gaps: m.config.gaps,
                minimums: m.minimums(shape.windows@),
            },
        ) == Some(Answer::Plan(plan)),
        _ => false,
    }
}

/// A layout that costs nothing against another: no window overflows that did
/// not, and neither gap shrinks.
pub open spec fn costs_nothing(current: TreePlan, next: TreePlan) -> bool {
    &&& next.gaps.outer >= current.gaps.outer
    &&& next.gaps.inner >= current.gaps.inner
    &&& forall|w: WindowId| #[trigger]
        next.overflow@.contains(w) ==> current.overflow@.contains(w)
}

/// A resize costs no window its place and no gap its width, and every larger
/// step of at most five points would, or cannot be taken.
pub proof fn law_a_resize_costs_nothing(
    m: Model,
    a: Answers,
    direction: CardinalDirection,
    focused: WindowId,
    at: int,
    larger: u32,
    next: TreePlan,
)
    requires
        m.focused_window == Some(focused),
        called(m.displays, m.inventory[focused.0].window.display_id, at),
    ensures
        m.resize_plan(a, direction) matches Ok(Ok(plan)) ==> {
            let tree = m.trees[m.displays[at].id.0];
            let area = m.displays[at].work_area;
            let axis = match direction {
                CardinalDirection::Left | CardinalDirection::Right => SplitAxis::Horizontal,
                CardinalDirection::Up | CardinalDirection::Down => SplitAxis::Vertical,
            };
            let toward = match direction {
                CardinalDirection::Left | CardinalDirection::Up => Toward::Start,
                CardinalDirection::Right | CardinalDirection::Down => Toward::End,
            };
            exists|current: TreePlan|
                {
                    &&& #[trigger] laid_out_as(m, a, tree, area, current)
                    &&& (laid_out_as(m, a, plan.tree, area, next) ==> costs_nothing(current, next))
                    &&& (plan.applied.percentage_points < larger <= 5 ==> match a.look_up(
                        Query::Resize { tree, window_id: focused, axis, toward, points: larger },
                    ) {
                        Some(Answer::Resized(Some(resized))) => laid_out_as(
                            m,
                            a,
                            resized.tree,
                            area,
                            next,
                        ) ==> !costs_nothing(current, next),
                        _ => true,
                    })
                }
        },
{
    reveal(Model::resize_plan);
    let display_id = m.displays[at].id;
    lemma_called(m.displays, display_id, at);
    match m.resize_plan(a, direction) {
        Ok(Ok(plan)) => {
            let area = m.displays[at].work_area;
            let tree = m.trees[display_id.0];
            let current = m.tree_plan(a, tree, area)->Ok_0;
            assert(laid_out_as(m, a, tree, area, current));
            let points = plan.applied.percentage_points;
            law_resize_takes_the_largest_legal_step(
                m,
                a,
                direction,
                display_id,
                focused,
                area,
                tree,
                current,
                5,
                5,
            );
            if laid_out_as(m, a, plan.tree, area, next) {
                crate::laws::heading::lemma_resized_by(
                    m,
                    a,
                    direction,
                    display_id,
                    focused,
                    area,
                    tree,
                    current,
                    5,
                );
                lemma_legal(current, next);
            }
            if points < larger <= 5 {
                law_resize_takes_the_largest_legal_step(
                    m,
                    a,
                    direction,
                    display_id,
                    focused,
                    area,
                    tree,
                    current,
                    5,
                    larger as nat,
                );
                lemma_legal(current, next);
            }
        },
        _ => {},
    }
}

proof fn lemma_legal(current: TreePlan, next: TreePlan)
    ensures
        crate::direction::legal(current, next) <==> costs_nothing(current, next),
{
    if costs_nothing(current, next) {
        assert forall|i: int| 0 <= i < next.overflow@.len() implies current.overflow@.contains(
            #[trigger] next.overflow@[i],
        ) by {
            assert(next.overflow@.contains(next.overflow@[i]));
        }
    }
    if crate::direction::legal(current, next) {
        assert forall|w: WindowId| #[trigger]
            next.overflow@.contains(w) implies current.overflow@.contains(w) by {
            let i = choose|i: int| 0 <= i < next.overflow@.len() && next.overflow@[i] == w;
            assert(current.overflow@.contains(next.overflow@[i]));
        }
    }
}

/// Pausing stops arrangement and resuming takes it up again; neither is done
/// twice.
pub proof fn law_pausing_and_resuming(before: Model, a: Answers)
    ensures
        match step(before, Event::PauseRequested, a) {
            Ok(after) => after == (Model {
                paused: true,
                revision: after.revision,
                ..undisturbed(before)
            }),
            Err(_) => false,
        },
        match step(before, Event::ResumeRequested, a) {
            Ok(after) => !after.paused && (!before.paused ==> after == undisturbed(before)),
            Err(_) => before.paused,
        },
{
    reveal(Model::on_resume);
    let resumed = Model { paused: false, ..undisturbed(before) };
    lemma_arranged(resumed, a);
}

/// What the database and the adapter report of themselves is what is held of
/// them afterwards, and nothing else changes.
pub proof fn law_reports_are_held(
    before: Model,
    a: Answers,
    health: PersistenceHealth,
    capability: ParkingCapability,
    unregistered: Vec<String>,
    outcomes: Vec<RecoveryOutcome>,
    i: int,
)
    ensures
        match step(before, Event::PersistenceHealthChanged(health), a) {
            Ok(after) => after == (Model {
                persistence_health: health,
                revision: after.revision,
                ..undisturbed(before)
            }),
            Err(_) => false,
        },
        match step(before, Event::ParkingCapabilityReported(capability), a) {
            Ok(after) => {
                &&& after == (Model {
                    parking_capability: after.parking_capability,
                    revision: after.revision,
                    ..undisturbed(before)
                })
                &&& after.parking_capability is Verified == capability is Verified
                &&& (capability matches ParkingCapability::Refused { reason } ==> (
                after.parking_capability matches ParkingCapability::Refused { reason: held }
                    && held@ == reason@))
            },
            Err(_) => false,
        },
        match step(before, Event::HotkeyRegistrationReported { unregistered }, a) {
            Ok(after) => {
                &&& after == (Model {
                    unregistered_bindings: after.unregistered_bindings,
                    revision: after.revision,
                    ..undisturbed(before)
                })
                &&& after.unregistered_bindings.len() == unregistered@.len()
                &&& (0 <= i < unregistered@.len() ==> after.unregistered_bindings[i]@
                    == unregistered@[i]@)
            },
            Err(_) => false,
        },
        match step(before, Event::RecoveryReported(outcomes), a) {
            Ok(after) => after == (Model {
                recovery_outcomes: outcomes@,
                revision: after.revision,
                ..undisturbed(before)
            }),
            Err(_) => false,
        },
        match step(before, Event::RearrangeRequested, a) {
            Ok(after) => after == (Model {
                effects: before.effects.push(EngineEffect::ReconcileWindows),
                revision: after.revision,
                ..undisturbed(before)
            }),
            Err(_) => false,
        },
{
}

/// Holds on hotkeys nest: keys are let through from the first hold to the end
/// of the last one, and an end without a hold is nothing.
pub proof fn law_capture_holds_nest(before: Model, a: Answers)
    ensures
        match step(before, Event::HotkeyCaptureStarted, a) {
            Ok(after) => {
                &&& after.capture_suspended
                &&& (before.capture_holds < usize::MAX ==> after.capture_holds
                    == before.capture_holds + 1)
                &&& (before.capture_holds == usize::MAX ==> after.capture_holds == usize::MAX)
            },
            Err(_) => false,
        },
        match step(before, Event::HotkeyCaptureEnded, a) {
            Ok(after) => {
                &&& (before.capture_holds == 0 ==> after == undisturbed(before))
                &&& (before.capture_holds > 0 ==> after.capture_holds == before.capture_holds - 1)
                &&& (before.capture_holds == 1 ==> !after.capture_suspended)
                &&& (before.capture_holds > 1 ==> after.capture_suspended
                    == before.capture_suspended)
            },
            Err(_) => false,
        },
{
}

/// The desktop takes focus from a window and leaves the display; a display is
/// focused on request where it is connected, and the window stays; a drag
/// holds the window on the display it is on.
pub proof fn law_where_focus_goes_on_request(
    before: Model,
    a: Answers,
    display_id: DisplayId,
    window_id: WindowId,
)
    ensures
        match step(before, Event::DesktopFocused, a) {
            Ok(after) => after == (Model {
                focused_window: None,
                revision: after.revision,
                ..undisturbed(before)
            }),
            Err(_) => false,
        },
        match step(before, Event::FocusDisplayRequested { display_id }, a) {
            Ok(after) => if gone(before.displays, display_id) {
                after == undisturbed(before)
            } else {
                after == (Model {
                    focused_display: Some(display_id),
                    revision: after.revision,
                    ..undisturbed(before)
                })
            },
            Err(_) => false,
        },
        match step(before, Event::InteractivePlacementStarted { window_id }, a) {
            Ok(after) => {
                &&& after == (Model {
                    interactive: after.interactive,
                    revision: after.revision,
                    ..undisturbed(before)
                })
                &&& (before.inventory.contains_key(window_id.0) ==> (
                after.interactive matches Some(held) && held.window_id == window_id
                    && held.display_id == before.inventory[window_id.0].window.display_id))
                &&& (!before.inventory.contains_key(window_id.0) && before.windows.contains_key(
                    window_id.0,
                ) ==> (after.interactive matches Some(held) && held.window_id == window_id
                    && held.display_id == before.windows[window_id.0].display_id))
                &&& (!before.inventory.contains_key(window_id.0) && !before.windows.contains_key(
                    window_id.0,
                ) ==> after == undisturbed(before))
            },
            Err(_) => false,
        },
{
    lemma_called(before.displays, display_id, 0);
    let found = crate::topology::display_at(before.displays, display_id);
    lemma_first_index(
        before.displays.len(),
        crate::topology::display_is(before.displays, display_id),
    );
}

/// What the adapter answers of a parked window: where it was parked, its entry
/// is held for it and marked; where it came back, its own entry is closed and
/// no longer held; where either failed, the failure names the window, its
/// entry and the move, and the window is where it was.
pub proof fn law_answers_of_the_parking_site(
    before: Model,
    a: Answers,
    window_id: WindowId,
    entry_id: RecoveryEntryId,
    reason: String,
)
    requires
        before.switch is None,
    ensures
        match step(before, Event::WindowParked { window_id, entry_id }, a) {
            Ok(after) => {
                &&& after.parked_windows == before.parked_windows.insert(window_id.0, entry_id)
                &&& after.intents == before.intents.push(Intent::MarkParked(entry_id))
                &&& after.effects == before.effects
                &&& after.last_parking_failure is None
            },
            Err(_) => false,
        },
        match step(before, Event::WindowRestored { window_id }, a) {
            Ok(after) => {
                &&& after.parked_windows == before.parked_windows.remove(window_id.0)
                &&& after.intents == if before.parked_windows.contains_key(window_id.0) {
                    before.intents.push(
                        Intent::MarkRestored(before.parked_windows[window_id.0]),
                    )
                } else {
                    before.intents
                }
                &&& after.effects == before.effects
            },
            Err(_) => false,
        },
        match step(before, Event::WindowParkFailed { window_id, entry_id, reason }, a) {
            Ok(after) => {
                &&& (after.last_parking_failure matches Some(failure) && failure.window_id
                    == window_id && failure.entry_id == entry_id && failure.stage
                    == ParkingStage::Park && failure.reason == reason)
                &&& after.parked_windows == before.parked_windows
                &&& after.effects == before.effects
                &&& after.intents == before.intents
                &&& (before.inventory.contains_key(window_id.0) && off_stage(before, window_id.0)
                    ==> (after.switch_degraded matches Some(degraded)
                    && degraded.stranded.contains(window_id)))
                &&& (!before.inventory.contains_key(window_id.0) || !off_stage(
                    before,
                    window_id.0,
                ) ==> after.switch_degraded == before.switch_degraded)
            },
            Err(_) => false,
        },
        match step(before, Event::WindowRestoreFailed { window_id, entry_id, reason }, a) {
            Ok(after) => {
                &&& (after.last_parking_failure matches Some(failure) && failure.window_id
                    == window_id && failure.entry_id == entry_id && failure.stage
                    == ParkingStage::Restore && failure.reason == reason)
                &&& after.parked_windows == before.parked_windows
                &&& after.effects == before.effects
                &&& after.intents == before.intents
            },
            Err(_) => false,
        },
{
    let m = undisturbed(before);
    lemma_off_stage(m, window_id.0);
    assert(off_stage(m, window_id.0) == off_stage(before, window_id.0));
    reveal(Model::window_settled);
    reveal(Model::on_parked);
    reveal(Model::on_restored);
    reveal(Model::on_park_failed);
    reveal(Model::on_restore_failed);
    if !before.parked_windows.contains_key(window_id.0) {
        assert(before.parked_windows.remove(window_id.0) =~= before.parked_windows);
    }
    match before.switch_degraded {
        Some(degraded) => {
            if !degraded.stranded.contains(window_id) {
                let more = degraded.stranded.push(window_id);
                assert(more[more.len() - 1] == window_id);
            }
        },
        None => {
            let one = seq![window_id];
            assert(one[0] == window_id);
        },
    }
}

/// An entry that could not be made durable parks nothing: whoever waited under
/// its token waits no longer, everyone else still does, and nothing moves.
pub proof fn law_a_refused_entry_parks_nothing(before: Model, a: Answers, token: u64, k: int)
    requires
        before.switch is None,
    ensures
        match step(before, Event::RecoveryEntryRefused { token }, a) {
            Ok(after) => {
                &&& after.effects == before.effects
                &&& after.intents == before.intents
                &&& after.parked_windows == before.parked_windows
                &&& (0 <= k < after.pending_parking.len() ==> after.pending_parking[k].token
                    != token && before.pending_parking.contains(after.pending_parking[k]))
                &&& (0 <= k < before.pending_parking.len() && before.pending_parking[k].token
                    != token ==> after.pending_parking.contains(before.pending_parking[k]))
            },
            Err(_) => false,
        },
{
    broadcast use vstd::seq_lib::group_filter_ensures;

    reveal(Model::on_entry_refused);
    let m = undisturbed(before);
    let p = m.token_at(token);
    lemma_first_index(m.pending_parking.len(), p);
    let others = Model::other_pending(token);
    let left = m.pending_parking.filter(others);
    match first_index(m.pending_parking.len(), p) {
        Some(_) => {
            if 0 <= k < left.len() {
                m.pending_parking.lemma_filter_pred(others, k);
                m.pending_parking.lemma_filter_contains_rev(others, left[k]);
            }
            if 0 <= k < m.pending_parking.len() && m.pending_parking[k].token != token {
                assert(others(m.pending_parking[k]));
                assert(left.contains(m.pending_parking[k]));
            }
        },
        None => {
            if 0 <= k < m.pending_parking.len() {
                assert(!p(k));
            }
        },
    }
}

/// Asking for everything back asks for each parked window once, under its own
/// entry, and nothing else.
pub proof fn law_everything_parked_is_asked_back(before: Model, a: Answers, id: isize, k: int)
    requires
        before.parked_windows.dom().finite(),
    ensures
        match step(before, Event::RestoreParkedWindowsRequested, a) {
            Ok(after) => {
                &&& after == (Model {
                    effects: after.effects,
                    revision: after.revision,
                    ..undisturbed(before)
                })
                &&& after.effects.len() == before.effects.len() + before.parked_windows.dom().len()
                &&& (0 <= k < before.effects.len() ==> after.effects[k] == before.effects[k])
                &&& (before.parked_windows.contains_key(id) ==> after.effects.contains(
                    EngineEffect::RestoreWindow {
                        window_id: WindowId(id),
                        entry_id: before.parked_windows[id],
                    },
                ))
            },
            Err(_) => false,
        },
{
    reveal(Model::on_restore_all);
    let m = undisturbed(before);
    let ids = sorted(m.parked_windows.dom());
    lemma_sorted(m.parked_windows.dom());
    assert forall|j: int| 0 <= j < ids.len() implies m.parked_windows.contains_key(
        #[trigger] ids[j],
    ) by {
        assert(ids.to_set().contains(ids[j]));
    }
    lemma_each_asked_back(m, ids, 0, k);
    crate::laws::arrangement::lemma_ascending_no_duplicates(ids);
    ids.unique_seq_to_set();
    assert(ids.to_set() =~= before.parked_windows.dom());
    if before.parked_windows.contains_key(id) {
        assert(ids.to_set().contains(id));
        let j = choose|j: int| 0 <= j < ids.len() && ids[j] == id;
        lemma_each_asked_back(m, ids, 0, j);
        let after = m.restores_asked(ids, 0);
        let n = m.effects.len() + j;
        assert(0 <= n < after.effects.len());
        assert(after.effects[n] == (EngineEffect::RestoreWindow {
            window_id: WindowId(id),
            entry_id: before.parked_windows[id],
        }));
    }
}

proof fn lemma_each_asked_back(m: Model, ids: Seq<isize>, i: int, k: int)
    requires
        0 <= i <= ids.len(),
        forall|j: int| 0 <= j < ids.len() ==> m.parked_windows.contains_key(#[trigger] ids[j]),
    ensures
        ({
            let after = m.restores_asked(ids, i);
            &&& after == (Model { effects: after.effects, ..m })
            &&& after.effects.len() == m.effects.len() + ids.len() - i
            &&& (0 <= k < m.effects.len() ==> after.effects[k] == m.effects[k])
            &&& (i <= k < ids.len() ==> after.effects[m.effects.len() + k - i] == (
            EngineEffect::RestoreWindow {
                window_id: WindowId(ids[k]),
                entry_id: m.parked_windows[ids[k]],
            }))
        }),
    decreases ids.len() - i,
{
    if i < ids.len() {
        assert(m.parked_windows.contains_key(ids[i]));
        let next = m.restore_asked(WindowId(ids[i]));
        lemma_each_asked_back(next, ids, i + 1, k);
        lemma_each_asked_back(next, ids, i + 1, m.effects.len() as int);
        if 0 <= k < m.effects.len() {
            assert(next.effects[k] == m.effects[k]);
        }
    }
}

/// A switch that left windows behind is over with once none of them has a move
/// to make: none is still on screen of a workspace off stage, and none parked of
/// one that is shown.
pub proof fn law_when_a_broken_switch_is_over(before: Model, a: Answers)
    requires
        before.switch_degraded is Some,
    ensures
        match step(before, Event::WorkspaceSwitchRestoreRequested, a) {
            Ok(after) => after.switch_degraded is None <==> forall|w: WindowId| #[trigger]
                before.switch_degraded->0.stranded.contains(w) ==> !before.inventory.contains_key(
                    w.0,
                ) || off_stage(before, w.0) == before.parked_windows.contains_key(w.0),
            Err(_) => false,
        },
{
    broadcast use vstd::seq_lib::group_filter_ensures;

    reveal(Model::on_switch_restore);
    let m = undisturbed(before);
    let degraded = m.switch_degraded->0;
    let owes = m.still_owes();
    let owed = degraded.stranded.filter(owes);
    assert forall|w: WindowId| #[trigger] degraded.stranded.contains(w) implies (m.stranded_move(
        w,
    ) is Some <==> before.inventory.contains_key(w.0) && off_stage(before, w.0)
        != before.parked_windows.contains_key(w.0)) by {
        lemma_off_stage(m, w.0);
        assert(off_stage(m, w.0) == off_stage(before, w.0));
    }
    if owed.len() == 0 {
        assert forall|w: WindowId| #[trigger] degraded.stranded.contains(w) implies m.stranded_move(
            w,
        ) is None by {
            if owes(w) {
                assert(owed.contains(w));
            }
        }
    } else {
        degraded.stranded.lemma_filter_contains_rev(owes, owed[0]);
        degraded.stranded.lemma_filter_pred(owes, 0);
        assert(degraded.stranded.contains(owed[0]));
        lemma_still_broken(m, owed, 0, a.now_unix);
    }
}

proof fn lemma_still_broken(m: Model, windows: Seq<WindowId>, i: int, now_unix: i64)
    ensures
        m.owed_asked(windows, i, now_unix).switch_degraded == m.switch_degraded,
    decreases windows.len() - i,
{
    if i < windows.len() {
        let next = match m.stranded_move(windows[i]) {
            Some(crate::parking::StrandedMove::Restore) => m.restore_asked(windows[i]),
            Some(crate::parking::StrandedMove::Park) => m.park_asked(windows[i], now_unix),
            None => m,
        };
        lemma_still_broken(next, windows, i + 1, now_unix);
    }
}

/// A position may be removed exactly where it is dormant in the display's tree,
/// and what is reported of it is the application that left it.
pub proof fn law_which_positions_may_be_removed(
    m: Model,
    a: Answers,
    display_id: DisplayId,
    position: u64,
    k: int,
)
    ensures
        match m.removal_plan(a, display_id, position) {
            Ok(Ok(plan)) => {
                &&& !m.paused
                &&& !gone(m.displays, display_id)
                &&& m.trees.contains_key(display_id.0)
                &&& plan.display_id == display_id
                &&& plan.position == position
                &&& match a.look_up(Query::Shape { tree: m.trees[display_id.0] }) {
                    Some(Answer::Shape(shape)) => exists|i: int|
                        0 <= i < shape.dormant@.len() && (#[trigger] shape.dormant@[i]).position
                            == position && shape.dormant@[i].dormant.evidence.application_id.0
                            == plan.application,
                    _ => false,
                }
            },
            Ok(Err(_)) => m.paused || !m.tree_mode() || gone(m.displays, display_id)
                || !m.trees.contains_key(display_id.0) || match a.look_up(
                Query::Shape { tree: m.trees[display_id.0] },
            ) {
                Some(Answer::Shape(shape)) => 0 <= k < shape.dormant@.len()
                    ==> shape.dormant@[k].position != position,
                _ => false,
            },
            Err(_) => true,
        },
{
    reveal(Model::removal_plan);
    lemma_called(m.displays, display_id, 0);
    lemma_first_index(m.displays.len(), crate::topology::display_is(m.displays, display_id));
    match a.look_up(Query::Shape { tree: m.trees[display_id.0] }) {
        Some(Answer::Shape(shape)) => {
            let slots = shape.dormant@;
            let p = crate::direction::numbered(slots, position);
            lemma_first_index(slots.len(), p);
            match first_index(slots.len(), p) {
                Some(i) => {
                    assert(p(i));
                    assert(slots[i].position == position);
                },
                None => {
                    if 0 <= k < slots.len() {
                        assert(!p(k));
                    }
                },
            }
        },
        _ => {},
    }
}

// Saved layouts.

/// A layout lands on the display of the focused window, and where no managed
/// window is focused, on the focused display; never while paused.
pub proof fn law_which_display_a_layout_takes(m: Model, a: Answers, name: String)
    ensures
        m.layout_plan(a, name) matches Ok(Ok(plan)) ==> {
            &&& !m.paused
            &&& !gone(m.displays, plan.display_id)
            &&& match m.focused_window {
                Some(w) => if m.inventory.contains_key(w.0) {
                    plan.display_id == m.inventory[w.0].window.display_id
                } else {
                    m.focused_display == Some(plan.display_id)
                },
                None => m.focused_display == Some(plan.display_id),
            }
        },
{
    reveal(Model::layout_plan);
    match m.layout_plan(a, name) {
        Ok(Ok(plan)) => {
            lemma_called(m.displays, plan.display_id, 0);
            lemma_first_index(
                m.displays.len(),
                crate::topology::display_is(m.displays, plan.display_id),
            );
        },
        _ => {},
    }
}

proof fn lemma_layout_leaves(
    m: Model,
    placements: Seq<PlannedPlacement>,
    display_id: DisplayId,
    i: int,
    done: Seq<WindowId>,
    id: isize,
    n: int,
)
    requires
        0 <= i <= placements.len(),
        forall|j: int| i <= j < placements.len() ==> (#[trigger] placements[j]).window_id.0 != id,
    ensures
        ({
            let (after, placed) = m.layout_placed(placements, display_id, i, done);
            &&& after.windows.contains_key(id) == m.windows.contains_key(id)
            &&& after.windows[id] == m.windows[id]
            &&& after.effects.len() >= m.effects.len()
            &&& (0 <= n < m.effects.len() ==> after.effects[n] == m.effects[n])
            &&& placed.len() >= done.len()
            &&& (0 <= n < done.len() ==> placed[n] == done[n])
        }),
    decreases placements.len() - i,
{
    if i < placements.len() {
        let window_id = placements[i].window_id;
        let next = m.placed(window_id, display_id, placements[i].bounds, None);
        let more = if m.breaker_open(window_id.0) {
            done
        } else {
            done.push(window_id)
        };
        lemma_layout_leaves(next, placements, display_id, i + 1, more, id, n);
        if 0 <= n < m.effects.len() {
            assert(next.effects[n] == m.effects[n]);
        }
        if 0 <= n < done.len() {
            assert(more[n] == done[n]);
        }
    }
}

proof fn lemma_layout_places(
    m: Model,
    placements: Seq<PlannedPlacement>,
    display_id: DisplayId,
    i: int,
    done: Seq<WindowId>,
    k: int,
)
    requires
        0 <= i <= k < placements.len(),
        forall|x: int, y: int|
            0 <= x < y < placements.len() ==> (#[trigger] placements[x]).window_id != (
            #[trigger] placements[y]).window_id,
        !(m.windows.contains_key(placements[k].window_id.0)
            && m.windows[placements[k].window_id.0].rejection_count >= 3),
    ensures
        ({
            let (after, placed) = m.layout_placed(placements, display_id, i, done);
            let w = placements[k].window_id;
            &&& after.windows.contains_key(w.0)
            &&& after.windows[w.0].display_id == display_id
            &&& after.windows[w.0].bounds == placements[k].bounds
            &&& placed.contains(w)
            &&& after.effects.contains(
                EngineEffect::PlaceWindow { window_id: w, display_id, bounds: placements[k].bounds },
            )
        }),
    decreases placements.len() - i,
{
    let window_id = placements[i].window_id;
    let w = placements[k].window_id;
    let next = m.placed(window_id, display_id, placements[i].bounds, None);
    let more = if m.breaker_open(window_id.0) {
        done
    } else {
        done.push(window_id)
    };
    if i == k {
        assert forall|j: int| i + 1 <= j < placements.len() implies (
        #[trigger] placements[j]).window_id.0 != w.0 by {
            assert(placements[k].window_id != placements[j].window_id);
        }
        let e = next.effects.len() - 1;
        lemma_layout_leaves(next, placements, display_id, i + 1, more, w.0, e);
        lemma_layout_leaves(next, placements, display_id, i + 1, more, w.0, more.len() - 1);
        let (after, placed) = m.layout_placed(placements, display_id, i, done);
        assert(after.effects[e] == (EngineEffect::PlaceWindow {
            window_id: w,
            display_id,
            bounds: placements[k].bounds,
        }));
        assert(placed[more.len() - 1] == w);
    } else {
        assert(placements[i].window_id != placements[k].window_id);
        lemma_layout_places(next, placements, display_id, i + 1, more, k);
    }
}

/// Applying a layout tells every window of the plan to its place on the
/// layout's display, but for those that refused three times.
pub proof fn law_a_layout_is_told(
    m: Model,
    placements: Seq<PlannedPlacement>,
    display_id: DisplayId,
    k: int,
)
    requires
        0 <= k < placements.len(),
        forall|x: int, y: int|
            0 <= x < y < placements.len() ==> (#[trigger] placements[x]).window_id != (
            #[trigger] placements[y]).window_id,
        !(m.windows.contains_key(placements[k].window_id.0)
            && m.windows[placements[k].window_id.0].rejection_count >= 3),
    ensures
        ({
            let (after, placed) = m.layout_placed(placements, display_id, 0, Seq::empty());
            let w = placements[k].window_id;
            &&& after.windows.contains_key(w.0)
            &&& after.windows[w.0].display_id == display_id
            &&& after.windows[w.0].bounds == placements[k].bounds
            &&& placed.contains(w)
            &&& after.effects.contains(
                EngineEffect::PlaceWindow { window_id: w, display_id, bounds: placements[k].bounds },
            )
        }),
{
    lemma_layout_places(m, placements, display_id, 0, Seq::empty(), k);
}

/// What a layout placed floats for the session where windows are tiled.
pub proof fn law_what_a_layout_placed_floats(m: Model, windows: Seq<WindowId>, i: int, w: WindowId)
    requires
        0 <= i <= windows.len(),
    ensures
        ({
            let after = m.all_floated(windows, i);
            let listed = exists|k: int| i <= k < windows.len() && #[trigger] windows[k] == w;
            &&& after.session_floating.contains(w.0) <==> m.session_floating.contains(w.0)
                || listed
            &&& after.inventory.contains_key(w.0) == m.inventory.contains_key(w.0)
            &&& (listed && m.inventory.contains_key(w.0) ==> after.inventory[w.0].eligibility
                == crate::window::EligibilityReason::SessionFloating)
            &&& (!listed ==> after.inventory[w.0] == m.inventory[w.0])
            &&& after.windows == m.windows
        }),
    decreases windows.len() - i,
{
    if i < windows.len() {
        let next = m.session_float(windows[i], true);
        law_what_a_layout_placed_floats(next, windows, i + 1, w);
        if exists|k: int| i <= k < windows.len() && #[trigger] windows[k] == w {
            let k = choose|k: int| i <= k < windows.len() && #[trigger] windows[k] == w;
            if k > i {
                assert(i + 1 <= k < windows.len() && windows[k] == w);
            }
        }
        if exists|k: int| i + 1 <= k < windows.len() && #[trigger] windows[k] == w {
            let k = choose|k: int| i + 1 <= k < windows.len() && #[trigger] windows[k] == w;
            assert(i <= k < windows.len() && windows[k] == w);
        }
        if windows[i] == w {
            assert(i <= i < windows.len() && windows[i] == w);
        }
    }
}

} // verus!
