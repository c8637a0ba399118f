//! Names, texts, tables and geometry.

use mosaix_engine::commands::{
    resize_command, swap_command, throw_command, zone_snap_command, CommandLabel,
    ZoneSnapDirection,
};
use mosaix_engine::direction::offset_of;
use mosaix_engine::geometry::{
    center_distance_of, divider_for, doubled_center_of, longer_axis_of, CardinalDirection,
    CycleStep, DisplayDirection, DisplayId, Gaps, Rect, SplitAxis, Toward, WindowId,
};
use mosaix_engine::layout::{unknown_layout_text, SavedLayoutRejection};
use mosaix_engine::name::{RequestedName, WorkspaceName};
use mosaix_engine::outcome::SwitchFailure;
use mosaix_engine::table::{IdSet, Table};
use mosaix_engine::text::{decimal_text, text_before};
use mosaix_engine::window::{
    eligibility_for, track, ApplicationId, EligibilityReason, ManageAction, Window,
    WindowCapabilities, WindowEvidence, WindowLifecycle, WindowPlacement, WindowRole,
    CIRCUIT_BREAKER_THRESHOLD,
};
use mosaix_engine::workspace::{WorkspaceOrigin, WorkspacePool};

fn window(id: isize) -> Window {
    Window {
        id: WindowId(id),
        process_id: 7,
        application_id: ApplicationId("editor.exe".to_owned()),
        executable_path: Some("C:/apps/editor.exe".to_owned()),
        title: "letter.txt".to_owned(),
        native_class: Some("Editor".to_owned()),
        role: WindowRole::Normal,
        bounds: Rect::new(10, 20, 300, 200),
        display_id: DisplayId(1),
        capabilities: WindowCapabilities {
            can_move: true,
            can_resize: true,
            can_minimize: true,
            can_maximize: true,
            tileable: true,
        },
        elevated: false,
        lifecycle: WindowLifecycle::Active,
        minimum_size: None,
    }
}

fn name(text: &str) -> WorkspaceName {
    WorkspaceName { text: text.to_owned(), key: text.to_lowercase() }
}

#[test]
fn every_command_has_its_stable_name() {
    assert_eq!(zone_snap_command(ZoneSnapDirection::Left), "snap-left");
    assert_eq!(zone_snap_command(ZoneSnapDirection::Right), "snap-right");
    assert_eq!(zone_snap_command(ZoneSnapDirection::Top), "snap-top");
    assert_eq!(zone_snap_command(ZoneSnapDirection::Bottom), "snap-bottom");
    assert_eq!(swap_command(CardinalDirection::Left), "swap-left");
    assert_eq!(swap_command(CardinalDirection::Right), "swap-right");
    assert_eq!(swap_command(CardinalDirection::Up), "swap-up");
    assert_eq!(swap_command(CardinalDirection::Down), "swap-down");
    assert_eq!(resize_command(CardinalDirection::Left), "resize-left");
    assert_eq!(resize_command(CardinalDirection::Right), "resize-right");
    assert_eq!(resize_command(CardinalDirection::Up), "resize-up");
    assert_eq!(resize_command(CardinalDirection::Down), "resize-down");
    assert_eq!(throw_command(DisplayDirection::Next), "throw-next-display");
    assert_eq!(throw_command(DisplayDirection::Prev), "throw-previous-display");
}

#[test]
fn a_command_label_spells_what_it_is_about() {
    assert_eq!(CommandLabel::Swap(CardinalDirection::Up).text(), "swap-up");
    assert_eq!(CommandLabel::ApplyLayout("writing".to_owned()).text(), "apply-layout writing");
    assert_eq!(CommandLabel::WorkspaceFocus(name("Chat")).text(), "workspace-focus Chat");
    assert_eq!(CommandLabel::RemovePosition.text(), "remove-position");
    assert_eq!(CommandLabel::ToggleAutomaticTiling.text(), "toggle-automatic-tiling");
}

#[test]
fn an_unknown_layout_is_named_in_quotes() {
    assert_eq!(unknown_layout_text(&"'x'".to_owned()), "no saved layout named 'x'");
    let rejection = SavedLayoutRejection::UnknownLayout { name: "wrtiing".to_owned() };
    assert_eq!(rejection.text(), "no saved layout named \"wrtiing\"");
    let odd = SavedLayoutRejection::UnknownLayout { name: "two\n\"lines\"".to_owned() };
    assert_eq!(odd.text(), "no saved layout named \"two\\n\\\"lines\\\"\"");
}

#[test]
fn every_layout_rejection_says_why() {
    assert_eq!(SavedLayoutRejection::Paused.text(), "window management is paused");
    assert_eq!(
        SavedLayoutRejection::NoFocusedManagedWindow.text(),
        "no managed window is focused, so there is no display to apply a layout to"
    );
    assert_eq!(
        SavedLayoutRejection::NoFocusedDisplay.text(),
        "no display is focused, so there is no display to apply a layout to"
    );
    assert_eq!(
        SavedLayoutRejection::DisplayUnavailable { display_id: DisplayId(-12) }.text(),
        "the focused window's display -12 is no longer connected"
    );
}

#[test]
fn a_failed_switch_says_why_where_it_has_words() {
    assert_eq!(
        SwitchFailure::EntryNotDurable.text().as_deref(),
        Some("recovery data for a window could not be made durable")
    );
    assert_eq!(SwitchFailure::Cancelled.text().as_deref(), Some("the switch was cancelled"));
    assert_eq!(SwitchFailure::Reported("stuck".to_owned()).text().as_deref(), Some("stuck"));
}

#[test]
fn numbers_are_spelled_in_decimal() {
    assert_eq!(decimal_text(0), "0");
    assert_eq!(decimal_text(1907), "1907");
    assert_eq!(decimal_text(-40), "-40");
    assert_eq!(decimal_text(isize::MIN), isize::MIN.to_string());
    assert_eq!(decimal_text(isize::MAX), isize::MAX.to_string());
}

#[test]
fn texts_are_ordered_by_their_bytes() {
    assert!(text_before(&"chat".to_owned(), &"dev".to_owned()));
    assert!(text_before(&"chat".to_owned(), &"chats".to_owned()));
    assert!(!text_before(&"dev".to_owned(), &"dev".to_owned()));
    assert!(text_before(&"Z".to_owned(), &"a".to_owned()));
}

#[test]
fn a_table_walks_its_keys_in_order_however_it_was_filled() {
    let mut table: Table<&str> = Table::new();
    table.insert(3, "c");
    table.insert(-1, "a");
    table.insert(2, "b");
    table.insert(3, "d");
    assert_eq!(table.keys(), vec![-1, 2, 3]);
    assert_eq!(table.len(), 3);
    assert_eq!(table.get(3), Some(&"d"));
    assert_eq!(table.get(9), None);
    assert_eq!(table.remove(2), Some("b"));
    assert_eq!(table.remove(2), None);
    assert!(table.contains_key(-1) && !table.contains_key(2));
    let mut keep = IdSet::new();
    keep.insert(3);
    keep.insert(8);
    table.retain(&keep);
    assert_eq!(table.keys(), vec![3]);
    table.clear();
    assert!(table.is_empty());
}

#[test]
fn a_set_of_handles_holds_each_once() {
    let mut ids = IdSet::new();
    assert!(ids.is_empty());
    ids.insert(5);
    ids.insert(2);
    ids.insert(5);
    assert_eq!(ids.members(), vec![2, 5]);
    ids.remove(5);
    assert!(!ids.contains(5) && ids.contains(2));
    ids.clear();
    assert!(ids.is_empty());
}

#[test]
fn three_presses_come_back_to_half() {
    let step = CycleStep::Half;
    assert_eq!(step.next(), CycleStep::Third);
    assert_eq!(step.next().next(), CycleStep::TwoThirds);
    assert_eq!(step.next().next().next(), CycleStep::Half);
}

#[test]
fn a_work_area_splits_on_its_longer_axis() {
    assert_eq!(longer_axis_of(Rect::new(0, 0, 1920, 1080)), SplitAxis::Horizontal);
    assert_eq!(longer_axis_of(Rect::new(0, 0, 1080, 1920)), SplitAxis::Vertical);
    assert_eq!(longer_axis_of(Rect::new(0, 0, 500, 500)), SplitAxis::Horizontal);
}

#[test]
fn a_direction_faces_one_divider() {
    assert_eq!(divider_for(CardinalDirection::Left), (SplitAxis::Horizontal, Toward::Start));
    assert_eq!(divider_for(CardinalDirection::Right), (SplitAxis::Horizontal, Toward::End));
    assert_eq!(divider_for(CardinalDirection::Up), (SplitAxis::Vertical, Toward::Start));
    assert_eq!(divider_for(CardinalDirection::Down), (SplitAxis::Vertical, Toward::End));
}

#[test]
fn centers_are_compared_without_rounding() {
    assert_eq!(doubled_center_of(Rect::new(10, 20, 3, 4)), (23, 44));
    assert_eq!(
        center_distance_of(Rect::new(0, 0, 10, 10), Rect::new(3, 4, 10, 10)),
        3 * 3 + 4 * 4
    );
    let extreme = Rect::new(i32::MAX, i32::MIN, i32::MAX, i32::MAX);
    assert!(center_distance_of(extreme, Rect::new(i32::MIN, i32::MAX, 0, 0)) > 0);
}

#[test]
fn only_what_lies_strictly_that_way_is_in_a_direction() {
    let here = Rect::new(0, 0, 100, 100);
    let right = Rect::new(100, 30, 100, 100);
    assert_eq!(offset_of(CardinalDirection::Right, here, right), Some((200, 60)));
    assert_eq!(offset_of(CardinalDirection::Left, here, right), None);
    assert_eq!(offset_of(CardinalDirection::Down, here, right), Some((60, 200)));
    assert_eq!(offset_of(CardinalDirection::Right, here, here), None);
}

#[test]
fn eligibility_is_decided_in_one_order() {
    let mut stubborn = window(1);
    stubborn.lifecycle = WindowLifecycle::Minimized;
    assert_eq!(eligibility_for(&stubborn, ManageAction::Tile, false), EligibilityReason::Minimized);
    assert_eq!(eligibility_for(&stubborn, ManageAction::Tile, true), EligibilityReason::CircuitOpen);
    stubborn.elevated = true;
    assert_eq!(eligibility_for(&stubborn, ManageAction::Tile, true), EligibilityReason::Elevated);
    stubborn.capabilities.tileable = false;
    assert_eq!(eligibility_for(&stubborn, ManageAction::Tile, true), EligibilityReason::NotTileable);
    assert_eq!(
        eligibility_for(&stubborn, ManageAction::Float, true),
        EligibilityReason::FloatingRule
    );
    for (lifecycle, reason) in [
        (WindowLifecycle::Active, EligibilityReason::Eligible),
        (WindowLifecycle::Maximized, EligibilityReason::Maximized),
        (WindowLifecycle::Fullscreen, EligibilityReason::Fullscreen),
        (WindowLifecycle::Hidden, EligibilityReason::Hidden),
        (WindowLifecycle::Cloaked, EligibilityReason::Cloaked),
    ] {
        let mut plain = window(1);
        plain.lifecycle = lifecycle;
        assert_eq!(eligibility_for(&plain, ManageAction::Tile, false), reason);
    }
}

#[test]
fn the_third_rejection_opens_the_breaker() {
    let first = track(DisplayId(1), Rect::new(0, 0, 10, 10));
    assert!(!first.circuit_open());
    assert_eq!(CIRCUIT_BREAKER_THRESHOLD, 3);
    assert!(!WindowPlacement { rejection_count: 2, ..first }.circuit_open());
    assert!(WindowPlacement { rejection_count: 3, ..first }.circuit_open());
    assert!(WindowPlacement { rejection_count: 255, ..first }.circuit_open());
}

#[test]
fn evidence_is_the_same_whatever_the_title() {
    let one = window(1);
    let mut other = window(1);
    other.title = "another letter.txt".to_owned();
    let display = "DISPLAY1".to_owned();
    assert_eq!(
        WindowEvidence::capture(&one, 2, &display),
        WindowEvidence::capture(&other, 2, &display)
    );
    assert_eq!(
        WindowEvidence::capture(&one, 2, &display).last_placement,
        Rect::new(10, 20, 300, 200)
    );
}

#[test]
fn the_pool_keeps_name_order_and_ignores_case() {
    let mut pool = WorkspacePool::new();
    pool.create(name("dev"), WorkspaceOrigin::Command);
    pool.create(name("Chat"), WorkspaceOrigin::Configuration);
    assert_eq!(pool.len(), 2);
    assert_eq!(pool.at(0).name, name("Chat"));
    assert_eq!(pool.find(&name("DEV")), Some(1));
    assert_eq!(pool.get(&name("media")), None);
    assert_eq!(pool.resolve(&RequestedName::for_name(&name("chat"))), Some(0));
    pool.display(1, DisplayId(4));
    assert_eq!(pool.displayed_on(DisplayId(4)), Some(name("dev")));
    pool.display(0, DisplayId(4));
    assert_eq!(pool.display_of(&name("dev")), None);
    pool.assign(9, &name("dev"));
    assert_eq!(pool.members_of(&name("Dev")), vec![9]);
    assert_eq!(pool.workspace_of(9), Some(&name("dev")));
    pool.display(1, DisplayId(5));
    pool.swap_displays(DisplayId(4), DisplayId(5));
    assert_eq!(pool.displayed_on(DisplayId(4)), Some(name("dev")));
    assert_eq!(pool.displayed_on(DisplayId(5)), Some(name("Chat")));
    pool.swap_displays(DisplayId(5), DisplayId(4));
    assert_eq!(pool.displayed_on(DisplayId(4)), Some(name("Chat")));
}

#[test]
fn gaps_and_rectangles_hold_what_they_are_given() {
    assert_eq!(Gaps::new(10, 4), Gaps { outer: 10, inner: 4 });
    assert_eq!(Rect::new(1, 2, 3, 4), Rect { x: 1, y: 2, width: 3, height: 4 });
}
