//! Placing windows: topology, snapping, restoring, throwing, the balanced
//! grid, the circuit breaker, saved layouts and hotkey capture.

use std::ops::{Deref, DerefMut};

use mosaix_engine::answers::{
    Answer, Answers, Known, LayoutCells, Question, RuleBook, Verdict, Zone,
};
use mosaix_engine::commands::ZoneSnapDirection;
use mosaix_engine::config::{
    OtherSettings, ResolvedConfig, ResolvedConfigSet, ResolvedProfile, SavedLayout,
};
use mosaix_engine::event::{Event, ObservedPlacement};
use mosaix_engine::geometry::{
    CardinalDirection, CycleStep, DisplayDirection, DisplayId, Gaps, HalfZone,
    HorizontalDirection, Rect, WindowId,
};
use mosaix_engine::initial::next_state;
use mosaix_engine::layout::{diff_placements, plan_saved_layout, SavedLayoutPlan, SavedLayoutRejection};
use mosaix_engine::state::{EngineEffect, EngineState, Listed};
use mosaix_engine::table::Table;
use mosaix_engine::window::{
    ApplicationId, Display, EligibilityReason, ManageAction, Rotation, Window, WindowCapabilities,
    WindowLifecycle, WindowPlacement, WindowRole, CIRCUIT_BREAKER_THRESHOLD,
};

/// A rule that floats every window whose title starts with its prefix.
struct Rule {
    id: String,
    floats_titles_with: String,
}

/// What the engine asks of the world around it.
struct Outside {
    rules: Vec<Vec<Rule>>,
    cells: Vec<Vec<(f64, f64, f64, f64)>>,
}

impl Outside {
    fn new() -> Outside {
        Outside { rules: vec![Vec::new()], cells: Vec::new() }
    }

    fn layout(&mut self, name: &str, cells: &[(f64, f64, f64, f64)]) -> SavedLayout {
        self.cells.push(cells.to_vec());
        SavedLayout {
            name: name.to_owned(),
            cells: LayoutCells { id: self.cells.len() as u64 - 1 },
        }
    }

    fn rule_book(&mut self, rules: Vec<Rule>) -> RuleBook {
        self.rules.push(rules);
        RuleBook { id: self.rules.len() as u64 - 1 }
    }

    fn verdict(&self, rules: RuleBook, window: &Window) -> Verdict {
        for rule in &self.rules[rules.id as usize] {
            if window.title.starts_with(&rule.floats_titles_with) {
                return Verdict {
                    manage: ManageAction::Float,
                    workspace: None,
                    rule_id: Some(rule.id.clone()),
                };
            }
        }
        let manage = match window.role {
            WindowRole::Normal => ManageAction::Tile,
            WindowRole::Dialog => ManageAction::Float,
            WindowRole::Popup | WindowRole::Other => ManageAction::Exclude,
        };
        Verdict { manage, workspace: None, rule_id: None }
    }

    fn answer(&self, question: &Question) -> Answer {
        match question {
            Question::Gapped { raw, area, gaps } => Answer::Bounds(apply_gaps(*raw, *area, *gaps)),
            Question::Grid { area, count } => Answer::Cells(plan_balanced_grid(*area, *count)),
            Question::Zone { area, zone } => Answer::Bounds(zone_bounds(*area, *zone)),
            Question::Thrown { bounds, from, to } => Answer::Bounds(thrown(*bounds, *from, *to)),
            Question::Adjacent { displays, from, direction } => {
                Answer::Display(adjacent(displays, *from, *direction))
            }
            Question::Cells { area, cells } => Answer::Cells(resolve_saved_layout(
                *area,
                &self.cells[cells.id as usize],
            )),
            Question::Verdict { rules, window } => Answer::Verdict(self.verdict(*rules, window)),
            other => panic!("nothing here keeps trees or matches windows: {other:?}"),
        }
    }
}

fn apply_gaps(raw: Rect, area: Rect, gaps: Gaps) -> Rect {
    let inset = |touches: bool| if touches { gaps.outer } else { gaps.inner };
    let left = inset(raw.x == area.x);
    let top = inset(raw.y == area.y);
    let right = inset(raw.x + raw.width == area.x + area.width);
    let bottom = inset(raw.y + raw.height == area.y + area.height);
    Rect::new(raw.x + left, raw.y + top, raw.width - left - right, raw.height - top - bottom)
}

/// Columns first: as many as the root of the count, rounded up.
fn plan_balanced_grid(area: Rect, count: usize) -> Vec<Rect> {
    let mut columns: usize = 1;
    while columns * columns < count {
        columns += 1;
    }
    let rows = count.div_ceil(columns);
    let mut cells = Vec::new();
    for row in 0..rows {
        let in_row = if row + 1 < rows { columns } else { count - columns * (rows - 1) };
        let top = area.height * row as i32 / rows as i32;
        let bottom = area.height * (row as i32 + 1) / rows as i32;
        for column in 0..in_row {
            let left = area.width * column as i32 / in_row as i32;
            let right = area.width * (column as i32 + 1) / in_row as i32;
            cells.push(Rect::new(area.x + left, area.y + top, right - left, bottom - top));
        }
    }
    cells
}

fn zone_bounds(area: Rect, zone: Zone) -> Rect {
    match zone {
        Zone::Cycle(direction, step) => {
            let width = match step {
                CycleStep::Half => area.width / 2,
                CycleStep::Third => area.width / 3,
                CycleStep::TwoThirds => area.width * 2 / 3,
            };
            match direction {
                HorizontalDirection::Left => Rect::new(area.x, area.y, width, area.height),
                HorizontalDirection::Right => {
                    Rect::new(area.x + area.width - width, area.y, width, area.height)
                }
            }
        }
        Zone::Half(HalfZone::TopHalf) => Rect::new(area.x, area.y, area.width, area.height / 2),
        Zone::Half(HalfZone::BottomHalf) => {
            Rect::new(area.x, area.y + area.height / 2, area.width, area.height / 2)
        }
    }
}

fn thrown(bounds: Rect, from: Rect, to: Rect) -> Rect {
    let scale = |part: i32, whole: i32, target: i32| part * target / whole;
    Rect::new(
        to.x + scale(bounds.x - from.x, from.width, to.width),
        to.y + scale(bounds.y - from.y, from.height, to.height),
        scale(bounds.width, from.width, to.width),
        scale(bounds.height, from.height, to.height),
    )
}

fn adjacent(displays: &[Display], from: DisplayId, direction: DisplayDirection) -> Option<DisplayId> {
    if displays.len() < 2 {
        return None;
    }
    let at = displays.iter().position(|display| display.id == from)?;
    let next = match direction {
        DisplayDirection::Next => (at + 1) % displays.len(),
        DisplayDirection::Prev => (at + displays.len() - 1) % displays.len(),
    };
    Some(displays[next].id)
}

fn resolve_saved_layout(area: Rect, cells: &[(f64, f64, f64, f64)]) -> Vec<Rect> {
    cells
        .iter()
        .map(|(x, y, width, height)| {
            let left = (area.width as f64 * x).round() as i32;
            let top = (area.height as f64 * y).round() as i32;
            let right = (area.width as f64 * (x + width)).round() as i32;
            let bottom = (area.height as f64 * (y + height)).round() as i32;
            Rect::new(area.x + left, area.y + top, right - left, bottom - top)
        })
        .collect()
}

fn topology_fingerprint(displays: &[Display]) -> String {
    let mut names: Vec<&str> =
        displays.iter().map(|display| display.stable_fingerprint.as_str()).collect();
    names.sort();
    names.join("+")
}

/// An engine with the world around it.
struct Rig {
    state: EngineState,
    outside: Outside,
}

impl Deref for Rig {
    type Target = EngineState;

    fn deref(&self) -> &EngineState {
        &self.state
    }
}

impl DerefMut for Rig {
    fn deref_mut(&mut self) -> &mut EngineState {
        &mut self.state
    }
}

impl Rig {
    /// Answers every question `step` comes back with.
    fn settle<T>(&self, step: impl Fn(&EngineState, &Answers) -> Result<T, Question>) -> T {
        let mut answers = Answers { now_unix: 1_700_000_000, known: Vec::new() };
        loop {
            match step(&self.state, &answers) {
                Ok(done) => return done,
                Err(question) => {
                    let answer = self.outside.answer(&question);
                    answers.known.push(Known { question, answer });
                }
            }
        }
    }
}

fn rig(mut state: EngineState) -> Rig {
    state.topology = topology_fingerprint(&state.displays);
    Rig { state, outside: Outside::new() }
}

fn apply(rig: &mut Rig, event: Event) {
    rig.state.topology = topology_fingerprint(&rig.state.displays);
    let next = rig.settle(|state, answers| next_state(state, event.clone(), answers));
    rig.state = next;
}

fn layout_plan(rig: &Rig, name: &str) -> Result<SavedLayoutPlan, SavedLayoutRejection> {
    rig.settle(|state, answers| plan_saved_layout(state, answers, &name.to_owned()))
}

fn topology_changed(displays: Vec<Display>) -> Event {
    let topology = topology_fingerprint(&displays);
    Event::DisplayTopologyChanged { displays, topology }
}

fn wake(displays: Vec<Display>, windows: Option<Vec<Window>>) -> Event {
    let topology = topology_fingerprint(&displays);
    Event::WakeReconciliation { displays, topology, windows }
}

fn observed_placements(windows: Vec<(WindowId, DisplayId, Rect)>) -> Vec<ObservedPlacement> {
    windows
        .into_iter()
        .map(|(window_id, display_id, bounds)| ObservedPlacement { window_id, display_id, bounds })
        .collect()
}

fn listed(entries: &[Listed], display_id: isize) -> Vec<WindowId> {
    entries
        .iter()
        .filter(|entry| entry.display_id == DisplayId(display_id))
        .map(|entry| entry.window_id)
        .collect()
}

fn moves(
    previous: &Table<WindowPlacement>,
    current: &Table<WindowPlacement>,
) -> Vec<(WindowId, DisplayId, Rect)> {
    diff_placements(previous, current)
        .into_iter()
        .map(|moved| (moved.window_id, moved.display_id, moved.bounds))
        .collect()
}

fn display(id: isize, fingerprint: &str, x: i32) -> Display {
    Display {
        id: DisplayId(id),
        stable_fingerprint: fingerprint.to_string(),
        full_bounds: Rect::new(x, 0, 1920, 1080),
        work_area: Rect::new(x, 0, 1920, 1080),
        scale_factor_bits: 1.0f64.to_bits(),
        rotation: Rotation::Landscape,
        is_primary: x == 0,
    }
}

/// A configuration whose left snap is bound to `combo`; bindings are among
/// the settings the engine only compares.
fn resolved_config_with_left_binding(combo: &str) -> ResolvedConfig {
    let id = match combo {
        "ctrl+alt+left" => 1,
        "ctrl+shift+left" => 2,
        other => panic!("no settings hold {other}"),
    };
    ResolvedConfig { other: OtherSettings { id }, ..ResolvedConfig::default() }
}

fn observed_window(id: isize, role: WindowRole, lifecycle: WindowLifecycle) -> Window {
    Window {
        id: WindowId(id),
        process_id: 1,
        application_id: ApplicationId("test".to_string()),
        executable_path: None,
        title: "non-sensitive-test-title".to_string(),
        native_class: None,
        role,
        bounds: Rect::new(0, 0, 400, 300),
        display_id: DisplayId(1),
        capabilities: WindowCapabilities {
            can_move: true,
            can_resize: true,
            can_minimize: true,
            can_maximize: true,
            tileable: true,
        },
        elevated: false,
        lifecycle,
        minimum_size: None,
    }
}

fn window_at(id: isize, display_id: isize, bounds: Rect) -> Window {
    let mut window = observed_window(id, WindowRole::Normal, WindowLifecycle::Active);
    window.display_id = DisplayId(display_id);
    window.bounds = bounds;
    window
}

fn state_with_saved_layout(name: &str, cells: &[(f64, f64, f64, f64)]) -> Rig {
    let mut state = rig(EngineState {
        displays: vec![display(1, "primary", 0)],
        ..EngineState::default()
    });
    let layout = state.outside.layout(name, cells);
    state.resolved_config.layouts.push(layout);
    state
}

#[test]
fn apply_bumps_revision_on_genuine_topology_change() {
    let mut state = rig(EngineState::default());
    apply(&mut state, topology_changed(vec![display(1, "MON-A", 0)]));

    assert_eq!(state.revision, 1);
    assert_eq!(state.displays.len(), 1);
}

#[test]
fn apply_ignores_a_repeated_topology_hint() {
    let mut state = rig(EngineState::default());
    apply(&mut state, topology_changed(vec![display(1, "MON-A", 0)]));
    apply(&mut state, topology_changed(vec![display(1, "MON-A", 0)]));

    assert_eq!(
        state.revision, 1,
        "an identical re-enumeration must not bump the revision"
    );
}

#[test]
fn apply_bumps_revision_again_when_topology_actually_changes() {
    let mut state = rig(EngineState::default());
    apply(&mut state, topology_changed(vec![display(1, "MON-A", 0)]));
    apply(
        &mut state,
        topology_changed(vec![display(1, "MON-A", 0), display(2, "MON-B", 1920)]),
    );

    assert_eq!(state.revision, 2);
    assert_eq!(state.displays.len(), 2);
}

#[test]
fn work_area_change_reflows_without_clearing_tiling_suspension() {
    let mut state = rig(EngineState {
        displays: vec![display(1, "primary", 0)],
        resolved_config: ResolvedConfig {
            automatic_tiling_enabled: true,
            ..ResolvedConfig::default()
        },
        automatic_tiling_suspended: true,
        automatic_tiling_active: false,
        ..EngineState::default()
    });
    let mut changed = state.displays[0].clone();
    changed.work_area = Rect::new(0, 40, 1920, 1040);

    apply(&mut state, topology_changed(vec![changed.clone()]));

    assert_eq!(state.displays, vec![changed]);
    assert!(state.automatic_tiling_suspended);
    assert!(!state.automatic_tiling_active);
}

#[test]
fn apply_window_placed_tracks_the_window_with_no_previous_bounds() {
    let mut state = rig(EngineState::default());
    let bounds = Rect::new(0, 0, 960, 1080);
    apply(
        &mut state,
        Event::WindowPlaced {
            window_id: WindowId(1),
            display_id: DisplayId(1),
            bounds,
        },
    );

    let placement = state
        .windows
        .get(1)
        .expect("window should be tracked");
    assert_eq!(placement.display_id, DisplayId(1));
    assert_eq!(placement.bounds, bounds);
    assert_eq!(placement.previous_placement, None);
    assert_eq!(state.revision, 1);
}

#[test]
fn apply_window_placed_again_remembers_the_prior_display_and_bounds() {
    let mut state = rig(EngineState::default());
    let first = Rect::new(0, 0, 960, 1080);
    let second = Rect::new(0, 0, 1920, 1080);
    apply(
        &mut state,
        Event::WindowPlaced {
            window_id: WindowId(1),
            display_id: DisplayId(1),
            bounds: first,
        },
    );
    apply(
        &mut state,
        Event::WindowPlaced {
            window_id: WindowId(1),
            display_id: DisplayId(1),
            bounds: second,
        },
    );

    let placement = state.windows.get(1).unwrap();
    assert_eq!(placement.bounds, second);
    assert_eq!(placement.previous_placement, Some((DisplayId(1), first)));
    assert_eq!(state.revision, 2);
}

#[test]
fn apply_restore_reverts_to_the_previous_bounds_and_clears_it() {
    let mut state = rig(EngineState::default());
    let first = Rect::new(0, 0, 960, 1080);
    let second = Rect::new(0, 0, 1920, 1080);
    apply(
        &mut state,
        Event::WindowPlaced {
            window_id: WindowId(1),
            display_id: DisplayId(1),
            bounds: first,
        },
    );
    apply(
        &mut state,
        Event::WindowPlaced {
            window_id: WindowId(1),
            display_id: DisplayId(1),
            bounds: second,
        },
    );
    apply(&mut state, Event::WindowRestoreRequested { window_id: WindowId(1) });

    let placement = state.windows.get(1).unwrap();
    assert_eq!(
        placement.bounds, first,
        "restore should return to the bounds before the last placement"
    );
    assert_eq!(placement.display_id, DisplayId(1));
    assert_eq!(
        placement.previous_placement, None,
        "restore is a single step, not a stack"
    );
    assert_eq!(state.revision, 3);
}

#[test]
fn apply_restore_after_a_cross_display_throw_reverts_the_display_too() {
    let mut state = rig(EngineState::default());
    apply(
        &mut state,
        topology_changed(vec![display(1, "MON-A", 0), display(2, "MON-B", 1920)]),
    );
    let original_bounds = Rect::new(0, 0, 960, 1080);
    apply(
        &mut state,
        Event::WindowPlaced {
            window_id: WindowId(1),
            display_id: DisplayId(1),
            bounds: original_bounds,
        },
    );
    apply(
        &mut state,
        Event::WindowThrowToDisplayRequested {
            window_id: WindowId(1),
            direction: DisplayDirection::Next,
        },
    );
    apply(&mut state, Event::WindowRestoreRequested { window_id: WindowId(1) });

    let placement = state.windows.get(1).unwrap();
    assert_eq!(
        placement.display_id,
        DisplayId(1),
        "restore must move the window back to its source display"
    );
    assert_eq!(placement.bounds, original_bounds);
}

#[test]
fn apply_restore_twice_only_undoes_one_step() {
    let mut state = rig(EngineState::default());
    let first = Rect::new(0, 0, 960, 1080);
    let second = Rect::new(0, 0, 1920, 1080);
    apply(
        &mut state,
        Event::WindowPlaced {
            window_id: WindowId(1),
            display_id: DisplayId(1),
            bounds: first,
        },
    );
    apply(
        &mut state,
        Event::WindowPlaced {
            window_id: WindowId(1),
            display_id: DisplayId(1),
            bounds: second,
        },
    );
    apply(&mut state, Event::WindowRestoreRequested { window_id: WindowId(1) });
    let revision_after_first_restore = state.revision;
    apply(&mut state, Event::WindowRestoreRequested { window_id: WindowId(1) });

    let placement = state.windows.get(1).unwrap();
    assert_eq!(
        placement.bounds, first,
        "a second restore with nothing remembered must be a no-op"
    );
    assert_eq!(
        state.revision, revision_after_first_restore,
        "a no-op restore must not bump the revision"
    );
}

#[test]
fn apply_restore_is_a_noop_for_an_untracked_window() {
    let mut state = rig(EngineState::default());
    apply(&mut state, Event::WindowRestoreRequested { window_id: WindowId(1) });

    assert_eq!(state.revision, 0);
    assert!(state.windows.is_empty());
}

#[test]
fn apply_throw_moves_the_window_to_the_next_display_preserving_its_ratio() {
    let mut state = rig(EngineState::default());
    apply(
        &mut state,
        topology_changed(vec![display(1, "MON-A", 0), display(2, "MON-B", 1920)]),
    );
    let left_half = Rect::new(0, 0, 960, 1080);
    apply(
        &mut state,
        Event::WindowPlaced {
            window_id: WindowId(1),
            display_id: DisplayId(1),
            bounds: left_half,
        },
    );
    apply(
        &mut state,
        Event::WindowThrowToDisplayRequested {
            window_id: WindowId(1),
            direction: DisplayDirection::Next,
        },
    );

    let placement = state.windows.get(1).unwrap();
    assert_eq!(placement.display_id, DisplayId(2));
    assert_eq!(
        placement.bounds,
        Rect::new(1920, 0, 960, 1080),
        "half-width, full-height should be preserved on the target display"
    );
    assert_eq!(
        placement.previous_placement,
        Some((DisplayId(1), left_half)),
        "a throw should itself be restorable"
    );
}

#[test]
fn apply_throw_prev_wraps_around_to_the_last_display() {
    let mut state = rig(EngineState::default());
    apply(
        &mut state,
        topology_changed(vec![display(1, "MON-A", 0), display(2, "MON-B", 1920)]),
    );
    apply(
        &mut state,
        Event::WindowPlaced {
            window_id: WindowId(1),
            display_id: DisplayId(1),
            bounds: Rect::new(0, 0, 1920, 1080),
        },
    );
    apply(
        &mut state,
        Event::WindowThrowToDisplayRequested {
            window_id: WindowId(1),
            direction: DisplayDirection::Prev,
        },
    );

    assert_eq!(
        state.windows.get(1).unwrap().display_id,
        DisplayId(2)
    );
}

#[test]
fn apply_throw_is_a_noop_for_an_untracked_window() {
    let mut state = rig(EngineState::default());
    apply(
        &mut state,
        topology_changed(vec![display(1, "MON-A", 0), display(2, "MON-B", 1920)]),
    );
    apply(
        &mut state,
        Event::WindowThrowToDisplayRequested {
            window_id: WindowId(1),
            direction: DisplayDirection::Next,
        },
    );

    assert_eq!(
        state.revision, 1,
        "only the topology change should have bumped the revision"
    );
    assert!(state.windows.is_empty());
}

#[test]
fn apply_throw_is_a_noop_with_only_one_display() {
    let mut state = rig(EngineState::default());
    apply(&mut state, topology_changed(vec![display(1, "MON-A", 0)]));
    let bounds = Rect::new(0, 0, 960, 1080);
    apply(
        &mut state,
        Event::WindowPlaced {
            window_id: WindowId(1),
            display_id: DisplayId(1),
            bounds,
        },
    );
    let revision_before_throw = state.revision;
    apply(
        &mut state,
        Event::WindowThrowToDisplayRequested {
            window_id: WindowId(1),
            direction: DisplayDirection::Next,
        },
    );

    let placement = state.windows.get(1).unwrap();
    assert_eq!(
        placement.bounds, bounds,
        "with no other display, the window must not move"
    );
    assert_eq!(placement.display_id, DisplayId(1));
    assert_eq!(state.revision, revision_before_throw);
}

#[test]
fn apply_throw_is_a_noop_when_the_windows_display_left_the_topology() {
    let mut state = rig(EngineState::default());
    apply(
        &mut state,
        topology_changed(vec![display(1, "MON-A", 0), display(2, "MON-B", 1920)]),
    );
    apply(
        &mut state,
        Event::WindowPlaced {
            window_id: WindowId(1),
            display_id: DisplayId(1),
            bounds: Rect::new(0, 0, 960, 1080),
        },
    );
    apply(&mut state, topology_changed(vec![display(2, "MON-B", 1920)]));

    assert_eq!(
        state.windows.get(1).unwrap().display_id,
        DisplayId(2),
        "the window must be migrated to the surviving display on hotplug"
    );

    let revision_before_throw = state.revision;
    apply(
        &mut state,
        Event::WindowThrowToDisplayRequested {
            window_id: WindowId(1),
            direction: DisplayDirection::Next,
        },
    );

    assert_eq!(
        state.windows.get(1).unwrap().display_id,
        DisplayId(2),
        "with no adjacent display, the throw must be a no-op on the migrated display"
    );
    assert_eq!(
        state.revision, revision_before_throw,
        "throw with no adjacent display must not bump the revision"
    );
}

#[test]
fn apply_focused_sets_the_focused_window_and_bumps_revision() {
    let mut state = rig(EngineState::default());
    assert_eq!(state.focused_window, None);
    let bounds = Rect::new(0, 0, 1920, 1080);

    apply(
        &mut state,
        Event::WindowFocused {
            window_id: WindowId(1),
            display_id: DisplayId(1),
            bounds,
        },
    );

    assert_eq!(state.focused_window, Some(WindowId(1)));
    assert_eq!(state.revision, 1);
    let placement = state.windows.get(1).unwrap();
    assert_eq!(placement.display_id, DisplayId(1));
    assert_eq!(placement.bounds, bounds);
    assert_eq!(placement.previous_placement, None);
}

#[test]
fn apply_focused_again_with_a_different_window_replaces_it() {
    let mut state = rig(EngineState::default());
    let bounds = Rect::new(0, 0, 1920, 1080);
    apply(
        &mut state,
        Event::WindowFocused {
            window_id: WindowId(1),
            display_id: DisplayId(1),
            bounds,
        },
    );
    apply(
        &mut state,
        Event::WindowFocused {
            window_id: WindowId(2),
            display_id: DisplayId(1),
            bounds,
        },
    );

    assert_eq!(state.focused_window, Some(WindowId(2)));
    assert_eq!(state.revision, 2);
}

#[test]
fn apply_zone_snap_left_on_first_press_snaps_to_left_half() {
    let mut state = rig(EngineState::default());
    apply(&mut state, topology_changed(vec![display(1, "MON-A", 0)]));
    apply(
        &mut state,
        Event::WindowPlaced {
            window_id: WindowId(1),
            display_id: DisplayId(1),
            bounds: Rect::new(0, 0, 1920, 1080),
        },
    );
    apply(
        &mut state,
        Event::WindowFocused {
            window_id: WindowId(1),
            display_id: DisplayId(1),
            bounds: Rect::new(0, 0, 1920, 1080),
        },
    );

    apply(&mut state, Event::ZoneSnapRequested { direction: ZoneSnapDirection::Left });

    let placement = state.windows.get(1).unwrap();
    assert_eq!(placement.bounds, Rect::new(0, 0, 960, 1080));
    assert_eq!(
        placement.cycle_step,
        Some((HorizontalDirection::Left, CycleStep::Half))
    );
}

#[test]
fn zone_snap_emits_one_platform_neutral_placement_effect() {
    let mut state = rig(EngineState {
        displays: vec![display(1, "primary", 0)],
        ..EngineState::default()
    });
    apply(
        &mut state,
        Event::WindowFocused {
            window_id: WindowId(7),
            display_id: DisplayId(1),
            bounds: Rect::new(10, 10, 500, 500),
        },
    );
    apply(&mut state, Event::ZoneSnapRequested { direction: ZoneSnapDirection::Left });

    assert_eq!(
        state.effects,
        vec![EngineEffect::PlaceWindow {
            window_id: WindowId(7),
            display_id: DisplayId(1),
            bounds: Rect::new(0, 0, 960, 1080),
        }]
    );
}

#[test]
fn apply_zone_snap_left_repeated_advances_half_third_two_thirds_then_wraps() {
    let mut state = rig(EngineState::default());
    apply(&mut state, topology_changed(vec![display(1, "MON-A", 0)]));
    apply(
        &mut state,
        Event::WindowPlaced {
            window_id: WindowId(1),
            display_id: DisplayId(1),
            bounds: Rect::new(0, 0, 1920, 1080),
        },
    );
    apply(
        &mut state,
        Event::WindowFocused {
            window_id: WindowId(1),
            display_id: DisplayId(1),
            bounds: Rect::new(0, 0, 1920, 1080),
        },
    );

    apply(&mut state, Event::ZoneSnapRequested { direction: ZoneSnapDirection::Left });
    apply(&mut state, Event::ZoneSnapRequested { direction: ZoneSnapDirection::Left });
    let placement = state.windows.get(1).unwrap();
    assert_eq!(
        placement.bounds,
        Rect::new(0, 0, 640, 1080),
        "second press should shrink to the left third"
    );
    assert_eq!(
        placement.cycle_step,
        Some((HorizontalDirection::Left, CycleStep::Third))
    );

    apply(&mut state, Event::ZoneSnapRequested { direction: ZoneSnapDirection::Left });
    let placement = state.windows.get(1).unwrap();
    assert_eq!(
        placement.bounds,
        Rect::new(0, 0, 1280, 1080),
        "third press should expand to the left two-thirds"
    );
    assert_eq!(
        placement.cycle_step,
        Some((HorizontalDirection::Left, CycleStep::TwoThirds))
    );

    apply(&mut state, Event::ZoneSnapRequested { direction: ZoneSnapDirection::Left });
    let placement = state.windows.get(1).unwrap();
    assert_eq!(
        placement.bounds,
        Rect::new(0, 0, 960, 1080),
        "fourth press should wrap back to half"
    );
    assert_eq!(
        placement.cycle_step,
        Some((HorizontalDirection::Left, CycleStep::Half))
    );
}

#[test]
fn apply_zone_snap_right_runs_its_own_independent_cycle_from_half() {
    let mut state = rig(EngineState::default());
    apply(&mut state, topology_changed(vec![display(1, "MON-A", 0)]));
    apply(
        &mut state,
        Event::WindowPlaced {
            window_id: WindowId(1),
            display_id: DisplayId(1),
            bounds: Rect::new(0, 0, 1920, 1080),
        },
    );
    apply(
        &mut state,
        Event::WindowFocused {
            window_id: WindowId(1),
            display_id: DisplayId(1),
            bounds: Rect::new(0, 0, 1920, 1080),
        },
    );

    apply(&mut state, Event::ZoneSnapRequested { direction: ZoneSnapDirection::Left });
    apply(&mut state, Event::ZoneSnapRequested { direction: ZoneSnapDirection::Left });
    apply(&mut state, Event::ZoneSnapRequested { direction: ZoneSnapDirection::Right });

    let placement = state.windows.get(1).unwrap();
    assert_eq!(
        placement.bounds,
        Rect::new(960, 0, 960, 1080),
        "switching direction should start a fresh cycle at half, not continue the other direction's step"
    );
    assert_eq!(
        placement.cycle_step,
        Some((HorizontalDirection::Right, CycleStep::Half))
    );
}

#[test]
fn apply_zone_snap_top_always_resolves_to_top_half_and_never_cycles() {
    let mut state = rig(EngineState::default());
    apply(&mut state, topology_changed(vec![display(1, "MON-A", 0)]));
    apply(
        &mut state,
        Event::WindowPlaced {
            window_id: WindowId(1),
            display_id: DisplayId(1),
            bounds: Rect::new(0, 0, 1920, 1080),
        },
    );
    apply(
        &mut state,
        Event::WindowFocused {
            window_id: WindowId(1),
            display_id: DisplayId(1),
            bounds: Rect::new(0, 0, 1920, 1080),
        },
    );

    apply(&mut state, Event::ZoneSnapRequested { direction: ZoneSnapDirection::Top });
    apply(&mut state, Event::ZoneSnapRequested { direction: ZoneSnapDirection::Top });

    let placement = state.windows.get(1).unwrap();
    assert_eq!(
        placement.bounds,
        Rect::new(0, 0, 1920, 540),
        "repeated top presses must stay at half, never cycle"
    );
    assert_eq!(
        placement.cycle_step, None,
        "top/bottom must not write cycle-step state"
    );
}

#[test]
fn apply_zone_snap_bottom_always_resolves_to_bottom_half_and_leaves_cycle_step_untouched() {
    let mut state = rig(EngineState::default());
    apply(&mut state, topology_changed(vec![display(1, "MON-A", 0)]));
    apply(
        &mut state,
        Event::WindowPlaced {
            window_id: WindowId(1),
            display_id: DisplayId(1),
            bounds: Rect::new(0, 0, 1920, 1080),
        },
    );
    apply(
        &mut state,
        Event::WindowFocused {
            window_id: WindowId(1),
            display_id: DisplayId(1),
            bounds: Rect::new(0, 0, 1920, 1080),
        },
    );
    apply(&mut state, Event::ZoneSnapRequested { direction: ZoneSnapDirection::Left });

    apply(&mut state, Event::ZoneSnapRequested { direction: ZoneSnapDirection::Bottom });

    let placement = state.windows.get(1).unwrap();
    assert_eq!(placement.bounds, Rect::new(0, 540, 1920, 540));
    assert_eq!(
        placement.cycle_step,
        Some((HorizontalDirection::Left, CycleStep::Half)),
        "top/bottom must not read or write cycle-step state, so left's cycle position survives underneath"
    );
}

#[test]
fn apply_zone_snap_applies_the_active_configs_gaps_to_a_half_snap() {
    let mut state = rig(EngineState::default());
    apply(&mut state, topology_changed(vec![display(1, "MON-A", 0)]));
    apply(
        &mut state,
        Event::ConfigChanged(config_set_with_gaps(Gaps::new(
            10, 4,
        ))),
    );
    apply(
        &mut state,
        Event::WindowFocused {
            window_id: WindowId(1),
            display_id: DisplayId(1),
            bounds: Rect::new(0, 0, 1920, 1080),
        },
    );

    apply(&mut state, Event::ZoneSnapRequested { direction: ZoneSnapDirection::Left });

    let placement = state.windows.get(1).unwrap();
    assert_eq!(
        placement.bounds,
        Rect::new(10, 10, 960 - 10 - 4, 1080 - 10 - 10),
        "left half's outer edges get the outer gap, its interior right edge gets the inner gap"
    );
}

#[test]
fn apply_zone_snap_applies_the_active_configs_gaps_to_a_cycled_third_step() {
    let mut state = rig(EngineState::default());
    apply(&mut state, topology_changed(vec![display(1, "MON-A", 0)]));
    apply(
        &mut state,
        Event::ConfigChanged(config_set_with_gaps(Gaps::new(
            10, 4,
        ))),
    );
    apply(
        &mut state,
        Event::WindowFocused {
            window_id: WindowId(1),
            display_id: DisplayId(1),
            bounds: Rect::new(0, 0, 1920, 1080),
        },
    );

    apply(&mut state, Event::ZoneSnapRequested { direction: ZoneSnapDirection::Left });
    apply(&mut state, Event::ZoneSnapRequested { direction: ZoneSnapDirection::Left });

    let placement = state.windows.get(1).unwrap();
    assert_eq!(
        placement.bounds,
        Rect::new(10, 10, 640 - 10 - 4, 1080 - 10 - 10),
        "the left third's interior right edge still gets the inner gap after cycling"
    );
}

#[test]
fn apply_zone_snap_reflects_a_gap_change_on_the_very_next_placement_with_no_restart() {
    let mut state = rig(EngineState::default());
    apply(&mut state, topology_changed(vec![display(1, "MON-A", 0)]));
    apply(
        &mut state,
        Event::ConfigChanged(config_set_with_gaps(Gaps::new(
            10, 4,
        ))),
    );
    apply(
        &mut state,
        Event::WindowFocused {
            window_id: WindowId(1),
            display_id: DisplayId(1),
            bounds: Rect::new(0, 0, 1920, 1080),
        },
    );
    apply(&mut state, Event::ZoneSnapRequested { direction: ZoneSnapDirection::Left });
    assert_eq!(
        state.windows.get(1).unwrap().bounds,
        Rect::new(10, 10, 960 - 10 - 4, 1080 - 10 - 10)
    );

    apply(
        &mut state,
        Event::ConfigChanged(config_set_with_gaps(Gaps::new(
            20, 8,
        ))),
    );
    apply(&mut state, Event::ZoneSnapRequested { direction: ZoneSnapDirection::Left });

    let placement = state.windows.get(1).unwrap();
    assert_eq!(
        placement.bounds,
        Rect::new(20, 20, 640 - 20 - 8, 1080 - 20 - 20),
        "the cycled third step must use the newly-configured gaps, not the ones active at the first press"
    );
}

#[test]
fn apply_zone_snap_is_a_noop_with_no_focused_window() {
    let mut state = rig(EngineState::default());
    apply(&mut state, topology_changed(vec![display(1, "MON-A", 0)]));
    let bounds = Rect::new(0, 0, 1920, 1080);
    apply(
        &mut state,
        Event::WindowPlaced {
            window_id: WindowId(1),
            display_id: DisplayId(1),
            bounds,
        },
    );
    let revision_before = state.revision;

    apply(&mut state, Event::ZoneSnapRequested { direction: ZoneSnapDirection::Left });

    assert_eq!(
        state.revision, revision_before,
        "no focused window must be a no-op"
    );
    assert_eq!(state.windows.get(1).unwrap().bounds, bounds);
}

#[test]
fn zone_snap_on_a_freshly_focused_never_placed_window_snaps_it_using_the_observed_bounds() {
    let mut state = rig(EngineState::default());
    apply(&mut state, topology_changed(vec![display(1, "MON-A", 0)]));
    apply(
        &mut state,
        Event::WindowFocused {
            window_id: WindowId(1),
            display_id: DisplayId(1),
            bounds: Rect::new(100, 100, 800, 600),
        },
    );

    apply(&mut state, Event::ZoneSnapRequested { direction: ZoneSnapDirection::Left });

    let placement = state.windows.get(1).unwrap();
    assert_eq!(
        placement.bounds,
        Rect::new(0, 0, 960, 1080),
        "a snap hotkey on a freshly-focused, never-explicitly-placed window must snap it, \
         not silently no-op"
    );
}

#[test]
fn apply_zone_snap_on_migrated_window_works_on_surviving_display() {
    let mut state = rig(EngineState::default());
    apply(
        &mut state,
        topology_changed(vec![display(1, "MON-A", 0), display(2, "MON-B", 1920)]),
    );
    let original_bounds = Rect::new(0, 0, 960, 1080);
    apply(
        &mut state,
        Event::WindowPlaced {
            window_id: WindowId(1),
            display_id: DisplayId(1),
            bounds: original_bounds,
        },
    );
    apply(
        &mut state,
        Event::WindowFocused {
            window_id: WindowId(1),
            display_id: DisplayId(1),
            bounds: original_bounds,
        },
    );
    apply(&mut state, topology_changed(vec![display(2, "MON-B", 1920)]));

    assert_eq!(
        state.windows.get(1).unwrap().display_id,
        DisplayId(2),
        "window must have been migrated to display 2"
    );

    let revision_before = state.revision;
    apply(&mut state, Event::ZoneSnapRequested { direction: ZoneSnapDirection::Left });

    assert!(
        state.revision > revision_before,
        "zone-snap on a migrated window must produce a new placement (revision must bump)"
    );
    let placement = state.windows.get(1).unwrap();
    assert_eq!(
        placement.display_id,
        DisplayId(2),
        "window must remain on display 2 after snap"
    );
    assert_eq!(
        placement.bounds,
        Rect::new(1920, 0, 960, 1080),
        "snap must produce the left half of display 2's work area"
    );
}

#[test]
fn apply_bounds_observed_matching_the_last_placement_leaves_cycle_state_alone() {
    let mut state = rig(EngineState::default());
    apply(&mut state, topology_changed(vec![display(1, "MON-A", 0)]));
    apply(
        &mut state,
        Event::WindowPlaced {
            window_id: WindowId(1),
            display_id: DisplayId(1),
            bounds: Rect::new(0, 0, 1920, 1080),
        },
    );
    apply(
        &mut state,
        Event::WindowFocused {
            window_id: WindowId(1),
            display_id: DisplayId(1),
            bounds: Rect::new(0, 0, 1920, 1080),
        },
    );
    apply(&mut state, Event::ZoneSnapRequested { direction: ZoneSnapDirection::Left });
    let revision_before = state.revision;

    apply(
        &mut state,
        Event::WindowBoundsObserved {
            window_id: WindowId(1),
            display_id: DisplayId(1),
            bounds: Rect::new(0, 0, 960, 1080),
        },
    );

    let placement = state.windows.get(1).unwrap();
    assert_eq!(
        placement.cycle_step,
        Some((HorizontalDirection::Left, CycleStep::Half)),
        "a matching observation must leave cycle state untouched"
    );
    assert_eq!(
        state.revision, revision_before,
        "a matching observation must not bump the revision"
    );
}

#[test]
fn apply_bounds_observed_not_matching_the_last_placement_resets_cycle_step() {
    let mut state = rig(EngineState::default());
    apply(&mut state, topology_changed(vec![display(1, "MON-A", 0)]));
    apply(
        &mut state,
        Event::WindowPlaced {
            window_id: WindowId(1),
            display_id: DisplayId(1),
            bounds: Rect::new(0, 0, 1920, 1080),
        },
    );
    apply(
        &mut state,
        Event::WindowFocused {
            window_id: WindowId(1),
            display_id: DisplayId(1),
            bounds: Rect::new(0, 0, 1920, 1080),
        },
    );
    apply(&mut state, Event::ZoneSnapRequested { direction: ZoneSnapDirection::Left });
    apply(&mut state, Event::ZoneSnapRequested { direction: ZoneSnapDirection::Left });
    let revision_before = state.revision;

    apply(
        &mut state,
        Event::WindowBoundsObserved {
            window_id: WindowId(1),
            display_id: DisplayId(1),
            bounds: Rect::new(100, 100, 400, 400),
        },
    );

    let placement = state.windows.get(1).unwrap();
    assert_eq!(
        placement.cycle_step, None,
        "a non-matching observation must reset cycle step to step 1"
    );
    assert_eq!(
        placement.bounds,
        Rect::new(0, 0, 640, 1080),
        "tracked placement bounds must not be altered by an observation"
    );
    assert_eq!(state.revision, revision_before + 1);
}

#[test]
fn apply_bounds_observed_mismatch_then_zone_snap_restarts_the_cycle_at_half() {
    let mut state = rig(EngineState::default());
    apply(&mut state, topology_changed(vec![display(1, "MON-A", 0)]));
    apply(
        &mut state,
        Event::WindowPlaced {
            window_id: WindowId(1),
            display_id: DisplayId(1),
            bounds: Rect::new(0, 0, 1920, 1080),
        },
    );
    apply(
        &mut state,
        Event::WindowFocused {
            window_id: WindowId(1),
            display_id: DisplayId(1),
            bounds: Rect::new(0, 0, 1920, 1080),
        },
    );
    apply(&mut state, Event::ZoneSnapRequested { direction: ZoneSnapDirection::Left });
    apply(&mut state, Event::ZoneSnapRequested { direction: ZoneSnapDirection::Left });
    apply(
        &mut state,
        Event::WindowBoundsObserved {
            window_id: WindowId(1),
            display_id: DisplayId(1),
            bounds: Rect::new(100, 100, 400, 400),
        },
    );

    apply(&mut state, Event::ZoneSnapRequested { direction: ZoneSnapDirection::Left });

    let placement = state.windows.get(1).unwrap();
    assert_eq!(
        placement.bounds,
        Rect::new(0, 0, 960, 1080),
        "the next same-direction press after an external move must start back at half"
    );
    assert_eq!(
        placement.cycle_step,
        Some((HorizontalDirection::Left, CycleStep::Half))
    );
}

#[test]
fn apply_bounds_observed_is_a_noop_for_an_untracked_window() {
    let mut state = rig(EngineState::default());

    apply(
        &mut state,
        Event::WindowBoundsObserved {
            window_id: WindowId(1),
            display_id: DisplayId(1),
            bounds: Rect::new(0, 0, 100, 100),
        },
    );

    assert_eq!(state.revision, 0);
    assert!(state.windows.is_empty());
}

#[test]
fn apply_bounds_observed_mismatch_with_no_cycle_step_records_the_move() {
    let mut state = rig(EngineState::default());
    apply(&mut state, topology_changed(vec![display(1, "MON-A", 0)]));
    apply(
        &mut state,
        Event::WindowPlaced {
            window_id: WindowId(1),
            display_id: DisplayId(1),
            bounds: Rect::new(0, 0, 1920, 1080),
        },
    );
    let revision_before = state.revision;

    apply(
        &mut state,
        Event::WindowBoundsObserved {
            window_id: WindowId(1),
            display_id: DisplayId(1),
            bounds: Rect::new(100, 100, 400, 400),
        },
    );

    let placement = state.windows.get(1).unwrap();
    assert_eq!(placement.cycle_step, None);
    assert_eq!(
        placement.bounds,
        Rect::new(0, 0, 1920, 1080),
        "the intended placement is unchanged by an observation"
    );
    assert_eq!(
        placement.observed_bounds,
        Rect::new(100, 100, 400, 400),
        "but where the window actually is must be recorded"
    );
    assert!(
        state.revision > revision_before,
        "the window really moved, so watchers of the revision -- the focus \
         border among them -- must be able to notice"
    );
}

fn config_set_with_left_binding(combo: &str) -> ResolvedConfigSet {
    ResolvedConfigSet {
        base: resolved_config_with_left_binding(combo),
        profiles: Vec::new(),
    }
}

fn config_set_with_gaps(gaps: Gaps) -> ResolvedConfigSet {
    ResolvedConfigSet {
        base: ResolvedConfig {
            gaps,
            ..ResolvedConfig::default()
        },
        profiles: Vec::new(),
    }
}

#[test]
fn observed_windows_publish_tile_float_and_exclude_rule_outcomes() {
    let mut state = rig(EngineState::default());
    apply(
        &mut state,
        Event::WindowsObserved {
            windows: vec![
                observed_window(1, WindowRole::Normal, WindowLifecycle::Active),
                observed_window(2, WindowRole::Dialog, WindowLifecycle::Active),
                observed_window(3, WindowRole::Popup, WindowLifecycle::Active),
            ],
        },
    );

    assert_eq!(state.inventory.len(), 2);
    assert_eq!(state.inventory.get(1).unwrap().action, ManageAction::Tile);
    assert_eq!(
        state.inventory.get(1).unwrap().eligibility,
        EligibilityReason::Eligible
    );
    assert_eq!(state.inventory.get(2).unwrap().action, ManageAction::Float);
    assert_eq!(
        state.inventory.get(2).unwrap().eligibility,
        EligibilityReason::FloatingRule
    );
    assert!(!state.inventory.contains_key(3));
}

#[test]
fn rules_written_in_configuration_reach_the_evaluator() {
    let mut state = rig(EngineState::default());

    let rules = state.outside.rule_book(vec![Rule {
        id: "float-the-test-window".to_owned(),
        floats_titles_with: "non-sensitive".to_owned(),
    }]);
    apply(
        &mut state,
        Event::ConfigChanged(ResolvedConfigSet {
            base: ResolvedConfig { rules, ..ResolvedConfig::default() },
            profiles: Vec::new(),
        }),
    );

    assert_eq!(state.rules, rules, "configuration is a source of rules");
    assert_eq!(state.outside.rules[state.rules.id as usize][0].id, "float-the-test-window");

    apply(
        &mut state,
        Event::WindowsObserved {
            windows: vec![observed_window(1, WindowRole::Normal, WindowLifecycle::Active)],
        },
    );

    assert_eq!(
        state.inventory.get(1).unwrap().action,
        ManageAction::Float,
        "a normal window the user's rule matched floats instead of tiling"
    );
    assert_eq!(
        state.inventory.get(1).unwrap().eligibility,
        EligibilityReason::FloatingRule
    );
}

#[test]
fn elevated_windows_remain_in_inventory_with_an_ineligible_reason() {
    let mut state = rig(EngineState::default());
    let mut elevated = observed_window(8, WindowRole::Normal, WindowLifecycle::Active);
    elevated.elevated = true;

    apply(
        &mut state,
        Event::WindowsObserved {
            windows: vec![elevated],
        },
    );

    assert_eq!(
        state.inventory.get(8).unwrap().eligibility,
        EligibilityReason::Elevated
    );
}

#[test]
fn active_profile_reflows_eligible_inventory_into_balanced_grid_effects() {
    let mut state = rig(EngineState {
        displays: vec![display(1, "primary", 0)],
        automatic_tiling_active: true,
        ..EngineState::default()
    });
    let mut left = observed_window(1, WindowRole::Normal, WindowLifecycle::Active);
    left.bounds = Rect::new(100, 200, 400, 300);
    let mut right = observed_window(2, WindowRole::Normal, WindowLifecycle::Active);
    right.bounds = Rect::new(800, 200, 400, 300);

    apply(
        &mut state,
        Event::WindowsObserved {
            windows: vec![right, left],
        },
    );

    assert_eq!(
        listed(&state.visual_window_order, 1),
        vec![WindowId(1), WindowId(2)]
    );
    assert_eq!(
        state.effects,
        vec![
            EngineEffect::PlaceWindow {
                window_id: WindowId(1),
                display_id: DisplayId(1),
                bounds: Rect::new(0, 0, 960, 1080)
            },
            EngineEffect::PlaceWindow {
                window_id: WindowId(2),
                display_id: DisplayId(1),
                bounds: Rect::new(960, 0, 960, 1080)
            },
        ]
    );
}

#[test]
fn temporary_lifecycle_ineligibility_keeps_visual_order_and_reflows_once() {
    let mut state = rig(EngineState {
        displays: vec![display(1, "primary", 0)],
        automatic_tiling_active: true,
        ..EngineState::default()
    });
    let windows = vec![
        observed_window(1, WindowRole::Normal, WindowLifecycle::Active),
        observed_window(2, WindowRole::Normal, WindowLifecycle::Active),
        observed_window(3, WindowRole::Normal, WindowLifecycle::Active),
    ];
    apply(
        &mut state,
        Event::WindowsObserved {
            windows: windows.clone(),
        },
    );
    state.effects.clear();

    let mut minimized = windows.clone();
    minimized[1].lifecycle = WindowLifecycle::Minimized;
    apply(&mut state, Event::WindowsObserved { windows: minimized });

    assert_eq!(
        listed(&state.visual_window_order, 1),
        vec![WindowId(1), WindowId(2), WindowId(3)]
    );
    assert_eq!(
        state.inventory.get(2).unwrap().eligibility,
        EligibilityReason::Minimized
    );
    assert_eq!(
        state.effects.len(),
        2,
        "only the two active members receive the settled plan"
    );
}

#[test]
fn apply_config_changed_updates_resolved_config_and_bumps_revision() {
    let mut state = rig(EngineState::default());
    assert_eq!(state.resolved_config, ResolvedConfig::default());

    let new_config_set = config_set_with_left_binding("ctrl+alt+left");
    apply(&mut state, Event::ConfigChanged(new_config_set.clone()));

    assert_eq!(state.resolved_config, new_config_set.base);
    assert_eq!(state.config_set, new_config_set);
    assert_eq!(state.revision, 1);
}

#[test]
fn apply_config_changed_ignores_an_identical_resolved_config() {
    let mut state = rig(EngineState::default());
    let config_set = config_set_with_left_binding("ctrl+alt+left");
    apply(&mut state, Event::ConfigChanged(config_set.clone()));
    let revision_after_first = state.revision;

    apply(&mut state, Event::ConfigChanged(config_set));

    assert_eq!(
        state.revision, revision_after_first,
        "re-delivering an identical resolved config must not bump the revision"
    );
}

#[test]
fn apply_config_changed_again_with_different_settings_replaces_it() {
    let mut state = rig(EngineState::default());
    apply(&mut state, Event::ConfigChanged(config_set_with_left_binding("ctrl+alt+left")));
    let revision_after_first = state.revision;

    let second_config_set = config_set_with_left_binding("ctrl+shift+left");
    apply(&mut state, Event::ConfigChanged(second_config_set.clone()));

    assert_eq!(state.resolved_config, second_config_set.base);
    assert_eq!(state.revision, revision_after_first + 1);
}

#[test]
fn apply_topology_change_selects_a_profile_matching_the_new_topology() {
    let mut state = rig(EngineState::default());
    let displays = vec![display(1, "MON-A", 0)];
    let profile = ResolvedProfile {
        fingerprint: topology_fingerprint(&displays),
        config: resolved_config_with_left_binding("ctrl+shift+left"),
    };
    let config_set = ResolvedConfigSet {
        base: ResolvedConfig::default(),
        profiles: vec![profile.clone()],
    };
    apply(&mut state, Event::ConfigChanged(config_set));
    assert_eq!(
        state.resolved_config,
        ResolvedConfig::default(),
        "no display observed yet, so no profile should match"
    );

    apply(&mut state, topology_changed(displays));

    assert_eq!(
        state.resolved_config, profile.config,
        "the topology change should re-select the profile matching its fingerprint"
    );
}

#[test]
fn moving_to_a_desk_with_a_profile_swaps_in_that_profiles_saved_layouts() {
    let mut state = rig(EngineState::default());
    let laptop = vec![display(1, "MON-A", 0)];
    let desk = vec![display(1, "MON-A", 0), display(2, "MON-B", 1920)];
    let docked_layouts = vec![state.outside.layout("docked", &[(0.0, 0.0, 1.0, 1.0)])];
    let base_layouts = vec![state.outside.layout("writing", &[])];
    let config_set = ResolvedConfigSet {
        base: ResolvedConfig {
            layouts: base_layouts,
            ..ResolvedConfig::default()
        },
        profiles: vec![ResolvedProfile {
            fingerprint: topology_fingerprint(&desk),
            config: ResolvedConfig {
                layouts: docked_layouts,
                ..ResolvedConfig::default()
            },
        }],
    };
    apply(&mut state, Event::ConfigChanged(config_set));
    apply(&mut state, topology_changed(laptop));

    assert_eq!(
        state.resolved_config.layouts.iter().map(|layout| layout.name.as_str()).collect::<Vec<_>>(),
        vec!["writing"],
        "a topology matching no profile offers the base layouts"
    );

    apply(&mut state, topology_changed(desk));

    assert_eq!(
        state.resolved_config.layouts.iter().map(|layout| layout.name.as_str()).collect::<Vec<_>>(),
        vec!["docked"],
        "docking makes the matched profile's layouts the ones on offer"
    );
}

#[test]
fn apply_topology_change_with_no_matching_profile_falls_back_to_base() {
    let mut state = rig(EngineState::default());
    let base = resolved_config_with_left_binding("ctrl+alt+left");
    let profile = ResolvedProfile {
        fingerprint: "a fingerprint no display will ever produce".to_string(),
        config: resolved_config_with_left_binding("ctrl+shift+left"),
    };
    let config_set = ResolvedConfigSet {
        base: base.clone(),
        profiles: vec![profile],
    };
    apply(&mut state, Event::ConfigChanged(config_set));

    apply(&mut state, topology_changed(vec![display(1, "MON-A", 0)]));

    assert_eq!(
        state.resolved_config, base,
        "an unrecognized topology must fall back to base config, not error or invent a profile"
    );
}

#[test]
fn apply_topology_round_trip_between_two_known_topologies_reselects_the_same_profile() {
    let mut state = rig(EngineState::default());
    let displays_a = vec![display(1, "MON-A", 0)];
    let displays_b = vec![display(2, "MON-B", 0)];
    let profile_a = ResolvedProfile {
        fingerprint: topology_fingerprint(&displays_a),
        config: resolved_config_with_left_binding("ctrl+shift+left"),
    };
    let profile_b = ResolvedProfile {
        fingerprint: topology_fingerprint(&displays_b),
        config: resolved_config_with_left_binding("ctrl+alt+left"),
    };
    let config_set = ResolvedConfigSet {
        base: ResolvedConfig::default(),
        profiles: vec![profile_a.clone(), profile_b.clone()],
    };
    apply(&mut state, Event::ConfigChanged(config_set));

    apply(&mut state, topology_changed(displays_a.clone()));
    assert_eq!(state.resolved_config, profile_a.config);

    apply(&mut state, topology_changed(displays_b));
    assert_eq!(state.resolved_config, profile_b.config);

    apply(&mut state, topology_changed(displays_a));
    assert_eq!(
        state.resolved_config, profile_a.config,
        "switching back to a previously-seen topology must re-select the same profile"
    );
}

#[test]
fn diff_placements_is_empty_when_nothing_changed() {
    let mut windows = Table::new();
    windows.insert(
        1,
        WindowPlacement {
            display_id: DisplayId(1),
            bounds: Rect::new(0, 0, 960, 1080),
            observed_bounds: Rect::new(0, 0, 960, 1080),
            previous_placement: None,
            cycle_step: None,
            rejection_count: 0,
        },
    );

    assert!(moves(&windows, &windows.clone()).is_empty());
}

#[test]
fn diff_placements_reports_new_and_moved_windows_but_not_unchanged_ones() {
    let unchanged = WindowPlacement {
        display_id: DisplayId(1),
        bounds: Rect::new(0, 0, 960, 1080),
        observed_bounds: Rect::new(0, 0, 960, 1080),
        previous_placement: None,
        cycle_step: None,
        rejection_count: 0,
    };
    let mut previous = Table::new();
    previous.insert(1, unchanged);
    previous.insert(
        2,
        WindowPlacement {
            bounds: Rect::new(0, 0, 1920, 1080),
            ..unchanged
        },
    );

    let mut current = Table::new();
    current.insert(1, unchanged);
    current.insert(
        2,
        WindowPlacement {
            bounds: Rect::new(960, 0, 960, 1080),
            ..unchanged
        },
    );
    current.insert(
        3,
        WindowPlacement {
            bounds: Rect::new(0, 0, 640, 1080),
            ..unchanged
        },
    );

    let mut diff = moves(&previous, &current);
    diff.sort_by_key(|(window_id, _, _)| window_id.0);

    assert_eq!(
        diff,
        vec![
            (WindowId(2), DisplayId(1), Rect::new(960, 0, 960, 1080)),
            (WindowId(3), DisplayId(1), Rect::new(0, 0, 640, 1080)),
        ],
        "unchanged WindowId(1) must be excluded; moved WindowId(2) and new WindowId(3) must both be reported"
    );
}

#[test]
fn apply_pause_sets_paused_and_bumps_revision() {
    let mut state = rig(EngineState::default());
    apply(&mut state, Event::PauseRequested);
    assert!(state.paused);
    assert_eq!(state.revision, 1);
}

#[test]
fn apply_pause_twice_is_idempotent() {
    let mut state = rig(EngineState::default());
    apply(&mut state, Event::PauseRequested);
    apply(&mut state, Event::PauseRequested);
    assert!(state.paused);
    assert_eq!(state.revision, 1);
}

#[test]
fn apply_resume_clears_paused_and_bumps_revision() {
    let mut state = rig(EngineState {
        paused: true,
        ..Default::default()
    });
    apply(&mut state, Event::ResumeRequested);
    assert!(!state.paused);
    assert_eq!(state.revision, 1);
}

#[test]
fn apply_resume_when_not_paused_is_idempotent() {
    let mut state = rig(EngineState::default());
    apply(&mut state, Event::ResumeRequested);
    assert!(!state.paused);
    assert_eq!(state.revision, 0);
}

#[test]
fn apply_zone_snap_is_suppressed_while_paused() {
    let mut state = rig(EngineState {
        paused: true,
        focused_window: Some(WindowId(1)),
        ..Default::default()
    });
    apply(&mut state, Event::ZoneSnapRequested { direction: ZoneSnapDirection::Left });
    assert_eq!(state.revision, 0);
}

#[test]
fn apply_window_placed_is_suppressed_while_paused() {
    let mut state = rig(EngineState {
        paused: true,
        ..Default::default()
    });
    apply(
        &mut state,
        Event::WindowPlaced {
            window_id: WindowId(1),
            display_id: DisplayId(1),
            bounds: Rect::new(0, 0, 100, 100),
        },
    );
    assert_eq!(state.revision, 0);
}

#[test]
fn apply_throw_is_suppressed_while_paused() {
    let mut state = rig(EngineState {
        paused: true,
        ..Default::default()
    });
    apply(
        &mut state,
        Event::WindowThrowToDisplayRequested {
            window_id: WindowId(1),
            direction: DisplayDirection::Next,
        },
    );
    assert_eq!(state.revision, 0);
}

#[test]
fn apply_display_topology_still_processes_while_paused() {
    let mut state = rig(EngineState {
        paused: true,
        ..Default::default()
    });
    apply(&mut state, topology_changed(vec![display(1, "MON-A", 0)]));
    assert_eq!(state.revision, 1);
}

#[test]
fn apply_focus_still_processes_while_paused() {
    let mut state = rig(EngineState {
        paused: true,
        ..Default::default()
    });
    apply(
        &mut state,
        Event::WindowFocused {
            window_id: WindowId(1),
            display_id: DisplayId(1),
            bounds: Rect::new(0, 0, 100, 100),
        },
    );
    assert_eq!(state.revision, 1);
}

#[test]
fn bounds_observed_updates_observed_bounds_but_leaves_the_intended_placement() {
    let mut state = rig(EngineState::default());
    apply(
        &mut state,
        Event::WindowFocused {
            window_id: WindowId(1),
            display_id: DisplayId(1),
            bounds: Rect::new(0, 0, 100, 100),
        },
    );
    let revision_before = state.revision;

    apply(
        &mut state,
        Event::WindowBoundsObserved {
            window_id: WindowId(1),
            display_id: DisplayId(1),
            bounds: Rect::new(400, 300, 100, 100),
        },
    );

    let placement = state.windows.get(1).unwrap();
    assert_eq!(
        placement.observed_bounds,
        Rect::new(400, 300, 100, 100),
        "observed bounds must track where the window actually is"
    );
    assert_eq!(
        placement.bounds,
        Rect::new(0, 0, 100, 100),
        "the intended placement stays put -- comparing the two is how an \
         external move is detected"
    );
    assert!(
        state.revision > revision_before,
        "readers watching the revision must be able to notice the move"
    );
}

#[test]
fn apply_config_still_processes_while_paused() {
    let mut state = rig(EngineState {
        paused: true,
        ..Default::default()
    });
    let config_set = ResolvedConfigSet {
        base: ResolvedConfig::default(),
        profiles: vec![],
    };
    apply(&mut state, Event::ConfigChanged(config_set));
    assert!(state.paused);
}

#[test]
fn startup_reconciliation_registers_untracked_windows() {
    let mut state = rig(EngineState::default());
    apply(&mut state, topology_changed(vec![display(1, "MON-A", 0)]));
    let windows = vec![
        (WindowId(10), DisplayId(1), Rect::new(0, 0, 960, 1080)),
        (WindowId(20), DisplayId(1), Rect::new(960, 0, 960, 1080)),
    ];
    apply(&mut state, Event::StartupReconciliation { windows: observed_placements(windows) });

    assert!(
        state.windows.contains_key(10),
        "window 10 must be registered by reconciliation"
    );
    assert!(
        state.windows.contains_key(20),
        "window 20 must be registered by reconciliation"
    );
    assert_eq!(
        state.windows.get(10).unwrap().display_id,
        DisplayId(1)
    );
}

#[test]
fn startup_reconciliation_does_not_overwrite_already_tracked_windows() {
    let mut state = rig(EngineState::default());
    apply(&mut state, topology_changed(vec![display(1, "MON-A", 0)]));
    let focused_bounds = Rect::new(100, 100, 800, 600);
    apply(
        &mut state,
        Event::WindowFocused {
            window_id: WindowId(10),
            display_id: DisplayId(1),
            bounds: focused_bounds,
        },
    );
    apply(
        &mut state,
        Event::StartupReconciliation {
            windows: observed_placements(vec![(
                WindowId(10),
                DisplayId(1),
                Rect::new(0, 0, 960, 1080),
            )]),
        },
    );

    assert_eq!(
        state.windows.get(10).unwrap().bounds,
        focused_bounds,
        "an already-tracked window's placement must not be overwritten by reconciliation"
    );
}

#[test]
fn startup_reconciliation_with_empty_list_is_a_noop() {
    let mut state = rig(EngineState::default());
    apply(&mut state, Event::StartupReconciliation { windows: vec![] });
    assert_eq!(
        state.revision, 0,
        "empty reconciliation must not bump the revision"
    );
    assert!(state.windows.is_empty());
}

#[test]
fn topology_change_migrates_window_to_nearest_surviving_display() {
    let mut state = rig(EngineState::default());
    apply(
        &mut state,
        topology_changed(vec![display(1, "MON-A", 0), display(2, "MON-B", 1920)]),
    );
    apply(
        &mut state,
        Event::WindowPlaced {
            window_id: WindowId(1),
            display_id: DisplayId(1),
            bounds: Rect::new(0, 0, 960, 1080),
        },
    );
    apply(&mut state, topology_changed(vec![display(2, "MON-B", 1920)]));

    let placement = state.windows.get(1).unwrap();
    assert_eq!(
        placement.display_id,
        DisplayId(2),
        "window must be migrated to the surviving display"
    );
    assert!(
        placement.bounds.x >= 1920,
        "migrated bounds must be on display 2's x range"
    );
}

#[test]
fn topology_change_with_no_displays_does_not_migrate() {
    let mut state = rig(EngineState::default());
    apply(&mut state, topology_changed(vec![display(1, "MON-A", 0)]));
    apply(
        &mut state,
        Event::WindowPlaced {
            window_id: WindowId(1),
            display_id: DisplayId(1),
            bounds: Rect::new(0, 0, 960, 1080),
        },
    );
    let bounds_before = state.windows.get(1).unwrap().bounds;

    apply(&mut state, topology_changed(vec![]));

    assert_eq!(
        state.windows.get(1).unwrap().bounds,
        bounds_before,
        "with no surviving displays, window bounds must be left intact"
    );
}

#[test]
fn wake_reconciliation_updates_topology_and_registers_new_windows() {
    let mut state = rig(EngineState::default());
    apply(&mut state, topology_changed(vec![display(1, "MON-A", 0)]));
    apply(
        &mut state,
        Event::WindowPlaced {
            window_id: WindowId(1),
            display_id: DisplayId(1),
            bounds: Rect::new(0, 0, 960, 1080),
        },
    );

    let new_displays = vec![display(1, "MON-A", 0), display(2, "MON-B", 1920)];
    let mut first = observed_window(1, WindowRole::Normal, WindowLifecycle::Active);
    first.bounds = Rect::new(0, 0, 960, 1080);
    let mut second = observed_window(99, WindowRole::Normal, WindowLifecycle::Active);
    second.display_id = DisplayId(2);
    second.bounds = Rect::new(1920, 0, 960, 1080);
    let new_windows = vec![first, second];
    apply(
        &mut state,
        wake(new_displays, Some(new_windows)),
    );

    assert_eq!(
        state.displays.len(),
        2,
        "topology must include the new display"
    );
    assert!(
        state.windows.contains_key(99),
        "new window observed after wake must be registered"
    );
    assert_eq!(
        state.windows.get(1).unwrap().bounds,
        Rect::new(0, 0, 960, 1080)
    );
}

#[test]
fn placement_rejected_increments_rejection_count() {
    let mut state = rig(EngineState::default());
    apply(&mut state, topology_changed(vec![display(1, "MON-A", 0)]));
    apply(
        &mut state,
        Event::WindowPlaced {
            window_id: WindowId(1),
            display_id: DisplayId(1),
            bounds: Rect::new(0, 0, 960, 1080),
        },
    );
    apply(&mut state, Event::PlacementRejected { window_id: WindowId(1) });
    apply(&mut state, Event::PlacementRejected { window_id: WindowId(1) });

    assert_eq!(state.windows.get(1).unwrap().rejection_count, 2);
    assert!(
        !state.windows.get(1).unwrap().circuit_open(),
        "circuit must not open before threshold is reached"
    );
}

#[test]
fn accepted_placement_breaks_a_rejection_streak() {
    let mut state = rig(EngineState::default());
    state.windows.insert(
        1,
        WindowPlacement {
            display_id: DisplayId(1),
            bounds: Rect::new(0, 0, 100, 100),
            observed_bounds: Rect::new(0, 0, 100, 100),
            previous_placement: None,
            cycle_step: None,
            rejection_count: 2,
        },
    );

    apply(&mut state, Event::PlacementAccepted { window_id: WindowId(1) });

    assert_eq!(state.windows.get(1).unwrap().rejection_count, 0);
}

#[test]
fn circuit_breaker_opens_at_threshold_and_suppresses_placements() {
    let mut state = rig(EngineState::default());
    apply(&mut state, topology_changed(vec![display(1, "MON-A", 0)]));
    apply(
        &mut state,
        Event::WindowPlaced {
            window_id: WindowId(1),
            display_id: DisplayId(1),
            bounds: Rect::new(0, 0, 960, 1080),
        },
    );
    for _ in 0..CIRCUIT_BREAKER_THRESHOLD {
        apply(&mut state, Event::PlacementRejected { window_id: WindowId(1) });
    }

    assert!(
        state.windows.get(1).unwrap().circuit_open(),
        "circuit must be open after reaching the threshold"
    );

    let revision_before = state.revision;
    apply(
        &mut state,
        Event::WindowPlaced {
            window_id: WindowId(1),
            display_id: DisplayId(1),
            bounds: Rect::new(100, 100, 400, 300),
        },
    );
    assert_eq!(
        state.revision, revision_before,
        "placement must be suppressed while circuit is open"
    );
    assert_eq!(
        state.windows.get(1).unwrap().bounds,
        Rect::new(0, 0, 960, 1080),
        "window bounds must remain unchanged while circuit is open"
    );
}

#[test]
fn zone_snap_resets_circuit_breaker_and_places_the_window() {
    let mut state = rig(EngineState::default());
    apply(&mut state, topology_changed(vec![display(1, "MON-A", 0)]));
    apply(
        &mut state,
        Event::WindowPlaced {
            window_id: WindowId(1),
            display_id: DisplayId(1),
            bounds: Rect::new(0, 0, 960, 1080),
        },
    );
    apply(
        &mut state,
        Event::WindowFocused {
            window_id: WindowId(1),
            display_id: DisplayId(1),
            bounds: Rect::new(0, 0, 960, 1080),
        },
    );
    for _ in 0..CIRCUIT_BREAKER_THRESHOLD {
        apply(&mut state, Event::PlacementRejected { window_id: WindowId(1) });
    }
    assert!(state.windows.get(1).unwrap().circuit_open());

    apply(&mut state, Event::ZoneSnapRequested { direction: ZoneSnapDirection::Left });

    let placement = state.windows.get(1).unwrap();
    assert_eq!(
        placement.rejection_count, 0,
        "zone-snap must reset the rejection count to zero"
    );
    assert!(
        !placement.circuit_open(),
        "circuit must be closed after zone-snap"
    );
    assert_eq!(
        placement.bounds,
        Rect::new(0, 0, 960, 1080),
        "left-half snap on display 1"
    );
}

#[test]
fn circuit_breaker_count_reports_open_circuit_windows() {
    let mut state = rig(EngineState::default());
    apply(&mut state, topology_changed(vec![display(1, "MON-A", 0)]));
    for id in [1, 2, 3] {
        apply(
            &mut state,
            Event::WindowPlaced {
                window_id: WindowId(id),
                display_id: DisplayId(1),
                bounds: Rect::new(0, 0, 960, 1080),
            },
        );
    }
    assert_eq!(state.circuit_breaker_count(), 0);

    for _ in 0..CIRCUIT_BREAKER_THRESHOLD {
        apply(&mut state, Event::PlacementRejected { window_id: WindowId(1) });
        apply(&mut state, Event::PlacementRejected { window_id: WindowId(3) });
    }

    assert_eq!(
        state.circuit_breaker_count(),
        2,
        "two windows should have open circuits"
    );
}

#[test]
fn rearrange_resets_open_circuits_and_reflows_healthy_windows_once() {
    let mut state = rig(EngineState {
        displays: vec![display(1, "primary", 0)],
        automatic_tiling_active: true,
        ..EngineState::default()
    });
    apply(
        &mut state,
        Event::WindowsObserved {
            windows: vec![
                observed_window(1, WindowRole::Normal, WindowLifecycle::Active),
                observed_window(2, WindowRole::Normal, WindowLifecycle::Active),
            ],
        },
    );
    for _ in 0..CIRCUIT_BREAKER_THRESHOLD {
        apply(&mut state, Event::PlacementRejected { window_id: WindowId(1) });
    }
    state.effects.clear();

    apply(&mut state, Event::RearrangeRequested);

    assert_eq!(state.effects, vec![EngineEffect::ReconcileWindows]);
    state.effects.clear();
    apply(
        &mut state,
        Event::RearrangeReconciliationComplete {
            windows: vec![
                observed_window(1, WindowRole::Normal, WindowLifecycle::Active),
                observed_window(2, WindowRole::Normal, WindowLifecycle::Active),
            ],
        },
    );

    assert_eq!(state.circuit_breaker_count(), 0);
    assert_eq!(
        state.inventory.get(1).unwrap().eligibility,
        EligibilityReason::Eligible
    );
    assert_eq!(
        state.effects,
        vec![EngineEffect::PlaceWindow {
            window_id: WindowId(2),
            display_id: DisplayId(1),
            bounds: Rect::new(960, 0, 960, 1080),
        }],
        "one reflow should restore the healthy window's balanced cell"
    );
}

#[test]
fn automatic_tiling_suspension_preserves_manual_placement_and_clears_on_topology_change() {
    let mut state = rig(EngineState {
        displays: vec![display(1, "primary", 0)],
        resolved_config: ResolvedConfig {
            automatic_tiling_enabled: true,
            ..ResolvedConfig::default()
        },
        automatic_tiling_active: true,
        ..EngineState::default()
    });

    apply(&mut state, Event::ToggleAutomaticTilingRequested);
    assert!(state.automatic_tiling_suspended);
    assert!(!state.automatic_tiling_active);

    apply(
        &mut state,
        Event::WindowPlaced {
            window_id: WindowId(1),
            display_id: DisplayId(1),
            bounds: Rect::new(0, 0, 400, 300),
        },
    );
    assert!(state.windows.contains_key(1));

    state.config_set.base = state.resolved_config.clone();
    apply(&mut state, topology_changed(vec![display(2, "secondary", 1920)]));
    assert!(!state.automatic_tiling_suspended);
    assert!(state.automatic_tiling_active);
}

#[test]
fn zone_snap_session_floats_the_focused_window_and_reflows_the_remainder() {
    let mut state = rig(EngineState {
        displays: vec![display(1, "primary", 0)],
        automatic_tiling_active: true,
        ..EngineState::default()
    });
    apply(
        &mut state,
        Event::WindowsObserved {
            windows: vec![
                observed_window(1, WindowRole::Normal, WindowLifecycle::Active),
                observed_window(2, WindowRole::Normal, WindowLifecycle::Active),
            ],
        },
    );
    state.effects.clear();
    state.focused_window = Some(WindowId(1));

    apply(&mut state, Event::ZoneSnapRequested { direction: ZoneSnapDirection::Left });

    assert!(state.session_floating.contains(1));
    assert_eq!(
        state.inventory.get(1).unwrap().eligibility,
        EligibilityReason::SessionFloating
    );
    assert_eq!(
        state.windows.get(2).unwrap().bounds,
        Rect::new(0, 0, 1920, 1080)
    );
}

#[test]
fn directional_focus_emits_the_nearest_display_local_neighbor() {
    let mut state = rig(EngineState {
        displays: vec![display(1, "primary", 0), display(2, "secondary", 1920)],
        automatic_tiling_active: true,
        ..EngineState::default()
    });
    apply(
        &mut state,
        Event::WindowsObserved {
            windows: vec![
                observed_window(1, WindowRole::Normal, WindowLifecycle::Active),
                observed_window(2, WindowRole::Normal, WindowLifecycle::Active),
            ],
        },
    );
    state.focused_window = Some(WindowId(1));
    state.effects.clear();

    apply(
        &mut state,
        Event::DirectionalFocusRequested { direction: CardinalDirection::Right },
    );

    assert_eq!(
        state.effects,
        vec![EngineEffect::FocusWindow {
            window_id: WindowId(2)
        }]
    );
}

#[test]
fn directional_swap_exchanges_visual_order_and_reflows_changed_cells() {
    let mut state = rig(EngineState {
        displays: vec![display(1, "primary", 0)],
        automatic_tiling_active: true,
        ..EngineState::default()
    });
    apply(
        &mut state,
        Event::WindowsObserved {
            windows: vec![
                observed_window(1, WindowRole::Normal, WindowLifecycle::Active),
                observed_window(2, WindowRole::Normal, WindowLifecycle::Active),
            ],
        },
    );
    state.focused_window = Some(WindowId(1));
    state.effects.clear();

    apply(
        &mut state,
        Event::DirectionalSwapRequested { direction: CardinalDirection::Right },
    );

    assert_eq!(
        listed(&state.visual_window_order, 1),
        vec![WindowId(2), WindowId(1)]
    );
    assert_eq!(state.effects.len(), 2);
}

#[test]
fn interactive_placement_defers_its_display_until_session_end() {
    let mut state = rig(EngineState {
        displays: vec![display(1, "primary", 0)],
        automatic_tiling_active: true,
        ..EngineState::default()
    });
    apply(
        &mut state,
        Event::WindowsObserved {
            windows: vec![observed_window(1, WindowRole::Normal, WindowLifecycle::Active)],
        },
    );
    apply(&mut state, Event::InteractivePlacementStarted { window_id: WindowId(1) });
    state.effects.clear();
    let mut second = observed_window(2, WindowRole::Normal, WindowLifecycle::Active);
    second.bounds = Rect::new(100, 100, 800, 600);
    apply(
        &mut state,
        Event::WindowsObserved {
            windows: vec![
                observed_window(1, WindowRole::Normal, WindowLifecycle::Active),
                second,
            ],
        },
    );
    assert!(state.effects.is_empty());

    apply(
        &mut state,
        Event::InteractivePlacementEnded {
            window_id: WindowId(1),
            committed_manual_placement: false,
        },
    );

    assert_eq!(state.effects.len(), 2);
    assert!(state.interactive_placement.is_none());
}

#[test]
fn explicit_maximize_session_floats_until_the_user_toggles_it_back() {
    let mut state = rig(EngineState {
        displays: vec![display(1, "primary", 0)],
        automatic_tiling_active: true,
        ..EngineState::default()
    });
    let active = observed_window(1, WindowRole::Normal, WindowLifecycle::Active);
    apply(
        &mut state,
        Event::WindowsObserved {
            windows: vec![active.clone()],
        },
    );

    let mut maximized = active.clone();
    maximized.lifecycle = WindowLifecycle::Maximized;
    apply(
        &mut state,
        Event::WindowsObserved {
            windows: vec![maximized],
        },
    );
    assert!(state.session_floating.contains(1));
    assert_eq!(
        state.inventory.get(1).unwrap().eligibility,
        EligibilityReason::SessionFloating
    );

    apply(
        &mut state,
        Event::WindowsObserved {
            windows: vec![active],
        },
    );
    assert_eq!(
        state.inventory.get(1).unwrap().eligibility,
        EligibilityReason::SessionFloating,
        "restoring a maximized window must not silently return it to the grid"
    );
}

#[test]
fn authoritative_observation_removes_closed_windows_and_session_state() {
    let mut state = rig(EngineState {
        displays: vec![display(1, "primary", 0)],
        automatic_tiling_active: true,
        ..EngineState::default()
    });
    apply(
        &mut state,
        Event::WindowsObserved {
            windows: vec![observed_window(1, WindowRole::Normal, WindowLifecycle::Active)],
        },
    );
    state.focused_window = Some(WindowId(1));
    state.session_floating.insert(1);

    apply(
        &mut state,
        Event::WindowsObserved {
            windows: Vec::new(),
        },
    );

    assert!(!state.inventory.contains_key(1));
    assert!(!state.windows.contains_key(1));
    assert!(!state.session_floating.contains(1));
    assert_eq!(state.focused_window, None);
    assert!(listed(&state.visual_window_order, 1).is_empty());
}

#[test]
fn resuming_global_pause_reflows_the_current_active_set() {
    let mut state = rig(EngineState {
        displays: vec![display(1, "primary", 0)],
        automatic_tiling_active: true,
        paused: true,
        ..EngineState::default()
    });
    apply(
        &mut state,
        Event::WindowsObserved {
            windows: vec![observed_window(1, WindowRole::Normal, WindowLifecycle::Active)],
        },
    );
    assert!(state.effects.is_empty());

    apply(&mut state, Event::ResumeRequested);

    assert_eq!(
        state.effects,
        vec![EngineEffect::PlaceWindow {
            window_id: WindowId(1),
            display_id: DisplayId(1),
            bounds: Rect::new(0, 0, 1920, 1080),
        }]
    );
}

#[test]
fn diff_placements_excludes_open_circuit_windows() {
    let mut previous: Table<WindowPlacement> = Table::new();
    let open_circuit = WindowPlacement {
        display_id: DisplayId(1),
        bounds: Rect::new(0, 0, 100, 100),
        observed_bounds: Rect::new(0, 0, 100, 100),
        previous_placement: None,
        cycle_step: None,
        rejection_count: CIRCUIT_BREAKER_THRESHOLD,
    };
    let healthy = WindowPlacement {
        display_id: DisplayId(1),
        bounds: Rect::new(100, 100, 200, 200),
        observed_bounds: Rect::new(100, 100, 200, 200),
        previous_placement: None,
        cycle_step: None,
        rejection_count: 0,
    };
    previous.insert(1, open_circuit);
    previous.insert(2, healthy);

    let mut current = previous.clone();
    current.insert(1, WindowPlacement { bounds: Rect::new(50, 50, 100, 100), ..open_circuit });
    current.insert(2, WindowPlacement { bounds: Rect::new(200, 200, 200, 200), ..healthy });

    let diff = moves(&previous, &current);
    let ids: Vec<WindowId> = diff.iter().map(|(id, _, _)| *id).collect();

    assert!(
        !ids.contains(&WindowId(1)),
        "open-circuit window must not appear in the placement diff"
    );
    assert!(
        ids.contains(&WindowId(2)),
        "healthy window with changed bounds must appear in the diff"
    );
}

fn placements(state: &Rig) -> Vec<(WindowId, DisplayId, Rect)> {
    state
        .effects
        .iter()
        .filter_map(|effect| match effect {
            EngineEffect::PlaceWindow {
                window_id,
                display_id,
                bounds,
            } => Some((*window_id, *display_id, *bounds)),
            _ => None,
        })
        .collect()
}

#[test]
fn applying_a_saved_layout_places_the_displays_windows_into_its_cells() {
    let mut state =
        state_with_saved_layout("writing", &[(0.0, 0.0, 0.6, 1.0), (0.6, 0.0, 0.4, 1.0)]);
    apply(
        &mut state,
        Event::WindowsObserved {
            windows: vec![
                window_at(1, 1, Rect::new(0, 0, 400, 300)),
                window_at(2, 1, Rect::new(900, 0, 400, 300)),
            ],
        },
    );
    state.focused_window = Some(WindowId(1));
    state.effects.clear();

    apply(&mut state, Event::SavedLayoutApplyRequested { name: "writing".to_owned() });

    assert_eq!(
        placements(&state),
        vec![
            (WindowId(1), DisplayId(1), Rect::new(0, 0, 1152, 1080)),
            (WindowId(2), DisplayId(1), Rect::new(1152, 0, 768, 1080)),
        ]
    );
}

#[test]
fn a_saved_layout_fills_its_cells_in_visual_window_order() {
    let mut state =
        state_with_saved_layout("stack", &[(0.0, 0.0, 1.0, 0.5), (0.0, 0.5, 1.0, 0.5)]);
    apply(
        &mut state,
        Event::WindowsObserved {
            windows: vec![
                window_at(9, 1, Rect::new(0, 600, 400, 300)),
                window_at(4, 1, Rect::new(0, 100, 400, 300)),
            ],
        },
    );
    state.focused_window = Some(WindowId(9));
    state.effects.clear();

    apply(&mut state, Event::SavedLayoutApplyRequested { name: "stack".to_owned() });

    assert_eq!(
        placements(&state),
        vec![
            (WindowId(4), DisplayId(1), Rect::new(0, 0, 1920, 540)),
            (WindowId(9), DisplayId(1), Rect::new(0, 540, 1920, 540)),
        ]
    );
}

#[test]
fn a_saved_layout_targets_the_focused_windows_display_and_leaves_the_others_alone() {
    let mut state = state_with_saved_layout("half", &[(0.0, 0.0, 0.5, 1.0)]);
    state.displays.push(display(2, "secondary", 1920));
    apply(
        &mut state,
        Event::WindowsObserved {
            windows: vec![
                window_at(1, 1, Rect::new(0, 0, 400, 300)),
                window_at(2, 2, Rect::new(1920, 0, 400, 300)),
            ],
        },
    );
    state.focused_window = Some(WindowId(2));
    state.effects.clear();

    apply(&mut state, Event::SavedLayoutApplyRequested { name: "half".to_owned() });

    assert_eq!(
        placements(&state),
        vec![(WindowId(2), DisplayId(2), Rect::new(1920, 0, 960, 1080))],
        "only the focused window's display is rearranged"
    );
}

#[test]
fn applying_a_saved_layout_with_no_focused_display_is_rejected_and_places_nothing() {
    let mut state = state_with_saved_layout("half", &[(0.0, 0.0, 0.5, 1.0)]);
    apply(
        &mut state,
        Event::WindowsObserved {
            windows: vec![window_at(1, 1, Rect::new(0, 0, 400, 300))],
        },
    );
    state.effects.clear();
    let revision = state.revision;

    assert_eq!(
        layout_plan(&state, "half"),
        Err(SavedLayoutRejection::NoFocusedDisplay)
    );

    apply(&mut state, Event::SavedLayoutApplyRequested { name: "half".to_owned() });

    assert!(placements(&state).is_empty());
    assert_eq!(
        state.revision, revision,
        "a rejected command commits nothing"
    );
}

#[test]
fn unmanaged_focus_without_a_display_target_is_not_a_layout_target() {
    let mut state = state_with_saved_layout("half", &[(0.0, 0.0, 0.5, 1.0)]);
    apply(
        &mut state,
        Event::WindowsObserved {
            windows: vec![window_at(1, 1, Rect::new(0, 0, 400, 300))],
        },
    );
    state.focused_window = Some(WindowId(77));

    assert_eq!(
        layout_plan(&state, "half"),
        Err(SavedLayoutRejection::NoFocusedDisplay)
    );
}

#[test]
fn applying_an_unknown_saved_layout_is_rejected_naming_it() {
    let mut state = state_with_saved_layout("writing", &[(0.0, 0.0, 1.0, 1.0)]);
    apply(
        &mut state,
        Event::WindowsObserved {
            windows: vec![window_at(1, 1, Rect::new(0, 0, 400, 300))],
        },
    );
    state.focused_window = Some(WindowId(1));
    state.effects.clear();

    let rejection = layout_plan(&state, "wrtiing").unwrap_err();

    assert_eq!(
        rejection,
        SavedLayoutRejection::UnknownLayout {
            name: "wrtiing".to_owned()
        }
    );
    assert!(rejection.text().contains("wrtiing"));

    apply(&mut state, Event::SavedLayoutApplyRequested { name: "wrtiing".to_owned() });
    assert!(placements(&state).is_empty());
}

#[test]
fn a_saved_layout_with_more_windows_than_cells_places_only_what_fits() {
    let mut state = state_with_saved_layout("single", &[(0.0, 0.0, 1.0, 1.0)]);
    apply(
        &mut state,
        Event::WindowsObserved {
            windows: vec![
                window_at(1, 1, Rect::new(0, 0, 400, 300)),
                window_at(2, 1, Rect::new(0, 500, 400, 300)),
            ],
        },
    );
    state.focused_window = Some(WindowId(1));
    state.effects.clear();

    apply(&mut state, Event::SavedLayoutApplyRequested { name: "single".to_owned() });

    assert_eq!(
        placements(&state),
        vec![(WindowId(1), DisplayId(1), Rect::new(0, 0, 1920, 1080))]
    );
}

#[test]
fn a_saved_layout_with_more_cells_than_windows_leaves_the_surplus_empty() {
    let mut state = state_with_saved_layout(
        "three-up",
        &[
            (0.0, 0.0, 0.34, 1.0),
            (0.34, 0.0, 0.33, 1.0),
            (0.67, 0.0, 0.33, 1.0),
        ],
    );
    apply(
        &mut state,
        Event::WindowsObserved {
            windows: vec![window_at(1, 1, Rect::new(0, 0, 400, 300))],
        },
    );
    state.focused_window = Some(WindowId(1));
    state.effects.clear();

    apply(&mut state, Event::SavedLayoutApplyRequested { name: "three-up".to_owned() });

    assert_eq!(placements(&state).len(), 1);
}

#[test]
fn a_minimized_window_is_not_given_a_cell() {
    let mut state =
        state_with_saved_layout("pair", &[(0.0, 0.0, 0.5, 1.0), (0.5, 0.0, 0.5, 1.0)]);
    let mut minimized = window_at(2, 1, Rect::new(0, 500, 400, 300));
    minimized.lifecycle = WindowLifecycle::Minimized;
    apply(
        &mut state,
        Event::WindowsObserved {
            windows: vec![window_at(1, 1, Rect::new(0, 0, 400, 300)), minimized],
        },
    );
    state.focused_window = Some(WindowId(1));
    state.effects.clear();

    apply(&mut state, Event::SavedLayoutApplyRequested { name: "pair".to_owned() });

    assert_eq!(
        placements(&state),
        vec![(WindowId(1), DisplayId(1), Rect::new(0, 0, 960, 1080))]
    );
}

#[test]
fn applying_a_saved_layout_while_paused_is_rejected() {
    let mut state = state_with_saved_layout("half", &[(0.0, 0.0, 0.5, 1.0)]);
    apply(
        &mut state,
        Event::WindowsObserved {
            windows: vec![window_at(1, 1, Rect::new(0, 0, 400, 300))],
        },
    );
    state.focused_window = Some(WindowId(1));
    apply(&mut state, Event::PauseRequested);
    state.effects.clear();

    assert_eq!(
        layout_plan(&state, "half"),
        Err(SavedLayoutRejection::Paused)
    );

    apply(&mut state, Event::SavedLayoutApplyRequested { name: "half".to_owned() });
    assert!(placements(&state).is_empty());
}

fn state_with_saved_layout_and_gaps(
    name: &str,
    cells: &[(f64, f64, f64, f64)],
    gaps: Gaps,
) -> Rig {
    let mut state = state_with_saved_layout(name, cells);
    state.resolved_config.gaps = gaps;
    state
}

fn tiling_state_with_saved_layout(name: &str, cells: &[(f64, f64, f64, f64)]) -> Rig {
    let mut state = state_with_saved_layout(name, cells);
    state.resolved_config.automatic_tiling_enabled = true;
    state.automatic_tiling_active = true;
    state
}

#[test]
fn gaps_inset_a_restored_layouts_rectangles_the_same_way_they_inset_the_grid() {
    let mut state = state_with_saved_layout_and_gaps(
        "writing",
        &[(0.0, 0.0, 0.5, 1.0), (0.5, 0.0, 0.5, 1.0)],
        Gaps::new(10, 4),
    );
    apply(
        &mut state,
        Event::WindowsObserved {
            windows: vec![
                window_at(1, 1, Rect::new(0, 0, 400, 300)),
                window_at(2, 1, Rect::new(900, 0, 400, 300)),
            ],
        },
    );
    state.focused_window = Some(WindowId(1));
    state.effects.clear();

    apply(&mut state, Event::SavedLayoutApplyRequested { name: "writing".to_owned() });

    let work_area = state.displays[0].work_area;
    let expected: Vec<Rect> = plan_balanced_grid(work_area, 2)
        .into_iter()
        .map(|raw| apply_gaps(raw, work_area, Gaps::new(10, 4)))
        .collect();
    assert_eq!(
        placements(&state),
        vec![
            (WindowId(1), DisplayId(1), expected[0]),
            (WindowId(2), DisplayId(1), expected[1]),
        ]
    );
}

#[test]
fn applying_a_layout_under_automatic_tiling_session_floats_what_it_placed() {
    let mut state = tiling_state_with_saved_layout(
        "writing",
        &[(0.0, 0.0, 0.6, 1.0), (0.6, 0.0, 0.4, 1.0)],
    );
    apply(
        &mut state,
        Event::WindowsObserved {
            windows: vec![
                window_at(1, 1, Rect::new(0, 0, 400, 300)),
                window_at(2, 1, Rect::new(900, 0, 400, 300)),
            ],
        },
    );
    state.focused_window = Some(WindowId(1));
    state.effects.clear();

    apply(&mut state, Event::SavedLayoutApplyRequested { name: "writing".to_owned() });

    assert!(state.session_floating.contains(1));
    assert!(state.session_floating.contains(2));
    assert_eq!(
        state.inventory.get(1).unwrap().eligibility,
        EligibilityReason::SessionFloating
    );
    assert_eq!(
        placements(&state),
        vec![
            (WindowId(1), DisplayId(1), Rect::new(0, 0, 1152, 1080)),
            (WindowId(2), DisplayId(1), Rect::new(1152, 0, 768, 1080)),
        ],
        "the reflow that follows must not overwrite the cells just committed"
    );
}

#[test]
fn the_remaining_tiling_set_reflows_around_a_layout_in_one_pass() {
    let mut state = tiling_state_with_saved_layout("solo", &[(0.0, 0.0, 0.5, 1.0)]);
    apply(
        &mut state,
        Event::WindowsObserved {
            windows: vec![
                window_at(1, 1, Rect::new(0, 0, 400, 300)),
                window_at(2, 1, Rect::new(0, 400, 400, 300)),
                window_at(3, 1, Rect::new(0, 800, 400, 300)),
            ],
        },
    );
    state.focused_window = Some(WindowId(1));
    state.effects.clear();

    apply(&mut state, Event::SavedLayoutApplyRequested { name: "solo".to_owned() });

    let committed = placements(&state);
    assert_eq!(
        committed
            .iter()
            .filter(|(window_id, _, _)| *window_id == WindowId(2))
            .count(),
        1,
        "the reflow around the layout must be a single pass, got {committed:?}"
    );
    let grid = plan_balanced_grid(state.displays[0].work_area, 2);
    assert_eq!(
        state.windows.get(2).unwrap().bounds,
        grid[0],
        "the still-tiled windows reflow as a two-window grid"
    );
    assert_eq!(state.windows.get(3).unwrap().bounds, grid[1]);
    assert_eq!(
        state.windows.get(1).unwrap().bounds,
        Rect::new(0, 0, 960, 1080),
        "the window the layout placed keeps its cell"
    );
}

#[test]
fn toggle_floating_returns_a_layout_placed_window_to_the_tiling_set() {
    let mut state = tiling_state_with_saved_layout("solo", &[(0.0, 0.0, 0.5, 1.0)]);
    apply(
        &mut state,
        Event::WindowsObserved {
            windows: vec![
                window_at(1, 1, Rect::new(0, 0, 400, 300)),
                window_at(2, 1, Rect::new(0, 400, 400, 300)),
            ],
        },
    );
    state.focused_window = Some(WindowId(1));
    apply(&mut state, Event::SavedLayoutApplyRequested { name: "solo".to_owned() });
    assert!(state.session_floating.contains(1));
    state.effects.clear();

    apply(&mut state, Event::ToggleFloatingRequested);

    assert!(!state.session_floating.contains(1));
    assert_eq!(
        state.inventory.get(1).unwrap().eligibility,
        EligibilityReason::Eligible
    );
    let grid = plan_balanced_grid(state.displays[0].work_area, 2);
    assert_eq!(state.windows.get(1).unwrap().bounds, grid[0]);
    assert_eq!(state.windows.get(2).unwrap().bounds, grid[1]);
}

#[test]
fn applying_a_layout_with_tiling_off_floats_nothing() {
    let mut state = state_with_saved_layout("solo", &[(0.0, 0.0, 0.5, 1.0)]);
    apply(
        &mut state,
        Event::WindowsObserved {
            windows: vec![window_at(1, 1, Rect::new(0, 0, 400, 300))],
        },
    );
    state.focused_window = Some(WindowId(1));

    apply(&mut state, Event::SavedLayoutApplyRequested { name: "solo".to_owned() });

    assert!(
        state.session_floating.is_empty(),
        "with no grid to be pulled out of, there is nothing to float"
    );
}

#[test]
fn more_cells_than_windows_reports_nothing_unplaced_and_succeeds() {
    let mut state = state_with_saved_layout(
        "three-up",
        &[
            (0.0, 0.0, 0.34, 1.0),
            (0.34, 0.0, 0.33, 1.0),
            (0.67, 0.0, 0.33, 1.0),
        ],
    );
    apply(
        &mut state,
        Event::WindowsObserved {
            windows: vec![window_at(1, 1, Rect::new(0, 0, 400, 300))],
        },
    );
    state.focused_window = Some(WindowId(1));

    let plan =
        layout_plan(&state, "three-up").expect("a surplus of cells is not a failure");

    assert_eq!(plan.placements.len(), 1);
    assert_eq!(plan.unplaced, 0, "empty cells are not unplaced windows");
}

#[test]
fn more_windows_than_cells_reports_how_many_it_could_not_place() {
    let mut state = state_with_saved_layout("single", &[(0.0, 0.0, 1.0, 1.0)]);
    apply(
        &mut state,
        Event::WindowsObserved {
            windows: vec![
                window_at(1, 1, Rect::new(0, 0, 400, 300)),
                window_at(2, 1, Rect::new(0, 400, 400, 300)),
                window_at(3, 1, Rect::new(0, 800, 400, 300)),
            ],
        },
    );
    state.focused_window = Some(WindowId(1));
    state.effects.clear();

    let plan =
        layout_plan(&state, "single").expect("a surplus of windows is not a failure");
    assert_eq!(plan.placements.len(), 1);
    assert_eq!(plan.unplaced, 2);

    apply(&mut state, Event::SavedLayoutApplyRequested { name: "single".to_owned() });

    assert_eq!(placements(&state).len(), 1);
    assert_eq!(
        state.inventory.get(2).unwrap().window.bounds,
        Rect::new(0, 400, 400, 300)
    );
    assert_eq!(
        state.inventory.get(3).unwrap().window.bounds,
        Rect::new(0, 800, 400, 300)
    );
}

#[test]
fn an_open_circuit_breaker_suppresses_a_layout_placement_without_floating_the_window() {
    let mut state =
        tiling_state_with_saved_layout("pair", &[(0.0, 0.0, 0.5, 1.0), (0.5, 0.0, 0.5, 1.0)]);
    apply(
        &mut state,
        Event::WindowsObserved {
            windows: vec![
                window_at(1, 1, Rect::new(0, 0, 400, 300)),
                window_at(2, 1, Rect::new(0, 400, 400, 300)),
            ],
        },
    );
    state.focused_window = Some(WindowId(1));
    let placement = *state.windows.get(2).unwrap();
    state.windows.insert(
        2,
        WindowPlacement { rejection_count: CIRCUIT_BREAKER_THRESHOLD, ..placement },
    );
    state.effects.clear();

    apply(&mut state, Event::SavedLayoutApplyRequested { name: "pair".to_owned() });

    let committed = placements(&state);
    assert!(
        committed
            .iter()
            .all(|(window_id, _, _)| *window_id != WindowId(2)),
        "an open circuit still suppresses the placement, got {committed:?}"
    );
    assert!(
        !state.session_floating.contains(2),
        "a window that was never moved must not be pulled out of the tiling set"
    );
    assert!(state.session_floating.contains(1));
}

#[test]
fn a_saved_layout_is_rejected_when_the_focused_windows_display_has_gone() {
    let mut state = state_with_saved_layout("half", &[(0.0, 0.0, 0.5, 1.0)]);
    apply(
        &mut state,
        Event::WindowsObserved {
            windows: vec![window_at(1, 1, Rect::new(0, 0, 400, 300))],
        },
    );
    state.focused_window = Some(WindowId(1));
    state.displays.clear();

    assert_eq!(
        layout_plan(&state, "half"),
        Err(SavedLayoutRejection::DisplayUnavailable {
            display_id: DisplayId(1)
        })
    );
}

#[test]
fn hotkey_capture_start_suspends_registration_and_end_restores_it() {
    let mut state = rig(EngineState::default());

    apply(&mut state, Event::HotkeyCaptureStarted);
    assert!(state.hotkey_capture_suspended);
    assert_eq!(state.revision, 1);

    apply(&mut state, Event::HotkeyCaptureEnded);
    assert!(!state.hotkey_capture_suspended);
    assert_eq!(state.revision, 2);
}

#[test]
fn a_second_editor_does_not_re_suspend_what_is_already_suspended() {
    let mut state = rig(EngineState::default());
    apply(&mut state, Event::HotkeyCaptureStarted);

    apply(&mut state, Event::HotkeyCaptureStarted);

    assert!(state.hotkey_capture_suspended);
    assert_eq!(
        state.revision, 1,
        "a second editor window is not a second suspension"
    );
}

#[test]
fn suspension_lasts_until_the_editor_that_closes_last() {
    let mut state = rig(EngineState::default());
    apply(&mut state, Event::HotkeyCaptureStarted);
    apply(&mut state, Event::HotkeyCaptureStarted);

    apply(&mut state, Event::HotkeyCaptureEnded);

    assert!(
        state.hotkey_capture_suspended,
        "one editor closing must not re-register under another whose capture dialog is armed"
    );

    apply(&mut state, Event::HotkeyCaptureEnded);

    assert!(!state.hotkey_capture_suspended);
}

#[test]
fn a_stray_capture_end_cannot_drive_the_hold_count_below_zero() {
    let mut state = rig(EngineState::default());
    apply(&mut state, Event::HotkeyCaptureEnded);
    apply(&mut state, Event::HotkeyCaptureStarted);

    apply(&mut state, Event::HotkeyCaptureEnded);

    assert!(
        !state.hotkey_capture_suspended,
        "the one editor that opened has closed, so nothing holds suspension"
    );
}

#[test]
fn capture_end_without_a_capture_changes_nothing() {
    let mut state = rig(EngineState::default());

    apply(&mut state, Event::HotkeyCaptureEnded);

    assert!(!state.hotkey_capture_suspended);
    assert_eq!(state.revision, 0);
}

#[test]
fn a_config_reload_during_capture_leaves_registration_suspended() {
    let mut state = rig(EngineState::default());
    apply(&mut state, Event::HotkeyCaptureStarted);

    apply(&mut state, Event::ConfigChanged(ResolvedConfigSet::default()));

    assert!(
        state.hotkey_capture_suspended,
        "a configuration change must not lift the editor's suspension"
    );
}

#[test]
fn a_registration_pass_records_the_bindings_that_did_not_come_back() {
    let mut state = rig(EngineState::default());

    apply(
        &mut state,
        Event::HotkeyRegistrationReported {
            unregistered: vec!["snap-left".to_owned()],
        },
    );

    assert_eq!(state.unregistered_bindings, vec!["snap-left".to_owned()]);
    assert_eq!(state.revision, 1);
}

#[test]
fn opening_the_editor_keeps_the_previous_passs_failures_to_report() {
    let mut state = rig(EngineState::default());
    apply(
        &mut state,
        Event::HotkeyRegistrationReported {
            unregistered: vec!["snap-left".to_owned()],
        },
    );

    apply(&mut state, Event::HotkeyCaptureStarted);

    assert_eq!(
        state.unregistered_bindings,
        vec!["snap-left".to_owned()],
        "a binding that did not come back is only known after the editor that \
         caused it has closed, so the next editor to open is the only one that \
         can tell the user"
    );
}

#[test]
fn an_unchanged_registration_report_does_not_bump_the_revision() {
    let mut state = rig(EngineState::default());
    apply(
        &mut state,
        Event::HotkeyRegistrationReported {
            unregistered: vec!["snap-left".to_owned()],
        },
    );
    let revision = state.revision;

    apply(
        &mut state,
        Event::HotkeyRegistrationReported {
            unregistered: vec!["snap-left".to_owned()],
        },
    );

    assert_eq!(state.revision, revision);
}

#[test]
fn applying_a_layout_records_it_as_that_displays_current_arrangement() {
    let mut state = state_with_saved_layout("half", &[(0.0, 0.0, 0.5, 1.0)]);
    apply(
        &mut state,
        Event::WindowsObserved {
            windows: vec![window_at(1, 1, Rect::new(0, 0, 400, 300))],
        },
    );
    state.focused_window = Some(WindowId(1));

    apply(&mut state, Event::SavedLayoutApplyRequested { name: "half".to_owned() });

    assert_eq!(
        state.last_applied_layouts.get(1),
        Some(&"half".to_owned()),
        "machine-readable state has to say what a display is currently arranged as"
    );
}

#[test]
fn a_rejected_layout_apply_records_nothing() {
    let mut state = state_with_saved_layout("half", &[(0.0, 0.0, 0.5, 1.0)]);

    apply(&mut state, Event::SavedLayoutApplyRequested { name: "half".to_owned() });

    assert!(
        state.last_applied_layouts.is_empty(),
        "an apply that placed nothing must not claim a display is arranged as it"
    );
}

#[test]
fn a_display_that_leaves_the_topology_takes_its_recorded_layout_with_it() {
    let mut state = state_with_saved_layout("half", &[(0.0, 0.0, 0.5, 1.0)]);
    apply(
        &mut state,
        Event::WindowsObserved {
            windows: vec![window_at(1, 1, Rect::new(0, 0, 400, 300))],
        },
    );
    state.focused_window = Some(WindowId(1));
    apply(&mut state, Event::SavedLayoutApplyRequested { name: "half".to_owned() });
    assert!(!state.last_applied_layouts.is_empty());

    apply(&mut state, topology_changed(vec![display(2, "MON-B", 1920)]));

    assert!(
        state.last_applied_layouts.is_empty(),
        "a display nobody can see has no current arrangement to report"
    );
}

#[test]
fn focused_display_survives_desktop_focus_and_moves_when_its_display_disconnects() {
    let mut state = state_with_saved_layout("unused", &[]);
    apply(
        &mut state,
        topology_changed(vec![
            display(1, "left", -1920),
            display(2, "primary", 0),
        ]),
    );
    apply(
        &mut state,
        Event::WindowFocused {
            window_id: WindowId(10),
            display_id: DisplayId(1),
            bounds: Rect::new(-1800, 0, 800, 600),
        },
    );
    assert_eq!(state.focused_display, Some(DisplayId(1)));

    apply(&mut state, Event::DesktopFocused);
    assert_eq!(state.focused_window, None);
    assert_eq!(state.focused_display, Some(DisplayId(1)));

    apply(&mut state, topology_changed(vec![display(2, "primary", 0)]));
    assert_eq!(state.focused_display, Some(DisplayId(2)));
}
