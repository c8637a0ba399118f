//! Windows and displays as the adapter observes them, and what the engine
//! records about each managed window.

use vstd::prelude::*;

verus! {

use crate::geometry::{CycleStep, DisplayId, HorizontalDirection, Rect, Size, WindowId};
use crate::text::{copy_option, same_option, same_text, same_text_option};
use crate::table::{sorted, Table};

/// Number of consecutive placement rejections before a window's circuit
/// breaker opens and the engine stops trying to manage it. The breaker
/// resets on any explicit zone-snap command.
pub const CIRCUIT_BREAKER_THRESHOLD: u8 = 3;

/// The stable name of the application a window belongs to.
#[derive(Debug, PartialEq)]
pub struct ApplicationId(pub String);

#[derive(Debug, Clone, Copy, PartialEq, Eq, Structural)]
pub enum WindowRole {
    Normal,
    Dialog,
    Popup,
    Other,
}

#[derive(Debug, Clone, Copy, PartialEq, Eq, Structural)]
pub enum WindowLifecycle {
    Active,
    Minimized,
    Maximized,
    Fullscreen,
    Hidden,
    Cloaked,
}

/// What a window lets others do to it, and the adapter's conclusion whether
/// that is enough to arrange it.
#[derive(Debug, Clone, Copy, PartialEq, Eq, Structural)]
pub struct WindowCapabilities {
    pub can_move: bool,
    pub can_resize: bool,
    pub can_minimize: bool,
    pub can_maximize: bool,
    pub tileable: bool,
}

/// One normalized observation of a window.
#[derive(Debug, PartialEq)]
pub struct Window {
    pub id: WindowId,
    pub process_id: u32,
    pub application_id: ApplicationId,
    pub executable_path: Option<String>,
    pub title: String,
    pub native_class: Option<String>,
    pub role: WindowRole,
    pub bounds: Rect,
    pub display_id: DisplayId,
    pub capabilities: WindowCapabilities,
    pub elevated: bool,
    pub lifecycle: WindowLifecycle,
    pub minimum_size: Option<Size>,
}

/// Two observations that say the same thing.
pub open spec fn same_window(a: Window, b: Window) -> bool {
    &&& a.id == b.id
    &&& a.process_id == b.process_id
    &&& a.application_id.0@ == b.application_id.0@
    &&& same_option(a.executable_path, b.executable_path)
    &&& a.title@ == b.title@
    &&& same_option(a.native_class, b.native_class)
    &&& a.role == b.role
    &&& a.bounds == b.bounds
    &&& a.display_id == b.display_id
    &&& a.capabilities == b.capabilities
    &&& a.elevated == b.elevated
    &&& a.lifecycle == b.lifecycle
    &&& a.minimum_size == b.minimum_size
}

impl Window {
    pub fn same(&self, other: &Window) -> (same: bool)
        ensures
            same == same_window(*self, *other),
    {
        self.id == other.id && self.process_id == other.process_id && same_text(
            &self.application_id.0,
            &other.application_id.0,
        ) && same_text_option(&self.executable_path, &other.executable_path) && same_text(
            &self.title,
            &other.title,
        ) && same_text_option(&self.native_class, &other.native_class) && self.role == other.role
            && self.bounds == other.bounds && self.display_id == other.display_id
            && self.capabilities == other.capabilities && self.elevated == other.elevated
            && self.lifecycle == other.lifecycle && same_size(self.minimum_size, other.minimum_size)
    }
}

fn same_size(a: Option<Size>, b: Option<Size>) -> (same: bool)
    ensures
        same == (a == b),
{
    match (a, b) {
        (Some(x), Some(y)) => x == y,
        (None, None) => true,
        _ => false,
    }
}

#[derive(Debug, Clone, Copy, PartialEq, Eq, Structural)]
pub enum Rotation {
    Landscape,
    Portrait,
    LandscapeFlipped,
    PortraitFlipped,
}

/// One connected display.
#[derive(Debug, PartialEq)]
pub struct Display {
    pub id: DisplayId,
    /// What names this display in the next session.
    pub stable_fingerprint: String,
    pub full_bounds: Rect,
    pub work_area: Rect,
    /// The bit pattern of the display's scale factor.
    pub scale_factor_bits: u64,
    pub rotation: Rotation,
    pub is_primary: bool,
}

/// The exponent and fraction of a double-precision bit pattern: all of it but
/// the sign.
pub open spec fn magnitude(bits: u64) -> u64 {
    bits % 0x8000_0000_0000_0000
}

/// Whether a double-precision bit pattern is no number.
pub open spec fn is_nan(bits: u64) -> bool {
    magnitude(bits) > 0x7ff0_0000_0000_0000
}

/// Whether two double-precision bit patterns stand for equal numbers: zero has
/// two of them, and what is no number equals nothing, not even itself.
pub open spec fn same_number(a: u64, b: u64) -> bool {
    &&& !is_nan(a)
    &&& !is_nan(b)
    &&& (a == b || magnitude(a) == 0 && magnitude(b) == 0)
}

pub fn same_numbers(a: u64, b: u64) -> (same: bool)
    ensures
        same == same_number(a, b),
{
    let sign: u64 = 0x8000_0000_0000_0000;
    let limit: u64 = 0x7ff0_0000_0000_0000;
    a % sign <= limit && b % sign <= limit && (a == b || a % sign == 0 && b % sign == 0)
}

/// The same display as far as anything can tell.
pub open spec fn same_display(a: Display, b: Display) -> bool {
    &&& a.id == b.id
    &&& a.stable_fingerprint@ == b.stable_fingerprint@
    &&& a.full_bounds == b.full_bounds
    &&& a.work_area == b.work_area
    &&& same_number(a.scale_factor_bits, b.scale_factor_bits)
    &&& a.rotation == b.rotation
    &&& a.is_primary == b.is_primary
}

pub open spec fn same_displays(a: Seq<Display>, b: Seq<Display>) -> bool {
    a.len() == b.len() && forall|i: int| 0 <= i < a.len() ==> #[trigger] same_display(a[i], b[i])
}

/// Whether two enumerations list the same displays in the same order.
pub fn same_display_lists(a: &Vec<Display>, b: &Vec<Display>) -> (same: bool)
    ensures
        same == same_displays(a@, b@),
{
    if a.len() != b.len() {
        return false;
    }
    let mut i: usize = 0;
    while i < a.len()
        invariant
            i <= a@.len(),
            a@.len() == b@.len(),
            forall|j: int| 0 <= j < i ==> #[trigger] same_display(a@[j], b@[j]),
        decreases a@.len() - i,
    {
        let same = a[i].id == b[i].id && same_text(
            &a[i].stable_fingerprint,
            &b[i].stable_fingerprint,
        ) && a[i].full_bounds == b[i].full_bounds && a[i].work_area == b[i].work_area
            && same_numbers(a[i].scale_factor_bits, b[i].scale_factor_bits) && a[i].rotation
            == b[i].rotation && a[i].is_primary == b[i].is_primary;
        if !same {
            assert(!same_display(a@[i as int], b@[i as int]));
            return false;
        }
        i += 1;
    }
    true
}

/// One display written twice, to the last bit.
pub open spec fn identical_display(a: Display, b: Display) -> bool {
    &&& a.id == b.id
    &&& a.stable_fingerprint@ == b.stable_fingerprint@
    &&& a.full_bounds == b.full_bounds
    &&& a.work_area == b.work_area
    &&& a.scale_factor_bits == b.scale_factor_bits
    &&& a.rotation == b.rotation
    &&& a.is_primary == b.is_primary
}

pub open spec fn identical_displays(a: Seq<Display>, b: Seq<Display>) -> bool {
    a.len() == b.len() && forall|i: int|
        0 <= i < a.len() ==> #[trigger] identical_display(a[i], b[i])
}

/// Whether two enumerations are one and the same question.
pub fn identical_display_lists(a: &Vec<Display>, b: &Vec<Display>) -> (same: bool)
    ensures
        same == identical_displays(a@, b@),
{
    if a.len() != b.len() {
        return false;
    }
    let mut i: usize = 0;
    while i < a.len()
        invariant
            i <= a@.len(),
            a@.len() == b@.len(),
            forall|j: int| 0 <= j < i ==> #[trigger] identical_display(a@[j], b@[j]),
        decreases a@.len() - i,
    {
        let same = a[i].id == b[i].id && same_text(
            &a[i].stable_fingerprint,
            &b[i].stable_fingerprint,
        ) && a[i].full_bounds == b[i].full_bounds && a[i].work_area == b[i].work_area
            && a[i].scale_factor_bits == b[i].scale_factor_bits && a[i].rotation == b[i].rotation
            && a[i].is_primary == b[i].is_primary;
        if !same {
            assert(!identical_display(a@[i as int], b@[i as int]));
            return false;
        }
        i += 1;
    }
    true
}

/// What a rule says to do with a window.
#[derive(Debug, Clone, Copy, PartialEq, Eq, Structural)]
pub enum ManageAction {
    Tile,
    Float,
    Exclude,
}

/// Why an observed managed window currently can or cannot enter the active
/// tiling set. Holds neither titles nor executable paths.
#[derive(Debug, Clone, Copy, PartialEq, Eq, Structural)]
pub enum EligibilityReason {
    Eligible,
    FloatingRule,
    NotTileable,
    Elevated,
    Minimized,
    Maximized,
    Fullscreen,
    Hidden,
    Cloaked,
    CircuitOpen,
    SessionFloating,
}

/// The eligibility a window's own facts give it.
pub open spec fn eligibility(
    window: Window,
    action: ManageAction,
    circuit_open: bool,
) -> EligibilityReason {
    if action == ManageAction::Float {
        EligibilityReason::FloatingRule
    } else if !window.capabilities.tileable {
        EligibilityReason::NotTileable
    } else if window.elevated {
        EligibilityReason::Elevated
    } else if circuit_open {
        EligibilityReason::CircuitOpen
    } else {
        match window.lifecycle {
            WindowLifecycle::Active => EligibilityReason::Eligible,
            WindowLifecycle::Minimized => EligibilityReason::Minimized,
            WindowLifecycle::Maximized => EligibilityReason::Maximized,
            WindowLifecycle::Fullscreen => EligibilityReason::Fullscreen,
            WindowLifecycle::Hidden => EligibilityReason::Hidden,
            WindowLifecycle::Cloaked => EligibilityReason::Cloaked,
        }
    }
}

pub fn eligibility_for(window: &Window, action: ManageAction, circuit_open: bool) -> (reason:
    EligibilityReason)
    ensures
        reason == eligibility(*window, action, circuit_open),
{
    if action == ManageAction::Float {
        return EligibilityReason::FloatingRule;
    }
    if !window.capabilities.tileable {
        return EligibilityReason::NotTileable;
    }
    if window.elevated {
        return EligibilityReason::Elevated;
    }
    if circuit_open {
        return EligibilityReason::CircuitOpen;
    }
    match window.lifecycle {
        WindowLifecycle::Active => EligibilityReason::Eligible,
        WindowLifecycle::Minimized => EligibilityReason::Minimized,
        WindowLifecycle::Maximized => EligibilityReason::Maximized,
        WindowLifecycle::Fullscreen => EligibilityReason::Fullscreen,
        WindowLifecycle::Hidden => EligibilityReason::Hidden,
        WindowLifecycle::Cloaked => EligibilityReason::Cloaked,
    }
}

/// The engine-owned record for one observed window. Excluded windows are
/// deliberately absent from the inventory; tiled and floating ones stay
/// inspectable even when not currently eligible for a cell.
#[derive(Debug, PartialEq)]
pub struct ManagedWindow {
    pub window: Window,
    pub action: ManageAction,
    pub eligibility: EligibilityReason,
}

pub open spec fn same_managed(a: ManagedWindow, b: ManagedWindow) -> bool {
    same_window(a.window, b.window) && a.action == b.action && a.eligibility == b.eligibility
}

/// Two inventories that hold the same records.
pub open spec fn same_inventory(
    a: Map<isize, ManagedWindow>,
    b: Map<isize, ManagedWindow>,
) -> bool {
    a.dom() == b.dom() && forall|k: isize| #[trigger]
        a.contains_key(k) ==> same_managed(a[k], b[k])
}

pub fn same_inventories(a: &Table<ManagedWindow>, b: &Table<ManagedWindow>) -> (same: bool)
    ensures
        same == same_inventory(a@, b@),
{
    let ids = a.keys();
    let others = b.keys();
    if ids.len() != others.len() {
        proof {
            if a@.dom() == b@.dom() {
                assert(ids@ == others@);
            }
        }
        return false;
    }
    let mut i: usize = 0;
    while i < ids.len()
        invariant
            i <= ids@.len(),
            ids@.len() == others@.len(),
            ids@.to_set() == a@.dom(),
            others@.to_set() == b@.dom(),
            ids@ == sorted(a@.dom()),
            others@ == sorted(b@.dom()),
            forall|j: int| 0 <= j < i ==> ids@[j] == #[trigger] others@[j],
            forall|j: int|
                0 <= j < i ==> same_managed(#[trigger] a@[ids@[j]], b@[ids@[j]]),
        decreases ids@.len() - i,
    {
        let id = ids[i];
        assert(ids@.to_set().contains(id));
        if id != others[i] {
            proof {
                if a@.dom() == b@.dom() {
                    assert(ids@[i as int] == others@[i as int]);
                }
            }
            return false;
        }
        assert(others@.to_set().contains(id));
        match (a.get(id), b.get(id)) {
            (Some(left), Some(right)) => {
                if !(left.window.same(&right.window) && left.action == right.action
                    && left.eligibility == right.eligibility) {
                    assert(a@.contains_key(id));
                    return false;
                }
            },
            _ => {},
        }
        i += 1;
    }
    assert(ids@ =~= others@);
    assert forall|k: isize| #[trigger] a@.contains_key(k) implies same_managed(a@[k], b@[k]) by {
        assert(ids@.to_set().contains(k));
        let j = choose|j: int| 0 <= j < ids@.len() && ids@[j] == k;
        assert(same_managed(a@[ids@[j]], b@[ids@[j]]));
    }
    true
}

/// A tracked window's current bounds and display, plus the display and
/// bounds it had immediately before its most recent placement, if any.
///
/// Restore is a single remembered step, not a full undo stack, so
/// `previous_placement` holds at most one prior placement.
#[derive(Debug, Clone, Copy, PartialEq)]
pub struct WindowPlacement {
    pub display_id: DisplayId,
    /// The placement the engine last intended.
    pub bounds: Rect,
    /// Where the adapter last reported this window.
    pub observed_bounds: Rect,
    pub previous_placement: Option<(DisplayId, Rect)>,
    /// The horizontal zone command and step that produced this placement.
    pub cycle_step: Option<(HorizontalDirection, CycleStep)>,
    /// Consecutive placement rejections, for the circuit breaker.
    pub rejection_count: u8,
}

impl WindowPlacement {
    pub open spec fn breaker_open(self) -> bool {
        self.rejection_count >= CIRCUIT_BREAKER_THRESHOLD
    }

    /// Whether the circuit breaker has opened for this window: the engine
    /// issues no further automatic placements until the user resets it.
    pub fn circuit_open(&self) -> (open: bool)
        ensures
            open == self.breaker_open(),
    {
        self.rejection_count >= CIRCUIT_BREAKER_THRESHOLD
    }
}

/// A freshly tracked window: no history, no cycle, a closed breaker.
pub open spec fn first_placement(display_id: DisplayId, bounds: Rect) -> WindowPlacement {
    WindowPlacement {
        display_id,
        bounds,
        observed_bounds: bounds,
        previous_placement: None,
        cycle_step: None,
        rejection_count: 0,
    }
}

pub fn track(display_id: DisplayId, bounds: Rect) -> (placement: WindowPlacement)
    ensures
        placement == first_placement(display_id, bounds),
{
    WindowPlacement {
        display_id,
        bounds,
        observed_bounds: bounds,
        previous_placement: None,
        cycle_step: None,
        rejection_count: 0,
    }
}

/// What recognises a window in a later session. Never the title.
#[derive(Debug, PartialEq)]
pub struct WindowEvidence {
    pub application_id: ApplicationId,
    pub executable_path: Option<String>,
    pub native_class: Option<String>,
    pub role: WindowRole,
    pub launch_order: u32,
    pub last_placement: Rect,
    pub display_fingerprint: String,
}

pub open spec fn same_evidence(a: WindowEvidence, b: WindowEvidence) -> bool {
    &&& a.application_id.0@ == b.application_id.0@
    &&& same_option(a.executable_path, b.executable_path)
    &&& same_option(a.native_class, b.native_class)
    &&& a.role == b.role
    &&& a.launch_order == b.launch_order
    &&& a.last_placement == b.last_placement
    &&& a.display_fingerprint@ == b.display_fingerprint@
}

/// The evidence `window` leaves, as the `launch_order`th window of its
/// application, on the display called `fingerprint`.
pub open spec fn captured(window: Window, launch_order: u32, fingerprint: String) -> WindowEvidence {
    WindowEvidence {
        application_id: window.application_id,
        executable_path: window.executable_path,
        native_class: window.native_class,
        role: window.role,
        launch_order,
        last_placement: window.bounds,
        display_fingerprint: fingerprint,
    }
}

impl WindowEvidence {
    pub fn capture(window: &Window, launch_order: u32, fingerprint: &String) -> (evidence:
        WindowEvidence)
        ensures
            evidence == captured(*window, launch_order, *fingerprint),
    {
        WindowEvidence {
            application_id: ApplicationId(window.application_id.0.clone()),
            executable_path: copy_option(&window.executable_path),
            native_class: copy_option(&window.native_class),
            role: window.role,
            launch_order,
            last_placement: window.bounds,
            display_fingerprint: fingerprint.clone(),
        }
    }


    pub fn same(&self, other: &WindowEvidence) -> (same: bool)
        ensures
            same == same_evidence(*self, *other),
    {
        same_text(&self.application_id.0, &other.application_id.0) && same_text_option(
            &self.executable_path,
            &other.executable_path,
        ) && same_text_option(&self.native_class, &other.native_class) && self.role == other.role
            && self.launch_order == other.launch_order && self.last_placement
            == other.last_placement && same_text(
            &self.display_fingerprint,
            &other.display_fingerprint,
        )
    }
}

impl Clone for Window {
    fn clone(&self) -> (copy: Window)
        ensures
            copy == *self,
    {
        Window {
            id: self.id,
            process_id: self.process_id,
            application_id: ApplicationId(self.application_id.0.clone()),
            executable_path: copy_option(&self.executable_path),
            title: self.title.clone(),
            native_class: copy_option(&self.native_class),
            role: self.role,
            bounds: self.bounds,
            display_id: self.display_id,
            capabilities: self.capabilities,
            elevated: self.elevated,
            lifecycle: self.lifecycle,
            minimum_size: self.minimum_size,
        }
    }
}

impl Clone for WindowEvidence {
    fn clone(&self) -> (copy: WindowEvidence)
        ensures
            copy == *self,
    {
        WindowEvidence {
            application_id: ApplicationId(self.application_id.0.clone()),
            executable_path: copy_option(&self.executable_path),
            native_class: copy_option(&self.native_class),
            role: self.role,
            launch_order: self.launch_order,
            last_placement: self.last_placement,
            display_fingerprint: self.display_fingerprint.clone(),
        }
    }
}

impl Clone for Display {
    fn clone(&self) -> (copy: Display)
        ensures
            copy == *self,
    {
        Display {
            id: self.id,
            stable_fingerprint: self.stable_fingerprint.clone(),
            full_bounds: self.full_bounds,
            work_area: self.work_area,
            scale_factor_bits: self.scale_factor_bits,
            rotation: self.rotation,
            is_primary: self.is_primary,
        }
    }
}

impl Clone for ManagedWindow {
    fn clone(&self) -> (copy: ManagedWindow)
        ensures
            copy == *self,
    {
        ManagedWindow {
            window: self.window.clone(),
            action: self.action,
            eligibility: self.eligibility,
        }
    }
}

impl Clone for ApplicationId {
    fn clone(&self) -> (copy: ApplicationId)
        ensures
            copy == *self,
    {
        ApplicationId(self.0.clone())
    }
}

} // verus!
