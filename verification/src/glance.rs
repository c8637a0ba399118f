//! What a reader of the state sees of one batch of observations.
//!
//! Most batches repeat what is known. Whether one changed anything a reader
//! could notice decides whether the state was revised.

use vstd::prelude::*;

verus! {

use crate::geometry::WindowId;
use crate::outcome::ParkingRefusal;
use crate::state::{EngineState, Model};
use crate::table::sorted;
use crate::text::same_text;
use crate::workspace::Pool;

#[verifier::ext_equal]
pub ghost struct Seen {
    pub floating: Set<isize>,
    pub tiled: Set<isize>,
    pub focused: Option<WindowId>,
    pub windows: Set<isize>,
    pub members: Set<isize>,
    pub attention: Seq<Option<WindowId>>,
    pub refusals: nat,
    pub parked: Set<isize>,
    pub intents: nat,
    pub effects: nat,
}

/// The windows and the lengths by which two states can be told apart after a
/// batch that left the inventory as it was.
pub(crate) struct Glance {
    floating: Vec<isize>,
    tiled: Vec<isize>,
    focused: Option<WindowId>,
    windows: Vec<isize>,
    members: Vec<isize>,
    attention: Vec<Option<WindowId>>,
    refusals: usize,
    parked: Vec<isize>,
    intents: usize,
    effects: usize,
    refusal: Option<ParkingRefusal>,
}

pub open spec fn same_refusal(a: Option<ParkingRefusal>, b: Option<ParkingRefusal>) -> bool {
    match (a, b) {
        (
            Some(ParkingRefusal::ParkingRefused { reason: x }),
            Some(ParkingRefusal::ParkingRefused { reason: y }),
        ) => x@ == y@,
        _ => a == b,
    }
}

fn same_refusals(a: &Option<ParkingRefusal>, b: &Option<ParkingRefusal>) -> (same: bool)
    ensures
        same == same_refusal(*a, *b),
{
    match (a, b) {
        (None, None) => true,
        (Some(a), Some(b)) => match (a, b) {
            (
                ParkingRefusal::NotManaged { window_id: x },
                ParkingRefusal::NotManaged { window_id: y },
            ) => *x == *y,
            (ParkingRefusal::PersistenceDegraded, ParkingRefusal::PersistenceDegraded) => true,
            (
                ParkingRefusal::ParkingCapabilityUnverified,
                ParkingRefusal::ParkingCapabilityUnverified,
            ) => true,
            (
                ParkingRefusal::ParkingRefused { reason: x },
                ParkingRefusal::ParkingRefused { reason: y },
            ) => same_text(x, y),
            (
                ParkingRefusal::Fullscreen { window_id: x },
                ParkingRefusal::Fullscreen { window_id: y },
            ) => *x == *y,
            (
                ParkingRefusal::Minimized { window_id: x },
                ParkingRefusal::Minimized { window_id: y },
            ) => *x == *y,
            (
                ParkingRefusal::AlreadyPending { window_id: x },
                ParkingRefusal::AlreadyPending { window_id: y },
            ) => *x == *y,
            (
                ParkingRefusal::UnknownDisplay { window_id: x },
                ParkingRefusal::UnknownDisplay { window_id: y },
            ) => *x == *y,
            _ => false,
        },
        _ => false,
    }
}

/// Which member of each workspace last had focus.
pub open spec fn attention(pool: Pool) -> Seq<Option<WindowId>> {
    Seq::new(pool.list.len(), |i: int| pool.list[i].last_focused)
}

impl Model {
    pub open spec fn at_a_glance(self) -> Seen {
        Seen {
            floating: self.session_floating,
            tiled: self.session_tiled,
            focused: self.focused_window,
            windows: self.windows.dom(),
            members: self.workspaces.members.dom(),
            attention: attention(self.workspaces),
            refusals: self.rule_workspace_refusals.len(),
            parked: self.parked_windows.dom(),
            intents: self.intents.len(),
            effects: self.effects.len(),
        }
    }

    /// Whether `next` looks different, the inventory aside.
    pub open spec fn stirred(self, next: Model) -> bool {
        !(self.at_a_glance() =~= next.at_a_glance()) || !same_refusal(
            self.last_parking_refusal,
            next.last_parking_refusal,
        )
    }
}

/// What `glance` holds of `model`.
pub(crate) closed spec fn holds_glance(glance: Glance, model: Model) -> bool {
    &&& glance.floating@ == sorted(model.session_floating)
    &&& glance.floating@.to_set() == model.session_floating
    &&& glance.tiled@ == sorted(model.session_tiled)
    &&& glance.tiled@.to_set() == model.session_tiled
    &&& glance.focused == model.focused_window
    &&& glance.windows@ == sorted(model.windows.dom())
    &&& glance.windows@.to_set() == model.windows.dom()
    &&& glance.members@ == sorted(model.workspaces.members.dom())
    &&& glance.members@.to_set() == model.workspaces.members.dom()
    &&& glance.attention@ == attention(model.workspaces)
    &&& glance.refusals == model.rule_workspace_refusals.len()
    &&& glance.parked@ == sorted(model.parked_windows.dom())
    &&& glance.parked@.to_set() == model.parked_windows.dom()
    &&& glance.intents == model.intents.len()
    &&& glance.effects == model.effects.len()
    &&& glance.refusal == model.last_parking_refusal
}

fn same_ids(a: &Vec<isize>, b: &Vec<isize>) -> (same: bool)
    ensures
        same == (a@ == b@),
{
    if a.len() != b.len() {
        return false;
    }
    let mut i: usize = 0;
    while i < a.len()
        invariant
            i <= a@.len(),
            a@.len() == b@.len(),
            forall|j: int| 0 <= j < i ==> a@[j] == b@[j],
        decreases a@.len() - i,
    {
        if a[i] != b[i] {
            return false;
        }
        i += 1;
    }
    assert(a@ =~= b@);
    true
}

fn same_attention(a: &Vec<Option<WindowId>>, b: &Vec<Option<WindowId>>) -> (same: bool)
    ensures
        same == (a@ == b@),
{
    if a.len() != b.len() {
        return false;
    }
    let mut i: usize = 0;
    while i < a.len()
        invariant
            i <= a@.len(),
            a@.len() == b@.len(),
            forall|j: int| 0 <= j < i ==> a@[j] == b@[j],
        decreases a@.len() - i,
    {
        if a[i] != b[i] {
            return false;
        }
        i += 1;
    }
    assert(a@ =~= b@);
    true
}

impl EngineState {
    pub(crate) fn glance(&self) -> (glance: Glance)
        ensures
            holds_glance(glance, self@),
    {
        let mut attention: Vec<Option<WindowId>> = Vec::new();
        let mut i: usize = 0;
        while i < self.workspaces.len()
            invariant
                i <= self@.workspaces.list.len(),
                attention@ == self::attention(self@.workspaces).take(i as int),
            decreases self@.workspaces.list.len() - i,
        {
            attention.push(self.workspaces.at(i).last_focused);
            i += 1;
        }
        assert(attention@ =~= self::attention(self@.workspaces));
        Glance {
            floating: self.session_floating.members(),
            tiled: self.session_tiled.members(),
            focused: self.focused_window,
            windows: self.windows.keys(),
            members: self.workspaces.member_ids(),
            attention,
            refusals: self.rule_workspace_refusals.len(),
            parked: self.parked_windows.keys(),
            intents: self.persistence_intents.len(),
            effects: self.effects.len(),
            refusal: self.last_parking_refusal.clone(),
        }
    }

    /// Whether the state looks different from the one `before` was taken of.
    pub(crate) fn differs_from_glance(&self, before: &Glance, earlier: Ghost<Model>) -> (differs: bool)
        requires
            holds_glance(*before, earlier@),
        ensures
            differs == earlier@.stirred(self@),
    {
        let now = self.glance();
        let same = same_ids(&before.floating, &now.floating) && same_ids(
            &before.tiled,
            &now.tiled,
        ) && before.focused == now.focused && same_ids(&before.windows, &now.windows) && same_ids(
            &before.members,
            &now.members,
        ) && same_attention(&before.attention, &now.attention) && before.refusals == now.refusals
            && same_ids(&before.parked, &now.parked) && before.intents == now.intents
            && before.effects == now.effects;
        assert(same == (earlier@.at_a_glance() =~= self@.at_a_glance()));
        !same || !same_refusals(&before.refusal, &now.refusal)
    }
}

} // verus!
