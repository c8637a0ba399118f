//! Looking displays up.

use vstd::prelude::*;

verus! {

use crate::geometry::{DisplayId, Rect};
use crate::table::IdSet;
use crate::text::{first_index, lemma_first_hit, lemma_first_index, same_text};
use crate::window::Display;

pub open spec fn display_is(displays: Seq<Display>, id: DisplayId) -> spec_fn(int) -> bool {
    |i: int| displays[i].id == id
}

/// Where the display with `id` stands in the enumeration.
pub open spec fn display_at(displays: Seq<Display>, id: DisplayId) -> Option<int> {
    first_index(displays.len(), display_is(displays, id))
}

pub open spec fn connected(displays: Seq<Display>, id: DisplayId) -> bool {
    display_at(displays, id) is Some
}

pub open spec fn work_area(displays: Seq<Display>, id: DisplayId) -> Option<Rect> {
    match display_at(displays, id) {
        Some(i) => Some(displays[i].work_area),
        None => None,
    }
}

pub open spec fn fingerprint_of(displays: Seq<Display>, id: DisplayId) -> Option<String> {
    match display_at(displays, id) {
        Some(i) => Some(displays[i].stable_fingerprint),
        None => None,
    }
}

pub open spec fn display_called(displays: Seq<Display>, fingerprint: Seq<char>) -> spec_fn(
    int,
) -> bool {
    |i: int| displays[i].stable_fingerprint@ == fingerprint
}

/// The display a fingerprint names.
pub open spec fn id_of(displays: Seq<Display>, fingerprint: Seq<char>) -> Option<DisplayId> {
    match first_index(displays.len(), display_called(displays, fingerprint)) {
        Some(i) => Some(displays[i].id),
        None => None,
    }
}

/// The handles of every display.
pub open spec fn display_ids(displays: Seq<Display>) -> Set<isize> {
    Set::new(|id: isize| connected(displays, DisplayId(id)))
}

pub fn find_display(displays: &Vec<Display>, id: DisplayId) -> (at: Option<usize>)
    ensures
        match at {
            Some(i) => display_at(displays@, id) == Some(i as int) && i < displays@.len(),
            None => display_at(displays@, id) is None,
        },
{
    let mut i: usize = 0;
    while i < displays.len()
        invariant
            i <= displays@.len(),
            first_index(i as nat, display_is(displays@, id)) is None,
        decreases displays@.len() - i,
    {
        if displays[i].id == id {
            proof {
                assert(display_is(displays@, id)(i as int));
                lemma_first_hit(displays@.len(), display_is(displays@, id), i as int);
            }
            return Some(i);
        }
        assert(!display_is(displays@, id)(i as int));
        i += 1;
    }
    None
}

pub fn is_connected(displays: &Vec<Display>, id: DisplayId) -> (present: bool)
    ensures
        present == connected(displays@, id),
{
    find_display(displays, id).is_some()
}

/// The work area of the display with `id`, if it is still connected.
pub fn work_area_of(displays: &Vec<Display>, id: DisplayId) -> (area: Option<Rect>)
    ensures
        area == work_area(displays@, id),
{
    match find_display(displays, id) {
        Some(i) => Some(displays[i].work_area),
        None => None,
    }
}

pub fn display_fingerprint_of(displays: &Vec<Display>, id: DisplayId) -> (fingerprint: Option<
    String,
>)
    ensures
        fingerprint == fingerprint_of(displays@, id),
{
    match find_display(displays, id) {
        Some(i) => Some(displays[i].stable_fingerprint.clone()),
        None => None,
    }
}

pub fn display_id_of(displays: &Vec<Display>, fingerprint: &String) -> (id: Option<DisplayId>)
    ensures
        id == id_of(displays@, fingerprint@),
{
    let mut i: usize = 0;
    while i < displays.len()
        invariant
            i <= displays@.len(),
            first_index(i as nat, display_called(displays@, fingerprint@)) is None,
        decreases displays@.len() - i,
    {
        if same_text(&displays[i].stable_fingerprint, fingerprint) {
            proof {
                assert(display_called(displays@, fingerprint@)(i as int));
                lemma_first_hit(displays@.len(), display_called(displays@, fingerprint@), i as int);
            }
            return Some(displays[i].id);
        }
        assert(!display_called(displays@, fingerprint@)(i as int));
        i += 1;
    }
    None
}

pub fn collect_display_ids(displays: &Vec<Display>) -> (ids: IdSet)
    ensures
        ids@ == display_ids(displays@),
{
    let mut ids = IdSet::new();
    let mut i: usize = 0;
    while i < displays.len()
        invariant
            i <= displays@.len(),
            forall|id: isize| #[trigger]
                ids@.contains(id) == (exists|j: int| 0 <= j < i && #[trigger] displays@[j].id.0 == id),
        decreases displays@.len() - i,
    {
        ids.insert(displays[i].id.0);
        i += 1;
    }
    proof {
        assert forall|id: isize| #[trigger] ids@.contains(id) == display_ids(displays@).contains(
            id,
        ) by {
            let p = display_is(displays@, DisplayId(id));
            lemma_first_index(displays@.len(), p);
            if ids@.contains(id) {
                let j = choose|j: int| 0 <= j < displays@.len() && #[trigger] displays@[j].id.0 == id;
                assert(displays@[j].id == DisplayId(id));
                assert(p(j));
            }
            match first_index(displays@.len(), p) {
                Some(j) => {
                    assert(displays@[j].id.0 == id);
                },
                None => {},
            }
        }
        assert(ids@ =~= display_ids(displays@));
    }
    ids
}

} // verus!
