//! What a profile's switching mapping does, said of the displays' fingerprints
//! and the workspaces' names.

use vstd::prelude::*;

verus! {

use crate::config::DisplayMapping;
use crate::geometry::DisplayId;
use crate::laws::assignment::law_a_complete_mapping_is_shown;
use crate::laws::belonging::{fingerprinted, lemma_fingerprinted, lemma_spelled, spelled_at};
use crate::laws::reflow::handles_distinct;
use crate::outcome::WorkspaceSwitchingUnavailable;
use crate::state::Model;
use crate::text::{first_index, lemma_first_index};
use crate::topology::id_of;

/// No two entries speak of one display or of one workspace.
pub open spec fn entries_distinct(entries: Seq<DisplayMapping>) -> bool {
    forall|i: int, j: int|
        0 <= i < j < entries.len() ==> (#[trigger] entries[i]).display_fingerprint@ != (
        #[trigger] entries[j]).display_fingerprint@ && entries[i].workspace.key@
            != entries[j].workspace.key@
}

/// Entry `k` puts workspace `w` on the display called `d`.
pub open spec fn puts(m: Model, entry: DisplayMapping, d: isize, w: int) -> bool {
    &&& id_of(m.displays, entry.display_fingerprint@) == Some(DisplayId(d))
    &&& spelled_at(m.workspaces, entry.workspace.key@, w)
}

/// Entry `k` names a workspace that is not there.
pub open spec fn names_nothing(m: Model, entry: DisplayMapping, name: String) -> bool {
    entry.workspace.text == name && forall|w: int|
        !#[trigger] spelled_at(m.workspaces, entry.workspace.key@, w)
}

/// Some display has the workspace an entry names.
pub open spec fn obeys(m: Model, entry: DisplayMapping, target: Map<isize, int>) -> bool {
    exists|d: isize| target.contains_key(d) && #[trigger] puts(m, entry, d, target[d])
}

proof fn lemma_one_display(m: Model, x: Seq<char>, y: Seq<char>)
    requires
        handles_distinct(m.displays),
        x != y,
        id_of(m.displays, x) is Some,
        id_of(m.displays, y) is Some,
    ensures
        id_of(m.displays, x) != id_of(m.displays, y),
{
    lemma_fingerprinted(m.displays, x, 0);
    lemma_fingerprinted(m.displays, y, 0);
    let i = choose|i: int| #[trigger] fingerprinted(m.displays, x, i);
    let j = choose|j: int| #[trigger] fingerprinted(m.displays, y, j);
    lemma_fingerprinted(m.displays, x, i);
    lemma_fingerprinted(m.displays, y, j);
    if i < j {
        assert(m.displays[i].id != m.displays[j].id);
    } else if j < i {
        assert(m.displays[j].id != m.displays[i].id);
    }
}

proof fn lemma_resolved_entries(
    m: Model,
    entries: Seq<DisplayMapping>,
    i: int,
    done: Map<isize, int>,
)
    requires
        0 <= i <= entries.len(),
        entries_distinct(entries),
        handles_distinct(m.displays),
        forall|k: int|
            #![trigger entries[k]]
            0 <= k < i ==> obeys(m, entries[k], done),
        forall|d: isize| #[trigger]
            done.contains_key(d) ==> exists|k: int|
                #![trigger entries[k]]
                0 <= k < i && puts(m, entries[k], d, done[d]),
    ensures
        match m.mapping_resolved(entries, i, done) {
            Ok(target) => {
                &&& forall|k: int|
                    #![trigger entries[k]]
                    0 <= k < entries.len() ==> obeys(m, entries[k], target)
                &&& forall|d: isize| #[trigger]
                    target.contains_key(d) ==> exists|k: int|
                        #![trigger entries[k]]
                        0 <= k < entries.len() && puts(m, entries[k], d, target[d])
            },
            Err(WorkspaceSwitchingUnavailable::DisplayNotConnected { display_fingerprint }) => {
                &&& exists|k: int|
                    i <= k < entries.len() && (#[trigger] entries[k]).display_fingerprint
                        == display_fingerprint
                &&& forall|k: int|
                    0 <= k < m.displays.len() ==> (
                    #[trigger] m.displays[k]).stable_fingerprint@ != display_fingerprint@
            },
            Err(WorkspaceSwitchingUnavailable::UnknownWorkspace { name }) => exists|k: int|
                i <= k < entries.len() && names_nothing(m, #[trigger] entries[k], name),
            Err(_) => false,
        },
    decreases entries.len() - i,
{
    if i < entries.len() {
        let entry = entries[i];
        lemma_fingerprinted(m.displays, entry.display_fingerprint@, 0);
        match id_of(m.displays, entry.display_fingerprint@) {
            None => {
                assert(entries[i].display_fingerprint == entry.display_fingerprint);
            },
            Some(display_id) => {
                let found = m.workspaces.find(entry.workspace);
                lemma_spelled(m.workspaces, entry.workspace, found->0);
                match found {
                    None => {
                        assert forall|w: int| !#[trigger] spelled_at(
                            m.workspaces,
                            entry.workspace.key@,
                            w,
                        ) by {
                            lemma_spelled(m.workspaces, entry.workspace, w);
                        }
                        assert(names_nothing(m, entries[i], entry.workspace.text));
                    },
                    Some(at) => {
                        let more = done.insert(display_id.0, at);
                        assert(puts(m, entries[i], display_id.0, at));
                        assert forall|k: int|
                            #![trigger entries[k]]
                            0 <= k < i + 1 implies obeys(m, entries[k], more) by {
                            if k < i {
                                let d = choose|d: isize|
                                    done.contains_key(d) && #[trigger] puts(
                                        m,
                                        entries[k],
                                        d,
                                        done[d],
                                    );
                                assert(entries[k].display_fingerprint@
                                    != entries[i].display_fingerprint@);
                                lemma_one_display(
                                    m,
                                    entries[k].display_fingerprint@,
                                    entries[i].display_fingerprint@,
                                );
                                assert(more.contains_key(d) && puts(m, entries[k], d, more[d]));
                            } else {
                                assert(more.contains_key(display_id.0) && puts(
                                    m,
                                    entries[k],
                                    display_id.0,
                                    more[display_id.0],
                                ));
                            }
                        }
                        assert forall|d: isize| #[trigger] more.contains_key(d) implies exists|
                            k: int,
                        |
                            #![trigger entries[k]]
                            0 <= k < i + 1 && puts(m, entries[k], d, more[d]) by {
                            if d == display_id.0 {
                                assert(entries[i] == entry);
                            } else {
                                assert(done.contains_key(d));
                                let k = choose|k: int|
                                    #![trigger entries[k]]
                                    0 <= k < i && puts(m, entries[k], d, done[d]);
                                assert(entries[k] == entries[k]);
                            }
                        }
                        lemma_resolved_entries(m, entries, i + 1, more);
                        match m.mapping_resolved(entries, i + 1, more) {
                            Ok(_) => {},
                            Err(
                                WorkspaceSwitchingUnavailable::DisplayNotConnected {
                                    display_fingerprint,
                                },
                            ) => {
                                let k = choose|k: int|
                                    i + 1 <= k < entries.len() && (
                                    #[trigger] entries[k]).display_fingerprint
                                        == display_fingerprint;
                                assert(entries[k].display_fingerprint == display_fingerprint);
                            },
                            Err(WorkspaceSwitchingUnavailable::UnknownWorkspace { name }) => {
                                let k = choose|k: int|
                                    i + 1 <= k < entries.len() && names_nothing(
                                        m,
                                        #[trigger] entries[k],
                                        name,
                                    );
                                assert(names_nothing(m, entries[k], name));
                            },
                            Err(_) => {},
                        }
                    },
                }
            },
        }
    }
}

/// Where a mapping takes effect, each of its workspaces is on the display its
/// entry names by fingerprint. Where it does not, the reason is true: a
/// fingerprint no display has, a name no workspace has, or a display no entry
/// names.
pub proof fn law_a_mapping_goes_by_fingerprints_and_names(m: Model, j: int, at: int, w: int)
    requires
        m.config.switching matches Some(switching) && switching.experimental && entries_distinct(
            switching.displayed,
        ) && 0 <= j < switching.displayed.len(),
        handles_distinct(m.displays),
        fingerprinted(m.displays, (m.config.switching->0).displayed[j].display_fingerprint@, at),
        spelled_at(m.workspaces, (m.config.switching->0).displayed[j].workspace.key@, w),
    ensures
        ({
            let entries = (m.config.switching->0).displayed;
            match m.mapping_applied().switching_unavailable {
                None => m.mapping_applied().workspaces.list[w].displayed_on == Some(
                    m.displays[at].id,
                ),
                Some(WorkspaceSwitchingUnavailable::DisplayNotConnected { display_fingerprint }) =>
                    forall|k: int|
                    0 <= k < m.displays.len() ==> (
                    #[trigger] m.displays[k]).stable_fingerprint@ != display_fingerprint@,
                Some(WorkspaceSwitchingUnavailable::UnknownWorkspace { name }) => exists|k: int|
                    0 <= k < entries.len() && names_nothing(m, #[trigger] entries[k], name),
                Some(WorkspaceSwitchingUnavailable::MappingIncomplete { display_fingerprint }) =>
                    exists|k: int|
                    #![trigger m.displays[k]]
                    0 <= k < m.displays.len() && m.displays[k].stable_fingerprint
                        == display_fingerprint && forall|e: int|
                        0 <= e < entries.len() ==> id_of(
                            m.displays,
                            (#[trigger] entries[e]).display_fingerprint@,
                        ) != Some(m.displays[k].id),
                Some(_) => false,
            }
        }),
{
    reveal(Model::mapping_applied);
    let entries = (m.config.switching->0).displayed;
    lemma_resolved_entries(m, entries, 0, Map::empty());
    match m.mapping_resolved(entries, 0, Map::empty()) {
        Err(_) => {},
        Ok(target) => {
            let p = m.unmapped(target);
            lemma_first_index(m.displays.len(), p);
            match first_index(m.displays.len(), p) {
                Some(i) => {
                    assert(p(i));
                    assert(m.displays[i].id == m.displays[i].id);
                    assert forall|e: int| 0 <= e < entries.len() implies id_of(
                        m.displays,
                        (#[trigger] entries[e]).display_fingerprint@,
                    ) != Some(m.displays[i].id) by {
                        assert(obeys(m, entries[e], target));
                        let d = choose|d: isize|
                            target.contains_key(d) && #[trigger] puts(m, entries[e], d, target[d]);
                        assert(d != m.displays[i].id.0);
                    }
                },
                None => {
                    assert forall|x: isize, y: isize| #[trigger]
                        target.contains_key(x) && #[trigger] target.contains_key(y) && x != y implies
                        target[x] != target[y] by {
                        let k = choose|k: int|
                            #![trigger entries[k]]
                            0 <= k < entries.len() && puts(m, entries[k], x, target[x]);
                        let n = choose|n: int|
                            #![trigger entries[n]]
                            0 <= n < entries.len() && puts(m, entries[n], y, target[y]);
                        if k < n {
                            assert(entries[k].workspace.key@ != entries[n].workspace.key@);
                        } else if n < k {
                            assert(entries[n].workspace.key@ != entries[k].workspace.key@);
                        }
                    }
                    assert(obeys(m, entries[j], target));
                    let d = choose|d: isize|
                        target.contains_key(d) && #[trigger] puts(m, entries[j], d, target[d]);
                    lemma_fingerprinted(m.displays, entries[j].display_fingerprint@, at);
                    lemma_spelled(m.workspaces, entries[j].workspace, w);
                    lemma_spelled(m.workspaces, entries[j].workspace, target[d]);
                    law_a_complete_mapping_is_shown(m, target, d);
                },
            }
        },
    }
}

/// No mapping is in effect, and no reason against one is given, where the
/// profile does not ask for experimental switching.
pub proof fn law_no_mapping_without_asking(m: Model)
    requires
        !(m.config.switching matches Some(switching) && switching.experimental),
    ensures
        m.mapping_applied() == (Model { switching_unavailable: None, ..m }),
{
    reveal(Model::mapping_applied);
}

} // verus!
