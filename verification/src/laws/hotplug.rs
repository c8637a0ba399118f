//! Where windows and focus go when displays come and go, said of the displays'
//! own rectangles.

use vstd::prelude::*;

verus! {

use crate::answers::{Answer, Answers, Query};
use crate::geometry::{DisplayId, Rect, WindowId};
use crate::laws::events::lemma_tame_assignment_reconciled;
use crate::laws::frame::{extends, logs_kept};
use crate::laws::parts::lemma_calm_focus_migrated;
use crate::laws::steady::lemma_steady_vanished_hidden;
use crate::observe::{closest, nearest};
use crate::state::{EngineEffect, Model};
use crate::table::{ascending, lemma_sorted, sorted};
use crate::text::lemma_first_index;
use crate::topology::{connected, display_at, display_is};
use crate::window::{same_displays, Display};

/// Half an extent, rounded towards zero.
pub open spec fn middle(extent: int) -> int {
    if extent < 0 {
        -((-extent) / 2)
    } else {
        extent / 2
    }
}

/// The squared distance between the middles of two rectangles.
pub open spec fn spread(a: Rect, b: Rect) -> int {
    let dx = (a.x + middle(a.width as int)) - (b.x + middle(b.width as int));
    let dy = (a.y + middle(a.height as int)) - (b.y + middle(b.height as int));
    dx * dx + dy * dy
}

/// `displays[at]` is the one display called `id`: the first of that handle.
pub open spec fn called(displays: Seq<Display>, id: DisplayId, at: int) -> bool {
    &&& 0 <= at < displays.len()
    &&& displays[at].id == id
    &&& forall|k: int| 0 <= k < at ==> (#[trigger] displays[k]).id != id
}

/// Whether no display has the handle.
pub open spec fn gone(displays: Seq<Display>, id: DisplayId) -> bool {
    forall|k: int| 0 <= k < displays.len() ==> (#[trigger] displays[k]).id != id
}

pub proof fn lemma_called(displays: Seq<Display>, id: DisplayId, at: int)
    ensures
        called(displays, id, at) <==> display_at(displays, id) == Some(at),
        gone(displays, id) <==> display_at(displays, id) is None,
        connected(displays, id) <==> !gone(displays, id),
{
    let p = display_is(displays, id);
    lemma_first_index(displays.len(), p);
    assert forall|k: int| #[trigger] p(k) == (displays[k].id == id) by {}
    match display_at(displays, id) {
        Some(found) => {
            assert(p(found));
            assert(displays[found].id == id);
            if called(displays, id, at) {
                assert(p(at));
                if found < at {
                    assert(displays[found].id != id);
                }
            }
            if found == at {
                assert forall|k: int| 0 <= k < at implies (#[trigger] displays[k]).id != id by {
                    assert(!p(k));
                }
            }
        },
        None => {
            assert forall|k: int| 0 <= k < displays.len() implies (#[trigger] displays[k]).id
                != id by {
                assert(!p(k));
            }
            if called(displays, id, at) {
                assert(displays[at].id != id);
            }
        },
    }
}

proof fn lemma_spread(a: Rect, b: Rect)
    ensures
        crate::geometry::center_distance(a, b) == spread(a, b),
{
}

/// The home of a window whose display went away: of the survivors none is
/// nearer to the lost display, and none listed before it is as near.
pub open spec fn is_home(survivors: Seq<Display>, lost: Display, home: int) -> bool {
    &&& 0 <= home < survivors.len()
    &&& forall|k: int|
        0 <= k < survivors.len() ==> spread(survivors[home].full_bounds, lost.full_bounds)
            <= spread((#[trigger] survivors[k]).full_bounds, lost.full_bounds)
    &&& forall|k: int|
        0 <= k < home ==> spread(survivors[home].full_bounds, lost.full_bounds) < spread(
            (#[trigger] survivors[k]).full_bounds,
            lost.full_bounds,
        )
}

proof fn lemma_nearest_home(survivors: Seq<Display>, lost: Display, n: int)
    requires
        0 < n <= survivors.len(),
    ensures
        is_home(survivors.take(n), lost, nearest(survivors, lost.full_bounds, n)),
    decreases n,
{
    let from = lost.full_bounds;
    let some = survivors.take(n);
    assert forall|k: int| 0 <= k < n implies #[trigger] some[k] == survivors[k] by {}
    assert forall|r: Rect| #[trigger] crate::geometry::center_distance(r, from) == spread(
        r,
        from,
    ) by {
        lemma_spread(r, from);
    }
    if n > 1 {
        lemma_nearest_home(survivors, lost, n - 1);
        let fewer = survivors.take(n - 1);
        assert forall|k: int| 0 <= k < n - 1 implies #[trigger] some[k] == fewer[k] by {}
    }
}

/// The window of a lost display as migration leaves it: on its home, with its
/// place within the old work area carried over to the new one.
pub open spec fn carried(
    before: Model,
    after: Model,
    a: Answers,
    survivors: Seq<Display>,
    id: isize,
    at: int,
    home: int,
) -> bool {
    &&& is_home(survivors, before.displays[at], home)
    &&& after.windows.contains_key(id)
    &&& after.windows[id].display_id == survivors[home].id
    &&& a.look_up(
        Query::Thrown {
            bounds: before.windows[id].bounds,
            from: before.displays[at].work_area,
            to: survivors[home].work_area,
        },
    ) == Some(Answer::Bounds(after.windows[id].bounds))
    &&& (before.inventory.contains_key(id) ==> after.inventory[id].window.display_id
        == survivors[home].id && after.inventory[id].window.bounds == after.windows[id].bounds)
    &&& exists|k: int|
        before.effects.len() <= k < after.effects.len() && #[trigger] after.effects[k] == (
        EngineEffect::PlaceWindow {
            window_id: WindowId(id),
            display_id: survivors[home].id,
            bounds: after.windows[id].bounds,
        })
}

proof fn lemma_one_carried(m: Model, a: Answers, survivors: Seq<Display>, id: isize, other: isize)
    requires
        m.windows.contains_key(id),
        survivors.len() > 0,
    ensures
        match m.window_migrated(a, survivors, id) {
            Ok(after) => {
                &&& after.displays == m.displays
                &&& after.windows.dom() == m.windows.dom()
                &&& after.inventory.dom() == m.inventory.dom()
                &&& extends(m.effects, after.effects)
                &&& (other != id ==> after.windows[other] == m.windows[other]
                    && after.inventory[other] == m.inventory[other])
                &&& forall|at: int|
                    called(m.displays, m.windows[id].display_id, at) && gone(
                        survivors,
                        m.windows[id].display_id,
                    ) ==> #[trigger] carried(
                        m,
                        after,
                        a,
                        survivors,
                        id,
                        at,
                        nearest(survivors, m.displays[at].full_bounds, survivors.len() as int),
                    )
                &&& (!gone(survivors, m.windows[id].display_id) ==> after == m)
            },
            Err(_) => true,
        },
{
    let placement = m.windows[id];
    lemma_called(survivors, placement.display_id, 0);
    match m.window_migrated(a, survivors, id) {
        Ok(after) => {
            assert(after.windows.dom() =~= m.windows.dom());
            assert(after.inventory.dom() =~= m.inventory.dom());
            assert forall|at: int|
                called(m.displays, placement.display_id, at) && gone(
                    survivors,
                    placement.display_id,
                ) implies #[trigger] carried(
                m,
                after,
                a,
                survivors,
                id,
                at,
                nearest(survivors, m.displays[at].full_bounds, survivors.len() as int),
            ) by {
                lemma_called(m.displays, placement.display_id, at);
                let n = survivors.len() as int;
                lemma_nearest_home(survivors, m.displays[at], n);
                assert(survivors.take(n) =~= survivors);
                let home = survivors[nearest(survivors, m.displays[at].full_bounds, n)];
                assert(after.effects[m.effects.len() as int] == (EngineEffect::PlaceWindow {
                    window_id: WindowId(id),
                    display_id: home.id,
                    bounds: after.windows[id].bounds,
                }));
            }
        },
        Err(_) => {},
    }
}

proof fn lemma_all_carried(
    m: Model,
    a: Answers,
    survivors: Seq<Display>,
    ids: Seq<isize>,
    i: int,
    id: isize,
    at: int,
)
    requires
        survivors.len() > 0,
        0 <= i <= ids.len(),
        ascending(ids),
        forall|k: int| 0 <= k < ids.len() ==> m.windows.contains_key(#[trigger] ids[k]),
    ensures
        match m.windows_migrated(a, survivors, ids, i) {
            Ok(after) => {
                &&& after.displays == m.displays
                &&& extends(m.effects, after.effects)
                &&& after.windows.dom() == m.windows.dom()
                &&& after.inventory.dom() == m.inventory.dom()
                &&& ((forall|k: int| i <= k < ids.len() ==> ids[k] != id) ==> after.windows[id]
                    == m.windows[id] && after.inventory[id] == m.inventory[id])
                &&& (!gone(survivors, m.windows[id].display_id) ==> after.windows[id]
                    == m.windows[id] && after.inventory[id] == m.inventory[id])
                &&& ((exists|k: int| i <= k < ids.len() && ids[k] == id) && called(
                    m.displays,
                    m.windows[id].display_id,
                    at,
                ) && gone(survivors, m.windows[id].display_id) ==> carried(
                    m,
                    after,
                    a,
                    survivors,
                    id,
                    at,
                    nearest(survivors, m.displays[at].full_bounds, survivors.len() as int),
                ))
            },
            Err(_) => true,
        },
    decreases ids.len() - i,
{
    if i < ids.len() {
        lemma_one_carried(m, a, survivors, ids[i], id);
        match m.window_migrated(a, survivors, ids[i]) {
            Err(_) => {},
            Ok(next) => {
                assert forall|k: int| 0 <= k < ids.len() implies next.windows.contains_key(
                    #[trigger] ids[k],
                ) by {
                    assert(m.windows.dom().contains(ids[k]));
                }
                lemma_all_carried(next, a, survivors, ids, i + 1, id, at);
                match next.windows_migrated(a, survivors, ids, i + 1) {
                    Err(_) => {},
                    Ok(after) => {
                        assert forall|j: int| 0 <= j < m.effects.len() implies #[trigger]
                            after.effects[j] == m.effects[j] by {
                            assert(next.effects[j] == m.effects[j]);
                        }
                        if ids[i] == id {
                            assert forall|k: int| i + 1 <= k < ids.len() implies ids[k] != id by {
                                assert(ids[i] < ids[k]);
                            }
                            if called(m.displays, m.windows[id].display_id, at) && gone(
                                survivors,
                                m.windows[id].display_id,
                            ) {
                                let home = nearest(
                                    survivors,
                                    m.displays[at].full_bounds,
                                    survivors.len() as int,
                                );
                                assert(carried(m, next, a, survivors, id, at, home));
                                let told = EngineEffect::PlaceWindow {
                                    window_id: WindowId(id),
                                    display_id: survivors[home].id,
                                    bounds: next.windows[id].bounds,
                                };
                                let k = choose|k: int|
                                    m.effects.len() <= k < next.effects.len()
                                        && #[trigger] next.effects[k] == told;
                                assert(after.effects[k] == told);
                            }
                        } else if (exists|k: int| i <= k < ids.len() && ids[k] == id) {
                            let k = choose|k: int| i <= k < ids.len() && ids[k] == id;
                            assert(i + 1 <= k);
                            if called(m.displays, m.windows[id].display_id, at) && gone(
                                survivors,
                                m.windows[id].display_id,
                            ) {
                                let home = nearest(
                                    survivors,
                                    m.displays[at].full_bounds,
                                    survivors.len() as int,
                                );
                                assert(carried(next, after, a, survivors, id, at, home));
                                let told = EngineEffect::PlaceWindow {
                                    window_id: WindowId(id),
                                    display_id: survivors[home].id,
                                    bounds: after.windows[id].bounds,
                                };
                                let j = choose|j: int|
                                    next.effects.len() <= j < after.effects.len()
                                        && #[trigger] after.effects[j] == told;
                                assert(m.effects.len() <= j < after.effects.len());
                            }
                        }
                    },
                }
            },
        }
    }
}

/// Every window whose display vanished is carried to a survivor whose middle
/// is no farther from the vanished display's middle than any other survivor's,
/// keeping its place within the work area, and the adapter is told; every
/// other window stays exactly where it was.
pub proof fn law_orphans_go_to_the_nearest_survivor(
    m: Model,
    a: Answers,
    survivors: Seq<Display>,
    id: isize,
    at: int,
)
    requires
        survivors.len() > 0,
        m.windows.dom().finite(),
        m.windows.contains_key(id),
        called(m.displays, m.windows[id].display_id, at),
    ensures
        match m.orphans_migrated(a, survivors) {
            Ok(after) => if gone(survivors, m.windows[id].display_id) {
                exists|home: int| #[trigger] carried(m, after, a, survivors, id, at, home)
            } else {
                after.windows[id] == m.windows[id] && after.inventory[id] == m.inventory[id]
            },
            Err(_) => true,
        },
{
    reveal(Model::orphans_migrated);
    let ids = sorted(m.windows.dom());
    lemma_sorted(m.windows.dom());
    assert forall|k: int| 0 <= k < ids.len() implies m.windows.contains_key(#[trigger] ids[k]) by {
        assert(ids.to_set().contains(ids[k]));
    }
    assert(ids.to_set().contains(id));
    let k = choose|k: int| 0 <= k < ids.len() && ids[k] == id;
    lemma_all_carried(m, a, survivors, ids, 0, id, at);
    match m.orphans_migrated(a, survivors) {
        Ok(after) => {
            if gone(survivors, m.windows[id].display_id) {
                assert(carried(
                    m,
                    after,
                    a,
                    survivors,
                    id,
                    at,
                    nearest(survivors, m.displays[at].full_bounds, survivors.len() as int),
                ));
            }
        },
        Err(_) => {},
    }
}

/// Where a topology without a window's display arrives, the adapter is told to
/// bring the window to the survivor nearest to the lost display.
pub proof fn law_hotplug_tells_where_orphans_go(
    before: Model,
    a: Answers,
    displays: Seq<Display>,
    topology: String,
    id: isize,
    at: int,
)
    requires
        displays.len() > 0,
        !same_displays(displays, before.displays),
        before.windows.dom().finite(),
        before.windows.contains_key(id),
        called(before.displays, before.windows[id].display_id, at),
        gone(displays, before.windows[id].display_id),
    ensures
        match before.on_topology(a, displays, topology) {
            Ok(after) => exists|home: int, k: int|
                #![trigger displays[home], after.effects[k]]
                is_home(displays, before.displays[at], home) && before.effects.len() <= k
                    < after.effects.len() && (match after.effects[k] {
                    EngineEffect::PlaceWindow { window_id, display_id, bounds } => window_id
                        == WindowId(id) && display_id == displays[home].id && a.look_up(
                        Query::Thrown {
                            bounds: before.windows[id].bounds,
                            from: before.displays[at].work_area,
                            to: displays[home].work_area,
                        },
                    ) == Some(Answer::Bounds(bounds)),
                    _ => false,
                }),
            Err(_) => true,
        },
{
    reveal(Model::on_topology);
    let free = Model { interactive: None, deferred: Set::empty(), ..before };
    match free.orphans_migrated(a, displays) {
        Err(_) => {},
        Ok(moved) => {
            law_orphans_go_to_the_nearest_survivor(free, a, displays, id, at);
            let home = choose|home: int| #[trigger]
                carried(free, moved, a, displays, id, at, home);
            let told = EngineEffect::PlaceWindow {
                window_id: WindowId(id),
                display_id: displays[home].id,
                bounds: moved.windows[id].bounds,
            };
            let k = choose|k: int|
                free.effects.len() <= k < moved.effects.len() && #[trigger] moved.effects[k]
                    == told;
            lemma_topology_logs(before, a, displays, topology, moved);
            match before.on_topology(a, displays, topology) {
                Ok(after) => {
                    assert(after.effects[k] == told);
                    assert(displays[home].id == displays[home].id);
                },
                Err(_) => {},
            }
        },
    }
}

/// What follows a migration only adds to the log.
proof fn lemma_topology_logs(
    before: Model,
    a: Answers,
    displays: Seq<Display>,
    topology: String,
    moved: Model,
)
    requires
        displays.len() > 0,
        !same_displays(displays, before.displays),
        (Model { interactive: None, deferred: Set::empty(), ..before }).orphans_migrated(
            a,
            displays,
        ) == Ok::<Model, Query>(moved),
    ensures
        match before.on_topology(a, displays, topology) {
            Ok(after) => extends(moved.effects, after.effects),
            Err(_) => true,
        },
{
    reveal(Model::on_topology);
    let focused = moved.focus_migrated(displays);
    lemma_calm_focus_migrated(moved, displays);
    let hidden = focused.vanished_hidden(displays);
    lemma_steady_vanished_hidden(focused, displays);
    crate::laws::steady::lemma_trans(moved, focused, hidden);
    let committed = hidden.displays_committed(displays, topology);
    let configured = if topology@ != before.topology@ {
        committed.topology_config()
    } else {
        committed
    };
    crate::laws::events::lemma_loose_topology_config(committed);
    assert(logs_kept(hidden, committed));
    crate::laws::frame::lemma_logs_kept_trans(moved, hidden, committed);
    if topology@ != before.topology@ {
        crate::laws::frame::lemma_logs_kept_trans(moved, committed, configured);
    }
    lemma_tame_assignment_reconciled(configured, a);
    match configured.assignment_reconciled(a) {
        Ok(after) => {
            crate::laws::frame::lemma_logs_kept_trans(moved, configured, after);
        },
        Err(_) => {},
    }
}

/// The new home of focus: of the survivors none is nearer to the lost display;
/// of those as near a primary one goes first, and the smaller handle after
/// that.
pub open spec fn is_focus_home(survivors: Seq<Display>, lost: Display, home: int) -> bool {
    &&& 0 <= home < survivors.len()
    &&& forall|k: int|
        #![trigger survivors[k]]
        0 <= k < survivors.len() ==> {
            let mine = spread(survivors[home].full_bounds, lost.full_bounds);
            let other = spread(survivors[k].full_bounds, lost.full_bounds);
            ||| mine < other
            ||| mine == other && survivors[home].is_primary && !survivors[k].is_primary
            ||| mine == other && survivors[home].is_primary == survivors[k].is_primary
                && survivors[home].id.0 <= survivors[k].id.0
        }
}

proof fn lemma_closest_home(survivors: Seq<Display>, lost: Display, n: int)
    requires
        0 < n <= survivors.len(),
    ensures
        is_focus_home(survivors.take(n), lost, closest(survivors, lost.full_bounds, n)),
    decreases n,
{
    let from = lost.full_bounds;
    let some = survivors.take(n);
    assert forall|k: int| 0 <= k < n implies #[trigger] some[k] == survivors[k] by {}
    assert forall|r: Rect| #[trigger] crate::geometry::center_distance(r, from) == spread(
        r,
        from,
    ) by {
        lemma_spread(r, from);
    }
    if n > 1 {
        lemma_closest_home(survivors, lost, n - 1);
        let fewer = survivors.take(n - 1);
        assert forall|k: int| 0 <= k < n - 1 implies #[trigger] some[k] == fewer[k] by {}
        let best = closest(survivors, from, n - 1);
        assert(fewer[best] == survivors[best]);
        assert forall|k: int| 0 <= k < n implies ({
            let home = closest(survivors, from, n);
            let mine = spread(some[home].full_bounds, from);
            let other = spread((#[trigger] some[k]).full_bounds, from);
            ||| mine < other
            ||| mine == other && some[home].is_primary && !some[k].is_primary
            ||| mine == other && some[home].is_primary == some[k].is_primary
                && some[home].id.0 <= some[k].id.0
        }) by {
            if k < n - 1 {
                assert(some[k] == fewer[k]);
            }
        }
    }
}

/// Focus on a display that vanished goes to the survivor nearest to it, a
/// primary one first among equals and the smaller handle after that; focus on
/// one that is still there stays.
pub proof fn law_focus_goes_to_the_nearest_survivor(
    m: Model,
    survivors: Seq<Display>,
    focused: DisplayId,
    at: int,
)
    requires
        survivors.len() > 0,
        m.focused_display == Some(focused),
        called(m.displays, focused, at),
    ensures
        if gone(survivors, focused) {
            exists|home: int|
                #![trigger survivors[home]]
                is_focus_home(survivors, m.displays[at], home) && m.focus_migrated(
                    survivors,
                ).focused_display == Some(survivors[home].id)
        } else {
            m.focus_migrated(survivors).focused_display == Some(focused)
        },
{
    reveal(Model::focus_migrated);
    lemma_called(m.displays, focused, at);
    lemma_called(survivors, focused, 0);
    let n = survivors.len() as int;
    lemma_closest_home(survivors, m.displays[at], n);
    assert(survivors.take(n) =~= survivors);
    let home = closest(survivors, m.displays[at].full_bounds, n);
    assert(survivors[home].id == survivors[home].id);
}

} // verus!
