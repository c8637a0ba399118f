//! In which order displays are given workspaces, and which workspace a rule
//! sends a new window to.

use vstd::prelude::*;

verus! {

use crate::answers::{Answer, Answers, Query};
use crate::geometry::DisplayId;
use crate::laws::assignment::law_an_empty_display_reveals_no_windows;
use crate::laws::belonging::{blank, lemma_shown, lemma_spelled, spelled_at};
use crate::laws::hotplug::{called, lemma_called};
use crate::laws::managing::each_once;
use crate::laws::reflow::handles_distinct;
use crate::laws::workspaces::{
    lemma_all_departed_only, lemma_hidden_reconciled_only, lemma_memory_kept, lemma_targets_seen,
};
use crate::name::{NameCheck, RequestedName};
use crate::observe::RuleTarget;
use crate::ranking::{lemma_ordered, ordered, Ranked};
use crate::state::{Model, RuleWorkspaceRefusal};
use crate::table::sorted;
use crate::text::lemma_first_index;
use crate::topology::display_at;
use crate::window::{Display, ManageAction, ManagedWindow, Window};

/// Whether a display is served before another: a primary one first, and the
/// smaller handle among equals.
pub open spec fn served_before(p: Display, q: Display) -> bool {
    p.is_primary && !q.is_primary || p.is_primary == q.is_primary && p.id.0 < q.id.0
}

/// What was shown stays shown, and what was waiting for a display waits on or
/// is done with.
spec fn filled_on(before: Model, after: Model) -> bool {
    &&& after.displays == before.displays
    &&& after.config == before.config
    &&& after.workspaces.members == before.workspaces.members
    &&& after.workspaces.list.len() == before.workspaces.list.len()
    &&& forall|k: int|
        #![trigger after.workspaces.list[k]]
        0 <= k < before.workspaces.list.len() ==> {
            let b = before.workspaces.list[k];
            let n = after.workspaces.list[k];
            &&& n.name == b.name
            &&& (b.displayed_on is Some ==> n.displayed_on == b.displayed_on)
            &&& (n.pending_display == b.pending_display || n.pending_display is None)
        }
}

spec fn nothing_vacant(m: Model) -> bool {
    forall|k: int| 0 <= k < m.workspaces.list.len() ==> !#[trigger] m.vacant(k)
}

proof fn lemma_display_filled(m: Model, display: Display, other: DisplayId)
    ensures
        ({
            let after = m.display_filled(display);
            &&& filled_on(m, after)
            &&& (other != display.id && blank(m.workspaces, other) ==> blank(
                after.workspaces,
                other,
            ))
            &&& (blank(m.workspaces, display.id) && blank(after.workspaces, display.id)
                ==> nothing_vacant(m) && after == m)
            &&& (nothing_vacant(m) ==> nothing_vacant(after))
            &&& (blank(m.workspaces, display.id) && nothing_vacant(m) ==> forall|w: int|
                #![trigger after.workspaces.list[w]]
                0 <= w < after.workspaces.list.len() && after.workspaces.list[w].displayed_on
                    == Some(display.id) ==> (m.workspaces.list[w].pending_display matches Some(text)
                    && text@ == display.stable_fingerprint@))
        }),
{
    let after = m.display_filled(display);
    lemma_shown(m.workspaces, display.id, 0);
    if m.workspaces.displayed_at(display.id) is None {
        law_an_empty_display_reveals_no_windows(m, display.stable_fingerprint@);
        let known = m.remembers(display.stable_fingerprint@);
        lemma_first_index(m.workspaces.list.len(), known);
        match m.chosen_for(display.stable_fingerprint@) {
            None => {},
            Some(i) => {
                assert(after.workspaces.list[i].displayed_on == Some(display.id));
                assert forall|k: int|
                    0 <= k < m.workspaces.list.len() && k != i implies (
                #[trigger] after.workspaces.list[k]) == m.workspaces.list[k] by {
                    assert(m.workspaces.list[k].displayed_on != Some(display.id));
                }
                if nothing_vacant(m) {
                    assert(!m.vacant(i));
                    assert(known(i));
                    assert forall|k: int| 0 <= k < after.workspaces.list.len() implies
                        !#[trigger] after.vacant(k) by {
                        assert(!m.vacant(k));
                        if k != i {
                            assert(after.workspaces.list[k] == m.workspaces.list[k]);
                            assert(after.workspaces.belongs(after.workspaces.list[k].name)
                                =~= m.workspaces.belongs(m.workspaces.list[k].name));
                        }
                    }
                }
                if other != display.id && blank(m.workspaces, other) {
                    assert forall|k: int| 0 <= k < after.workspaces.list.len() implies (
                    #[trigger] after.workspaces.list[k]).displayed_on != Some(other) by {
                        if k != i {
                            assert(after.workspaces.list[k] == m.workspaces.list[k]);
                            assert(m.workspaces.list[k].displayed_on != Some(other));
                        }
                    }
                }
            },
        }
    }
}

proof fn lemma_filled_trans(a: Model, b: Model, c: Model)
    requires
        filled_on(a, b),
        filled_on(b, c),
    ensures
        filled_on(a, c),
{
    assert forall|k: int|
        #![trigger c.workspaces.list[k]]
        0 <= k < a.workspaces.list.len() implies {
        let x = a.workspaces.list[k];
        let z = c.workspaces.list[k];
        &&& z.name == x.name
        &&& (x.displayed_on is Some ==> z.displayed_on == x.displayed_on)
        &&& (z.pending_display == x.pending_display || z.pending_display is None)
    } by {
        assert(b.workspaces.list[k].name == a.workspaces.list[k].name);
    }
}

proof fn lemma_filled_from(m: Model, line: Seq<Ranked>, i: int, other: DisplayId)
    requires
        0 <= i,
        handles_distinct(m.displays),
        forall|k: int| i <= k < line.len() ==> (#[trigger] line[k]).id != other.0,
    ensures
        filled_on(m, m.displays_filled_from(line, i)),
        forall|w: int|
            #![trigger m.displays_filled_from(line, i).workspaces.list[w]]
            0 <= w < m.workspaces.list.len() && m.displays_filled_from(
                line,
                i,
            ).workspaces.list[w].displayed_on == Some(other)
                ==> m.workspaces.list[w].displayed_on == Some(other),
    decreases line.len() - i,
{
    if i < line.len() {
        let next = match display_at(m.displays, DisplayId(line[i].id)) {
            Some(at) => m.display_filled(m.displays[at]),
            None => m,
        };
        match display_at(m.displays, DisplayId(line[i].id)) {
            Some(at) => {
                lemma_called(m.displays, DisplayId(line[i].id), at);
                lemma_display_filled(m, m.displays[at], other);
                assert(line[i].id != other.0);
                assert forall|w: int|
                    #![trigger next.workspaces.list[w]]
                    0 <= w < m.workspaces.list.len() && next.workspaces.list[w].displayed_on
                        == Some(other) implies m.workspaces.list[w].displayed_on == Some(other) by {
                    if m.workspaces.list[w].displayed_on is None {
                        lemma_newly_shown(m, m.displays[at], w);
                    }
                }
            },
            None => {},
        }
        lemma_filled_from(next, line, i + 1, other);
        let after = m.displays_filled_from(line, i);
        lemma_filled_trans(m, next, after);
        assert forall|w: int|
            #![trigger after.workspaces.list[w]]
            0 <= w < m.workspaces.list.len() && after.workspaces.list[w].displayed_on == Some(
                other,
            ) implies m.workspaces.list[w].displayed_on == Some(other) by {
            assert(next.workspaces.list[w].displayed_on == Some(other));
        }
    }
}

proof fn lemma_newly_shown(m: Model, display: Display, w: int)
    requires
        0 <= w < m.workspaces.list.len(),
        m.workspaces.list[w].displayed_on is None,
    ensures
        m.display_filled(display).workspaces.list[w].displayed_on matches Some(d) ==> d
            == display.id,
{
    law_an_empty_display_reveals_no_windows(m, display.stable_fingerprint@);
}

proof fn lemma_fill_order(
    m: Model,
    line: Seq<Ranked>,
    i: int,
    x: int,
    y: int,
    p: Display,
    q: Display,
    w: int,
)
    requires
        handles_distinct(m.displays),
        0 <= i <= y,
        0 <= x < y < line.len(),
        line[x].id == p.id.0,
        line[y].id == q.id.0,
        forall|j: int, k: int|
            0 <= j < k < line.len() ==> (#[trigger] line[j]).id != (#[trigger] line[k]).id,
        exists|at: int| #[trigger] called(m.displays, p.id, at) && m.displays[at] == p,
        exists|at: int| #[trigger] called(m.displays, q.id, at) && m.displays[at] == q,
        blank(m.workspaces, p.id),
        blank(m.workspaces, q.id),
        i > x ==> nothing_vacant(m),
        0 <= w < m.workspaces.list.len(),
    ensures
        ({
            let after = m.displays_filled_from(line, i);
            blank(after.workspaces, p.id) && after.workspaces.list[w].displayed_on == Some(q.id)
                ==> (m.workspaces.list[w].pending_display matches Some(text) && text@
                == q.stable_fingerprint@)
        }),
    decreases line.len() - i,
{
    let after = m.displays_filled_from(line, i);
    let id = DisplayId(line[i].id);
    let next = match display_at(m.displays, id) {
        Some(at) => m.display_filled(m.displays[at]),
        None => m,
    };
    let pa = choose|at: int| #[trigger] called(m.displays, p.id, at) && m.displays[at] == p;
    let qa = choose|at: int| #[trigger] called(m.displays, q.id, at) && m.displays[at] == q;
    lemma_called(m.displays, p.id, pa);
    lemma_called(m.displays, q.id, qa);
    match display_at(m.displays, id) {
        Some(at) => {
            lemma_called(m.displays, id, at);
            lemma_display_filled(m, m.displays[at], p.id);
            lemma_display_filled(m, m.displays[at], q.id);
        },
        None => {},
    }
    assert(called(next.displays, p.id, pa));
    assert(called(next.displays, q.id, qa));
    if i == y {
        assert(line[x].id != line[y].id);
        assert forall|k: int| y + 1 <= k < line.len() implies (#[trigger] line[k]).id
            != q.id.0 by {
            assert(line[y].id != line[k].id);
        }
        lemma_filled_from(next, line, i + 1, q.id);
        if after.workspaces.list[w].displayed_on == Some(q.id) {
            assert(next.workspaces.list[w].displayed_on == Some(q.id));
        }
    } else {
        if i == x {
            if !blank(next.workspaces, p.id) {
                let k = choose|k: int|
                    0 <= k < next.workspaces.list.len() && (
                    #[trigger] next.workspaces.list[k]).displayed_on == Some(p.id);
                assert forall|n: int| i + 1 <= n < line.len() implies (#[trigger] line[n]).id
                    != p.id.0 by {
                    assert(line[x].id != line[n].id);
                }
                lemma_filled_from(next, line, i + 1, p.id);
                assert(after.workspaces.list[k].displayed_on == Some(p.id));
            } else {
                assert(next == m);
                lemma_fill_order(next, line, i + 1, x, y, p, q, w);
            }
        } else {
            if i < x {
                assert(line[i].id != line[x].id);
            } else {
                assert(line[x].id != line[i].id);
            }
            assert(line[i].id != line[y].id);
            lemma_fill_order(next, line, i + 1, x, y, p, q, w);
            assert(next.workspaces.list[w].pending_display == m.workspaces.list[w].pending_display
                || next.workspaces.list[w].pending_display is None);
        }
    }
}

/// Displays are served in order, primary ones first and the smaller handle
/// among equals: where one is left without a workspace, no display served after
/// it was given any but the one that was last shown there.
pub proof fn law_primary_displays_are_served_first(m: Model, x: int, y: int, w: int)
    requires
        handles_distinct(m.displays),
        0 <= x < m.displays.len(),
        0 <= y < m.displays.len(),
        served_before(m.displays[x], m.displays[y]),
        blank(m.workspaces, m.displays[x].id),
        blank(m.workspaces, m.displays[y].id),
        0 <= w < m.workspaces.list.len(),
    ensures
        blank(m.displays_filled().workspaces, m.displays[x].id)
            && m.displays_filled().workspaces.list[w].displayed_on == Some(m.displays[y].id) ==> (
        m.workspaces.list[w].pending_display matches Some(text) && text@
            == m.displays[y].stable_fingerprint@),
{
    reveal(Model::displays_filled);
    let ranks = m.display_ranks();
    let line = ordered(ranks.to_set());
    lemma_ordered(ranks.to_set());
    let p = m.displays[x];
    let q = m.displays[y];
    assert(ranks.to_set().contains(ranks[x]));
    assert(ranks.to_set().contains(ranks[y]));
    assert(line.to_set().contains(ranks[x]));
    assert(line.to_set().contains(ranks[y]));
    let i = choose|i: int| 0 <= i < line.len() && line[i] == ranks[x];
    let j = choose|j: int| 0 <= j < line.len() && line[j] == ranks[y];
    if j < i {
        assert(crate::ranking::ranks_before(line[j], line[i]));
    }
    if i == j {
        assert(p.id == q.id);
        if x < y {
            assert(m.displays[x].id != m.displays[y].id);
        } else if y < x {
            assert(m.displays[y].id != m.displays[x].id);
        }
    }
    assert forall|k: int, n: int| 0 <= k < n < line.len() implies (#[trigger] line[k]).id != (
    #[trigger] line[n]).id by {
        assert(crate::ranking::ranks_before(line[k], line[n]));
        assert(line.to_set().contains(line[k]) && line.to_set().contains(line[n]));
        assert(ranks.to_set().contains(line[k]) && ranks.to_set().contains(line[n]));
        let u = choose|u: int| 0 <= u < ranks.len() && ranks[u] == line[k];
        let v = choose|v: int| 0 <= v < ranks.len() && ranks[v] == line[n];
        if u < v {
            assert(m.displays[u].id != m.displays[v].id);
        } else if v < u {
            assert(m.displays[v].id != m.displays[u].id);
        }
    }
    assert(called(m.displays, p.id, x)) by {
        assert forall|k: int| 0 <= k < x implies (#[trigger] m.displays[k]).id != p.id by {
            assert(m.displays[k].id != m.displays[x].id);
        }
    }
    assert(called(m.displays, q.id, y)) by {
        assert forall|k: int| 0 <= k < y implies (#[trigger] m.displays[k]).id != q.id by {
            assert(m.displays[k].id != m.displays[y].id);
        }
    }
    lemma_fill_order(m, line, 0, i, j, p, q, w);
}

// Rules that name a workspace.

/// The rules name `request` for a window.
pub open spec fn sent_to(
    m: Model,
    a: Answers,
    window: Window,
    rule_id: Option<String>,
    request: RequestedName,
) -> bool {
    match a.look_up(Query::Verdict { rules: m.rules, window }) {
        Some(Answer::Verdict(verdict)) => verdict.manage != ManageAction::Exclude
            && verdict.workspace == Some(request) && verdict.rule_id == rule_id,
        _ => false,
    }
}

spec fn targets_once(targets: Seq<RuleTarget>) -> bool {
    forall|i: int, j: int|
        0 <= i < j < targets.len() ==> (#[trigger] targets[i]).window_id != (
        #[trigger] targets[j]).window_id
}

spec fn listed(targets: Seq<RuleTarget>, target: RuleTarget) -> bool {
    exists|t: int| 0 <= t < targets.len() && #[trigger] targets[t] == target
}

proof fn lemma_resolved_targets(
    m: Model,
    a: Answers,
    seen: Seq<Window>,
    i: int,
    next: Map<isize, ManagedWindow>,
    targets: Seq<RuleTarget>,
    k: int,
    rule_id: Option<String>,
    request: RequestedName,
)
    requires
        0 <= i <= seen.len(),
        0 <= k < seen.len(),
        each_once(seen),
        targets_once(targets),
        forall|t: int, n: int|
            0 <= t < targets.len() && i <= n < seen.len() ==> (
            #[trigger] targets[t]).window_id != (#[trigger] seen[n]).id,
        !m.inventory.contains_key(seen[k].id.0),
        sent_to(m, a, seen[k], rule_id, request),
        k < i ==> listed(
            targets,
            RuleTarget { window_id: seen[k].id, rule_id, request },
        ),
    ensures
        match m.resolved(a, seen, i, next, targets) {
            Ok((_, _, wanted)) => targets_once(wanted) && listed(
                wanted,
                RuleTarget { window_id: seen[k].id, rule_id, request },
            ),
            Err(_) => true,
        },
    decreases seen.len() - i,
{
    if i < seen.len() {
        let window = seen[i];
        match a.verdict_spec(m.rules, window) {
            Err(_) => {},
            Ok(verdict) => {
                if verdict.manage == ManageAction::Exclude {
                    assert(m.resolved(a, seen, i, next, targets) == m.resolved(
                        a,
                        seen,
                        i + 1,
                        next,
                        targets,
                    ));
                    assert(k != i);
                    lemma_resolved_targets(
                        m,
                        a,
                        seen,
                        i + 1,
                        next,
                        targets,
                        k,
                        rule_id,
                        request,
                    );
                } else {
                    let wanted = match verdict.workspace {
                        Some(request) => if m.inventory.contains_key(window.id.0) {
                            targets
                        } else {
                            targets.push(
                                RuleTarget {
                                    window_id: window.id,
                                    rule_id: verdict.rule_id,
                                    request,
                                },
                            )
                        },
                        None => targets,
                    };
                    let managed = ManagedWindow {
                        window,
                        action: verdict.manage,
                        eligibility: m.observed_eligibility(window, verdict.manage),
                    };
                    let more = next.insert(window.id.0, managed);
                    assert forall|t: int, n: int|
                        0 <= t < wanted.len() && i + 1 <= n < seen.len() implies (
                    #[trigger] wanted[t]).window_id != (#[trigger] seen[n]).id by {
                        if t < targets.len() {
                            assert(wanted[t] == targets[t]);
                        } else {
                            assert(seen[i].id != seen[n].id);
                        }
                    }
                    assert forall|s: int, t: int| 0 <= s < t < wanted.len() implies (
                    #[trigger] wanted[s]).window_id != (#[trigger] wanted[t]).window_id by {
                        assert(wanted[s] == targets[s]);
                        if t < targets.len() {
                            assert(wanted[t] == targets[t]);
                        } else {
                            assert(targets[s].window_id != seen[i].id);
                        }
                    }
                    if k < i {
                        let t = choose|t: int|
                            0 <= t < targets.len() && #[trigger] targets[t] == (RuleTarget {
                                window_id: seen[k].id,
                                rule_id,
                                request,
                            });
                        assert(wanted[t] == targets[t]);
                        assert(listed(wanted, wanted[t]));
                    }
                    assert(m.resolved(a, seen, i, next, targets) == m.tracking(window).resolved(
                        a,
                        seen,
                        i + 1,
                        more,
                        wanted,
                    ));
                    if k == i {
                        assert(wanted[targets.len() as int] == (RuleTarget {
                            window_id: seen[k].id,
                            rule_id,
                            request,
                        }));
                        assert(listed(wanted, wanted[targets.len() as int]));
                    }
                    assert(targets_once(wanted));
                    lemma_resolved_targets(
                        m.tracking(window),
                        a,
                        seen,
                        i + 1,
                        more,
                        wanted,
                        k,
                        rule_id,
                        request,
                    );
                }
            },
        }
    } else {
        assert(m.resolved(a, seen, i, next, targets) == Ok::<
            (Model, Map<isize, ManagedWindow>, Seq<RuleTarget>),
            Query,
        >((m, next, targets)));
    }
}

proof fn lemma_targets_applied(m: Model, targets: Seq<RuleTarget>, i: int, t: int)
    requires
        0 <= i <= targets.len(),
        0 <= t < targets.len(),
        targets_once(targets),
        t < i ==> match m.workspaces.resolve(targets[t].request) {
            Some(at) => m.workspaces.members.contains_key(targets[t].window_id.0)
                && m.workspaces.members[targets[t].window_id.0] == m.workspaces.list[at].name,
            None => m.rule_workspace_refusals.contains(
                RuleWorkspaceRefusal {
                    window_id: targets[t].window_id,
                    rule_id: targets[t].rule_id,
                    workspace: targets[t].request.text,
                },
            ),
        },
    ensures
        ({
            let after = m.targets_applied(targets, i);
            &&& after.workspaces.list == m.workspaces.list
            &&& match m.workspaces.resolve(targets[t].request) {
                Some(at) => after.workspaces.members.contains_key(targets[t].window_id.0)
                    && after.workspaces.members[targets[t].window_id.0]
                    == m.workspaces.list[at].name,
                None => after.rule_workspace_refusals.contains(
                    RuleWorkspaceRefusal {
                        window_id: targets[t].window_id,
                        rule_id: targets[t].rule_id,
                        workspace: targets[t].request.text,
                    },
                ),
            }
        }),
    decreases targets.len() - i,
{
    if i < targets.len() {
        let target = targets[i];
        let refusal = RuleWorkspaceRefusal {
            window_id: target.window_id,
            rule_id: target.rule_id,
            workspace: target.request.text,
        };
        let next = match m.workspaces.resolve(target.request) {
            Some(at) => Model {
                workspaces: m.workspaces.assigned(
                    target.window_id.0,
                    m.workspaces.list[at].name,
                ),
                ..m
            },
            None => Model {
                rule_workspace_refusals: m.rule_workspace_refusals.push(refusal),
                ..m
            },
        };
        assert(next.workspaces.list == m.workspaces.list);
        match target.request.name {
            NameCheck::Valid(name) => {
                assert(next.workspaces.named(name.key@) =~= m.workspaces.named(name.key@));
            },
            NameCheck::Invalid(_) => {},
        }
        match targets[t].request.name {
            NameCheck::Valid(name) => {
                assert(next.workspaces.named(name.key@) =~= m.workspaces.named(name.key@));
            },
            NameCheck::Invalid(_) => {},
        }
        if t < i {
            assert(targets[t].window_id != targets[i].window_id);
            if m.workspaces.resolve(targets[t].request) is None {
                let old = RuleWorkspaceRefusal {
                    window_id: targets[t].window_id,
                    rule_id: targets[t].rule_id,
                    workspace: targets[t].request.text,
                };
                let k = choose|k: int|
                    0 <= k < m.rule_workspace_refusals.len() && m.rule_workspace_refusals[k] == old;
                assert(next.rule_workspace_refusals[k] == old);
            }
        }
        if t == i && m.workspaces.resolve(target.request) is None {
            assert(next.rule_workspace_refusals[m.rule_workspace_refusals.len() as int]
                == refusal);
        }
        lemma_targets_applied(next, targets, i + 1, t);
    }
}

/// A rule that names a workspace for a window it manages sends the window there
/// when it first appears; a name that no workspace has is recorded with the
/// rule and the window, and creates nothing.
pub proof fn law_a_rule_sends_a_new_window_to_its_workspace(
    m: Model,
    a: Answers,
    windows: Seq<Window>,
    k: int,
    rule_id: Option<String>,
    request: RequestedName,
    i: int,
)
    requires
        m.parked_windows.dom().finite(),
        each_once(windows),
        0 <= k < windows.len(),
        !m.inventory.contains_key(windows[k].id.0),
        sent_to(m, a, windows[k], rule_id, request),
    ensures
        match m.observed(a, windows) {
            Ok((after, _)) => {
                &&& after.workspaces.list.len() == m.workspaces.list.len()
                &&& match request.name {
                    NameCheck::Valid(name) => spelled_at(m.workspaces, name.key@, i)
                        ==> after.workspaces.members.contains_key(windows[k].id.0)
                        && after.workspaces.members[windows[k].id.0]
                        == m.workspaces.list[i].name,
                    NameCheck::Invalid(_) => after.rule_workspace_refusals.contains(
                        RuleWorkspaceRefusal {
                            window_id: windows[k].id,
                            rule_id,
                            workspace: request.text,
                        },
                    ),
                }
                &&& (request.name matches NameCheck::Valid(name) && (forall|j: int|
                    0 <= j < m.workspaces.list.len() ==> (
                    #[trigger] m.workspaces.list[j]).name.key@ != name.key@)
                    ==> after.rule_workspace_refusals.contains(
                    RuleWorkspaceRefusal {
                        window_id: windows[k].id,
                        rule_id,
                        workspace: request.text,
                    },
                ))
            },
            Err(_) => true,
        },
{
    reveal(Model::observed);
    reveal(Model::inventory_replaced);
    reveal(Model::unassigned_assigned);
    lemma_targets_seen(m, a, windows, 0, Map::empty(), Seq::empty());
    lemma_resolved_targets(m, a, windows, 0, Map::empty(), Seq::empty(), k, rule_id, request);
    match m.resolved(a, windows, 0, Map::empty(), Seq::empty()) {
        Err(_) => {},
        Ok((seen, next, targets)) => {
            let t = choose|t: int|
                0 <= t < targets.len() && #[trigger] targets[t] == (RuleTarget {
                    window_id: windows[k].id,
                    rule_id,
                    request,
                });
            let managed = next.dom();
            let departed = sorted(seen.inventory.dom()).filter(Model::outside(managed));
            let kept = seen.tracking_kept(managed);
            lemma_all_departed_only(kept, a, departed, 0);
            lemma_departed_names(kept, a, departed, 0);
            match kept.all_departed(a, departed, 0) {
                Err(_) => {},
                Ok(left) => {
                    lemma_memory_kept(left, managed);
                    let replaced = Model { inventory: next, ..left.memory_kept(managed) };
                    lemma_targets_applied(replaced, targets, 0, t);
                    let applied = replaced.targets_applied(targets, 0);
                    let assigned = applied.unassigned_assigned();
                    lemma_hidden_reconciled_only(assigned, a.now_unix);
                    assert forall|j: int| 0 <= j < m.workspaces.list.len() implies (
                    #[trigger] replaced.workspaces.list[j]).name == m.workspaces.list[j].name by {
                        assert(left.workspaces.list[j].name == m.workspaces.list[j].name);
                    }
                    match request.name {
                        NameCheck::Valid(name) => {
                            lemma_spelled(m.workspaces, name, i);
                            crate::laws::steady::lemma_find_same(
                                m.workspaces,
                                replaced.workspaces,
                                name,
                            );
                        },
                        NameCheck::Invalid(_) => {},
                    }
                },
            }
        },
    }
}

/// Windows that leave rename nothing.
proof fn lemma_departed_names(m: Model, a: Answers, ids: Seq<isize>, i: int)
    ensures
        match m.all_departed(a, ids, i) {
            Ok(after) => after.workspaces.list.len() == m.workspaces.list.len() && forall|j: int|
                0 <= j < m.workspaces.list.len() ==> (#[trigger] after.workspaces.list[j]).name
                    == m.workspaces.list[j].name,
            Err(_) => true,
        },
    decreases ids.len() - i,
{
    if i < ids.len() {
        match m.workspaces.workspace_of(ids[i]) {
            Some(name) => {
                lemma_first_index(m.workspaces.list.len(), m.workspaces.named(name.key@));
            },
            None => {},
        }
        match m.departed_from_stash(a, ids[i]) {
            Ok(next) => {
                lemma_departed_names(next, a, ids, i + 1);
                match next.all_departed(a, ids, i + 1) {
                    Ok(after) => {
                        assert forall|j: int| 0 <= j < m.workspaces.list.len() implies (
                        #[trigger] after.workspaces.list[j]).name
                            == m.workspaces.list[j].name by {
                            assert(next.workspaces.list[j].name == m.workspaces.list[j].name);
                        }
                    },
                    Err(_) => {},
                }
            },
            Err(_) => {},
        }
    }
}

} // verus!
