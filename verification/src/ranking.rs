//! Putting things in order by a key.

use vstd::prelude::*;

verus! {

/// Something to be put in order: by `first`, by `second`, by `third`, and by
/// `id` where those agree.
#[derive(Debug, Clone, Copy, PartialEq, Eq, Structural)]
pub struct Ranked {
    pub first: i64,
    pub second: i64,
    pub third: i64,
    pub id: isize,
}

pub open spec fn ranks_before(a: Ranked, b: Ranked) -> bool {
    if a.first != b.first {
        a.first < b.first
    } else if a.second != b.second {
        a.second < b.second
    } else if a.third != b.third {
        a.third < b.third
    } else {
        a.id < b.id
    }
}

fn is_before(a: &Ranked, b: &Ranked) -> (before: bool)
    ensures
        before == ranks_before(*a, *b),
{
    if a.first != b.first {
        a.first < b.first
    } else if a.second != b.second {
        a.second < b.second
    } else if a.third != b.third {
        a.third < b.third
    } else {
        a.id < b.id
    }
}

pub open spec fn in_order(items: Seq<Ranked>) -> bool {
    forall|i: int, j: int| 0 <= i < j < items.len() ==> ranks_before(items[i], items[j])
}

/// `items` in order: the one sequence of them in which each comes before the
/// next.
pub open spec fn ordered(items: Set<Ranked>) -> Seq<Ranked> {
    choose|q: Seq<Ranked>| in_order(q) && q.to_set() == items
}

/// There is only one way to put a set in order.
pub proof fn lemma_order_unique(a: Seq<Ranked>, b: Seq<Ranked>)
    requires
        in_order(a),
        in_order(b),
        a.to_set() == b.to_set(),
    ensures
        a == b,
    decreases a.len(),
{
    if a.len() == 0 {
        if b.len() > 0 {
            assert(b.to_set().contains(b[0]));
            assert(a.to_set().contains(b[0]));
        }
    } else {
        assert(a.to_set().contains(a.last()));
        assert(b.to_set().contains(a.last()));
        let i = choose|i: int| 0 <= i < b.len() && b[i] == a.last();
        assert(b.to_set().contains(b.last()));
        assert(a.to_set().contains(b.last()));
        let j = choose|j: int| 0 <= j < a.len() && a[j] == b.last();
        if i < b.len() - 1 && j < a.len() - 1 {
            assert(ranks_before(b[i], b[b.len() - 1]));
            assert(ranks_before(a[j], a[a.len() - 1]));
        }
        assert(a.last() == b.last());
        let a1 = a.drop_last();
        let b1 = b.drop_last();
        assert forall|x: Ranked| a1.to_set().contains(x) == b1.to_set().contains(x) by {
            if a1.to_set().contains(x) {
                let k = choose|k: int| 0 <= k < a1.len() && a1[k] == x;
                assert(a[k] == x);
                assert(a.to_set().contains(x));
                assert(b.to_set().contains(x));
                let l = choose|l: int| 0 <= l < b.len() && b[l] == x;
                assert(ranks_before(a[k], a.last()));
                assert(l < b.len() - 1);
                assert(b1[l] == x);
            }
            if b1.to_set().contains(x) {
                let k = choose|k: int| 0 <= k < b1.len() && b1[k] == x;
                assert(b[k] == x);
                assert(b.to_set().contains(x));
                assert(a.to_set().contains(x));
                let l = choose|l: int| 0 <= l < a.len() && a[l] == x;
                assert(ranks_before(b[k], b.last()));
                assert(l < a.len() - 1);
                assert(a1[l] == x);
            }
        }
        assert(a1.to_set() =~= b1.to_set());
        lemma_order_unique(a1, b1);
        assert(a =~= a1.push(a.last()));
        assert(b =~= b1.push(b.last()));
    }
}

/// A sequence in order with one more item.
proof fn lemma_ranked_in(q: Seq<Ranked>, item: Ranked) -> (r: Seq<Ranked>)
    requires
        in_order(q),
        !q.contains(item),
    ensures
        in_order(r),
        r.to_set() == q.to_set().insert(item),
    decreases q.len(),
{
    if q.len() == 0 || ranks_before(q.last(), item) {
        let r = q.push(item);
        lemma_ranked_set(q, item);
        assert forall|i: int| 0 <= i < q.len() implies ranks_before(q[i], item) by {
            if i < q.len() - 1 {
                assert(ranks_before(q[i], q[q.len() - 1]));
            }
        }
        r
    } else {
        let rest = q.drop_last();
        assert(q =~= rest.push(q.last()));
        assert(q.contains(q.last()));
        let inner = lemma_ranked_in(rest, item);
        let r = inner.push(q.last());
        lemma_ranked_set(rest, q.last());
        lemma_ranked_set(inner, q.last());
        assert forall|i: int| 0 <= i < inner.len() implies ranks_before(inner[i], q.last()) by {
            assert(inner.to_set().contains(inner[i]));
            if inner[i] != item {
                assert(rest.to_set().contains(inner[i]));
                let k = choose|k: int| 0 <= k < rest.len() && rest[k] == inner[i];
                assert(ranks_before(q[k], q[q.len() - 1]));
            }
        }
        assert(r.to_set() =~= q.to_set().insert(item));
        r
    }
}

proof fn lemma_ranked_set(q: Seq<Ranked>, item: Ranked)
    ensures
        q.push(item).to_set() == q.to_set().insert(item),
{
    let longer = q.push(item);
    assert forall|x: Ranked| longer.to_set().contains(x) == q.to_set().insert(item).contains(x) by {
        if q.contains(x) {
            let k = choose|k: int| 0 <= k < q.len() && q[k] == x;
            assert(longer[k] == x);
        }
        assert(longer[q.len() as int] == item);
    }
    assert(longer.to_set() =~= q.to_set().insert(item));
}

/// A finite set can be put in order, and nothing is lost by it.
pub proof fn lemma_ordered(items: Set<Ranked>)
    requires
        items.finite(),
    ensures
        in_order(ordered(items)),
        ordered(items).to_set() == items,
    decreases items.len(),
{
    if items.len() == 0 {
        let q = Seq::<Ranked>::empty();
        assert(q.to_set() =~= items);
        assert(in_order(q));
    } else {
        let item = items.choose();
        let rest = items.remove(item);
        lemma_ordered(rest);
        assert(!ordered(rest).to_set().contains(item));
        let q = lemma_ranked_in(ordered(rest), item);
        assert(q.to_set() =~= items);
    }
}

/// Puts `items` in order. Repeated items count once.
pub fn sort_ranked(items: &Vec<Ranked>) -> (sorted: Vec<Ranked>)
    ensures
        sorted@ == ordered(items@.to_set()),
        in_order(sorted@),
        sorted@.to_set() == items@.to_set(),
{
    let mut sorted: Vec<Ranked> = Vec::new();
    let mut i: usize = 0;
    assert(items@.take(0).to_set() =~= sorted@.to_set());
    while i < items.len()
        invariant
            i <= items@.len(),
            in_order(sorted@),
            sorted@.to_set() == items@.take(i as int).to_set(),
        decreases items@.len() - i,
    {
        let item = items[i];
        let mut at: usize = 0;
        while at < sorted.len() && is_before(&sorted[at], &item)
            invariant
                at <= sorted@.len(),
                in_order(sorted@),
                forall|k: int| 0 <= k < at ==> ranks_before(#[trigger] sorted@[k], item),
            decreases sorted@.len() - at,
        {
            at += 1;
        }
        let ghost before = sorted@;
        if at < sorted.len() && sorted[at] == item {
            proof {
                assert(before.to_set().contains(item));
            }
        } else {
            sorted.insert(at, item);
            proof {
                assert forall|k: int| at <= k < before.len() implies ranks_before(
                    item,
                    #[trigger] before[k],
                ) by {
                    assert(before[at as int] != item);
                    assert(ranks_before(item, before[at as int]));
                    if k > at {
                        assert(ranks_before(before[at as int], before[k]));
                    }
                }
                assert(in_order(sorted@));
            }
        }
        proof {
            let longer = items@.take(i + 1);
            assert(longer =~= items@.take(i as int).push(item));
            assert forall|x: Ranked| longer.to_set().contains(x) == sorted@.to_set().contains(x) by {
                lemma_contains_push(items@.take(i as int), item, x);
                if sorted@.len() != before.len() {
                    lemma_contains_insert(before, at as int, item, x);
                }
            }
            assert(longer.to_set() =~= sorted@.to_set());
        }
        i += 1;
    }
    proof {
        assert(items@.take(items@.len() as int) =~= items@);
        lemma_order_unique(sorted@, ordered(items@.to_set()));
    }
    sorted
}

proof fn lemma_contains_push(items: Seq<Ranked>, item: Ranked, x: Ranked)
    ensures
        items.push(item).to_set().contains(x) == (items.to_set().contains(x) || x == item),
{
    let longer = items.push(item);
    if items.to_set().contains(x) {
        let k = choose|k: int| 0 <= k < items.len() && items[k] == x;
        assert(longer[k] == x);
    }
    if x == item {
        assert(longer[items.len() as int] == x);
    }
}

proof fn lemma_contains_insert(items: Seq<Ranked>, at: int, item: Ranked, x: Ranked)
    requires
        0 <= at <= items.len(),
    ensures
        items.insert(at, item).to_set().contains(x) == (items.to_set().contains(x) || x == item),
{
    let longer = items.insert(at, item);
    if items.to_set().contains(x) {
        let k = choose|k: int| 0 <= k < items.len() && items[k] == x;
        if k < at {
            assert(longer[k] == x);
        } else {
            assert(longer[k + 1] == x);
        }
    }
    if x == item {
        assert(longer[at] == x);
    }
    if longer.to_set().contains(x) && x != item {
        let k = choose|k: int| 0 <= k < longer.len() && longer[k] == x;
        if k < at {
            assert(items[k] == x);
        } else {
            assert(items[k - 1] == x);
        }
    }
}

} // verus!
