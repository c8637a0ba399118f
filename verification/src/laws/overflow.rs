//! In which order the displays' overflow is noted.
//!
//! A reflow takes up one display after another, drops what was noted of it and
//! notes its overflow anew at the end. So what is noted ends with one block for
//! each display, in the order of the displays, and a second reflow puts the
//! blocks back into that order.

use vstd::prelude::*;

verus! {

use crate::geometry::{DisplayId, WindowId};
use crate::state::{Listed, Model};

/// The windows a display could not fit.
pub open spec fn overflow_of(overflow: Seq<Listed>, display_id: DisplayId) -> Seq<Listed> {
    overflow.filter(|entry: Listed| entry.display_id == display_id)
}

pub proof fn lemma_filter_everything<T>(all: Seq<T>, pred: spec_fn(T) -> bool)
    requires
        forall|i: int| 0 <= i < all.len() ==> pred(#[trigger] all[i]),
    ensures
        all.filter(pred) == all,
    decreases all.len(),
{
    reveal(Seq::filter);
    if all.len() > 0 {
        let rest = all.drop_last();
        assert forall|i: int| 0 <= i < rest.len() implies pred(#[trigger] rest[i]) by {
            assert(rest[i] == all[i]);
        }
        lemma_filter_everything(rest, pred);
        assert(pred(all[all.len() - 1]));
        assert(all =~= rest.push(all.last()));
    }
}

pub proof fn lemma_filter_nothing<T>(all: Seq<T>, pred: spec_fn(T) -> bool)
    requires
        forall|i: int| 0 <= i < all.len() ==> !pred(#[trigger] all[i]),
    ensures
        all.filter(pred) == Seq::<T>::empty(),
    decreases all.len(),
{
    reveal(Seq::filter);
    if all.len() > 0 {
        let rest = all.drop_last();
        assert forall|i: int| 0 <= i < rest.len() implies !pred(#[trigger] rest[i]) by {
            assert(rest[i] == all[i]);
        }
        lemma_filter_nothing(rest, pred);
        assert(!pred(all[all.len() - 1]));
    }
    assert(all.filter(pred) =~= Seq::<T>::empty());
}

/// One filter after another lets through what both do.
pub proof fn lemma_filter_both<T>(
    all: Seq<T>,
    p: spec_fn(T) -> bool,
    q: spec_fn(T) -> bool,
    both: spec_fn(T) -> bool,
)
    requires
        forall|x: T| #[trigger] both(x) == (p(x) && q(x)),
    ensures
        all.filter(p).filter(q) == all.filter(both),
    decreases all.len(),
{
    reveal(Seq::filter);
    if all.len() > 0 {
        let rest = all.drop_last();
        lemma_filter_both(rest, p, q, both);
        assert(both(all.last()) == (p(all.last()) && q(all.last())));
        if p(all.last()) {
            assert(rest.filter(p).push(all.last()).drop_last() =~= rest.filter(p));
        }
    }
}

/// Noting one display's overflow anew leaves that of the others alone.
pub proof fn lemma_overflow_split(
    noted: Seq<Listed>,
    display_id: DisplayId,
    overflow: Seq<WindowId>,
    e: DisplayId,
)
    ensures
        ({
            let mine = Seq::new(
                overflow.len(),
                |i: int| Listed { display_id, window_id: overflow[i] },
            );
            overflow_of(noted.filter(Model::off_display(display_id)) + mine, e) == if e
                == display_id {
                mine
            } else {
                overflow_of(noted, e)
            }
        }),
{
    let off = Model::off_display(display_id);
    let left = noted.filter(off);
    let mine = Seq::new(
        overflow.len(),
        |i: int| Listed { display_id, window_id: overflow[i] },
    );
    let on = |entry: Listed| entry.display_id == e;
    Seq::filter_distributes_over_add(left, mine, on);
    if e == display_id {
        assert forall|i: int| 0 <= i < left.len() implies !on(#[trigger] left[i]) by {
            noted.lemma_filter_pred(off, i);
        }
        lemma_filter_nothing(left, on);
        assert forall|i: int| 0 <= i < mine.len() implies on(#[trigger] mine[i]) by {}
        lemma_filter_everything(mine, on);
        assert(Seq::<Listed>::empty() + mine =~= mine);
    } else {
        lemma_filter_both(noted, off, on, on);
        assert forall|i: int| 0 <= i < mine.len() implies !on(#[trigger] mine[i]) by {}
        lemma_filter_nothing(mine, on);
        assert(noted.filter(on) + Seq::<Listed>::empty() =~= noted.filter(on));
    }
}

/// The overflow of the displays from `lo` up to `hi` that a reflow takes up,
/// display by display.
pub open spec fn blocks(base: Model, noted: Seq<Listed>, lo: int, hi: int) -> Seq<Listed>
    decreases hi - lo,
{
    if lo >= hi {
        Seq::empty()
    } else {
        block(base, noted, lo) + blocks(base, noted, lo + 1, hi)
    }
}

pub open spec fn block(base: Model, noted: Seq<Listed>, k: int) -> Seq<Listed> {
    if base.defers(base.displays[k].id) {
        Seq::empty()
    } else {
        overflow_of(noted, base.displays[k].id)
    }
}

/// Whether a reflow takes up none of the first `n` displays for this entry.
pub open spec fn untaken(base: Model, n: int) -> spec_fn(Listed) -> bool {
    |entry: Listed|
        forall|k: int|
            0 <= k < n && !base.defers((#[trigger] base.displays[k]).id) ==> base.displays[k].id
                != entry.display_id
}

proof fn lemma_blocks_split(base: Model, noted: Seq<Listed>, lo: int, mid: int, hi: int)
    requires
        lo <= mid <= hi,
    ensures
        blocks(base, noted, lo, hi) == blocks(base, noted, lo, mid) + blocks(
            base,
            noted,
            mid,
            hi,
        ),
    decreases mid - lo,
{
    if lo < mid {
        lemma_blocks_split(base, noted, lo + 1, mid, hi);
        assert(blocks(base, noted, lo, hi) =~= blocks(base, noted, lo, mid) + blocks(
            base,
            noted,
            mid,
            hi,
        ));
    } else {
        assert(blocks(base, noted, lo, hi) =~= Seq::<Listed>::empty() + blocks(
            base,
            noted,
            mid,
            hi,
        ));
    }
}

/// Dropping a display's entries drops nothing from the blocks of others.
proof fn lemma_blocks_others(
    base: Model,
    noted: Seq<Listed>,
    lo: int,
    hi: int,
    display_id: DisplayId,
)
    requires
        0 <= lo,
        hi <= base.displays.len(),
        forall|k: int| lo <= k < hi ==> (#[trigger] base.displays[k]).id != display_id,
    ensures
        blocks(base, noted, lo, hi).filter(Model::off_display(display_id)) == blocks(
            base,
            noted,
            lo,
            hi,
        ),
    decreases hi - lo,
{
    let off = Model::off_display(display_id);
    if lo < hi {
        lemma_blocks_others(base, noted, lo + 1, hi, display_id);
        let first = block(base, noted, lo);
        assert(base.displays[lo].id != display_id);
        assert forall|i: int| 0 <= i < first.len() implies off(#[trigger] first[i]) by {
            noted.lemma_filter_pred(
                |entry: Listed| entry.display_id == base.displays[lo].id,
                i,
            );
        }
        lemma_filter_everything(first, off);
        Seq::filter_distributes_over_add(first, blocks(base, noted, lo + 1, hi), off);
    } else {
        lemma_filter_nothing(Seq::<Listed>::empty(), off);
    }
}

proof fn lemma_blocks_same(base: Model, x: Seq<Listed>, y: Seq<Listed>, lo: int, hi: int)
    requires
        forall|k: int|
            lo <= k < hi ==> overflow_of(x, (#[trigger] base.displays[k]).id) == overflow_of(
                y,
                base.displays[k].id,
            ),
    ensures
        blocks(base, x, lo, hi) == blocks(base, y, lo, hi),
    decreases hi - lo,
{
    if lo < hi {
        assert(overflow_of(x, base.displays[lo].id) == overflow_of(y, base.displays[lo].id));
        lemma_blocks_same(base, x, y, lo + 1, hi);
    }
}

/// What is noted before the blocks of the first `n` displays.
pub open spec fn rest_of(base: Model, noted: Seq<Listed>, n: int) -> Seq<Listed> {
    noted.take(noted.len() - blocks(base, noted, 0, n).len())
}

/// What is noted after the first `n` displays were taken up ends with their
/// blocks, in order, and has nothing of them before.
#[verifier::opaque]
pub open spec fn in_blocks(base: Model, noted: Seq<Listed>, n: int) -> bool {
    let end = blocks(base, noted, 0, n);
    &&& end.len() <= noted.len()
    &&& noted.skip(noted.len() - end.len()) == end
    &&& forall|i: int|
        0 <= i < noted.len() - end.len() ==> untaken(base, n)(#[trigger] noted[i])
}

pub proof fn lemma_in_blocks_start(base: Model, noted: Seq<Listed>)
    ensures
        in_blocks(base, noted, 0),
{
    reveal(in_blocks);
    assert(noted.skip(noted.len() as int) =~= Seq::<Listed>::empty());
}

proof fn lemma_one_block(base: Model, noted: Seq<Listed>, n: int)
    ensures
        blocks(base, noted, n, n + 1) == block(base, noted, n),
{
    assert(blocks(base, noted, n + 1, n + 1) =~= Seq::<Listed>::empty());
    assert(blocks(base, noted, n, n + 1) =~= block(base, noted, n));
}

proof fn lemma_untaken_next(base: Model, n: int, entry: Listed)
    requires
        0 <= n < base.displays.len(),
    ensures
        untaken(base, n + 1)(entry) == (untaken(base, n)(entry) && (base.defers(
            base.displays[n].id,
        ) || Model::off_display(base.displays[n].id)(entry))),
{
    let before = untaken(base, n);
    let after = untaken(base, n + 1);
    if before(entry) && (base.defers(base.displays[n].id) || base.displays[n].id
        != entry.display_id) {
        assert forall|k: int|
            0 <= k < n + 1 && !base.defers((#[trigger] base.displays[k]).id) implies
            base.displays[k].id != entry.display_id by {}
        assert(after(entry));
    }
    if after(entry) {
        assert forall|k: int|
            0 <= k < n && !base.defers((#[trigger] base.displays[k]).id) implies
            base.displays[k].id != entry.display_id by {}
        assert(before(entry));
        assert(!base.defers(base.displays[n].id) ==> base.displays[n].id != entry.display_id);
    }
}

/// A display that waits leaves the blocks as they are.
pub proof fn lemma_in_blocks_deferred(base: Model, noted: Seq<Listed>, n: int)
    requires
        in_blocks(base, noted, n),
        0 <= n < base.displays.len(),
        base.defers(base.displays[n].id),
    ensures
        in_blocks(base, noted, n + 1),
{
    reveal(in_blocks);
    lemma_blocks_split(base, noted, 0, n, n + 1);
    lemma_one_block(base, noted, n);
    let earlier = blocks(base, noted, 0, n);
    assert(earlier + Seq::<Listed>::empty() =~= earlier);
    assert forall|i: int| 0 <= i < noted.len() - earlier.len() implies untaken(base, n + 1)(
        #[trigger] noted[i],
    ) by {
        lemma_untaken_next(base, n, noted[i]);
        assert(untaken(base, n)(noted[i]));
    }
}

/// What is left when what `off` keeps out is dropped from `rest + earlier`.
proof fn lemma_dropped(
    rest: Seq<Listed>,
    earlier: Seq<Listed>,
    mine: Seq<Listed>,
    off: spec_fn(Listed) -> bool,
)
    requires
        earlier.filter(off) == earlier,
    ensures
        (rest + earlier).filter(off) + mine == rest.filter(off) + (earlier + mine),
{
    Seq::filter_distributes_over_add(rest, earlier, off);
    assert(rest.filter(off) + earlier + mine =~= rest.filter(off) + (earlier + mine));
}

/// What ends with the blocks and has nothing of them before is in blocks.
proof fn lemma_in_blocks_made(
    base: Model,
    noted: Seq<Listed>,
    left: Seq<Listed>,
    end: Seq<Listed>,
    n: int,
)
    requires
        noted == left + end,
        end == blocks(base, noted, 0, n),
        forall|i: int| 0 <= i < left.len() ==> untaken(base, n)(#[trigger] left[i]),
    ensures
        in_blocks(base, noted, n),
{
    reveal(in_blocks);
    assert(noted.skip(left.len() as int) =~= end);
    assert forall|i: int| 0 <= i < left.len() implies untaken(base, n)(#[trigger] noted[i]) by {
        assert(noted[i] == left[i]);
    }
}

proof fn lemma_left_untaken(base: Model, noted: Seq<Listed>, n: int)
    requires
        in_blocks(base, noted, n),
        0 <= n < base.displays.len(),
    ensures
        forall|i: int|
            0 <= i < rest_of(base, noted, n).filter(
                Model::off_display(base.displays[n].id),
            ).len() ==> untaken(base, n + 1)(
                #[trigger] rest_of(base, noted, n).filter(
                    Model::off_display(base.displays[n].id),
                )[i],
            ),
{
    reveal(in_blocks);
    let off = Model::off_display(base.displays[n].id);
    let rest = rest_of(base, noted, n);
    let left = rest.filter(off);
    assert forall|i: int| 0 <= i < left.len() implies untaken(base, n + 1)(#[trigger] left[i]) by {
        rest.lemma_filter_pred(off, i);
        rest.lemma_filter_contains_rev(off, left[i]);
        let k = choose|k: int| 0 <= k < rest.len() && rest[k] == left[i];
        assert(noted[k] == left[i]);
        assert(untaken(base, n)(noted[k]));
        lemma_untaken_next(base, n, left[i]);
    }
}

/// A display taken up puts its block behind those before it.
pub proof fn lemma_in_blocks_next(
    base: Model,
    noted: Seq<Listed>,
    next: Seq<Listed>,
    n: int,
    overflow: Seq<WindowId>,
)
    requires
        in_blocks(base, noted, n),
        0 <= n < base.displays.len(),
        !base.defers(base.displays[n].id),
        forall|k: int| 0 <= k < n ==> (#[trigger] base.displays[k]).id != base.displays[n].id,
        next == noted.filter(Model::off_display(base.displays[n].id)) + Seq::new(
            overflow.len(),
            |i: int| Listed { display_id: base.displays[n].id, window_id: overflow[i] },
        ),
    ensures
        in_blocks(base, next, n + 1),
{
    reveal(in_blocks);
    let d = base.displays[n].id;
    let off = Model::off_display(d);
    let mine = Seq::new(
        overflow.len(),
        |i: int| Listed { display_id: d, window_id: overflow[i] },
    );
    let earlier = blocks(base, noted, 0, n);
    let rest = rest_of(base, noted, n);
    let left = rest.filter(off);
    lemma_next_blocks(base, noted, next, n, overflow);
    assert(noted =~= rest + earlier);
    lemma_blocks_others(base, noted, 0, n, d);
    lemma_dropped(rest, earlier, mine, off);
    lemma_left_untaken(base, noted, n);
    lemma_in_blocks_made(base, next, left, earlier + mine, n + 1);
}

proof fn lemma_next_blocks(
    base: Model,
    noted: Seq<Listed>,
    next: Seq<Listed>,
    n: int,
    overflow: Seq<WindowId>,
)
    requires
        0 <= n < base.displays.len(),
        !base.defers(base.displays[n].id),
        forall|k: int| 0 <= k < n ==> (#[trigger] base.displays[k]).id != base.displays[n].id,
        next == noted.filter(Model::off_display(base.displays[n].id)) + Seq::new(
            overflow.len(),
            |i: int| Listed { display_id: base.displays[n].id, window_id: overflow[i] },
        ),
    ensures
        blocks(base, next, 0, n + 1) == blocks(base, noted, 0, n) + Seq::new(
            overflow.len(),
            |i: int| Listed { display_id: base.displays[n].id, window_id: overflow[i] },
        ),
{
    let d = base.displays[n].id;
    assert forall|k: int| 0 <= k < n implies overflow_of(
        next,
        (#[trigger] base.displays[k]).id,
    ) == overflow_of(noted, base.displays[k].id) by {
        lemma_overflow_split(noted, d, overflow, base.displays[k].id);
    }
    lemma_blocks_same(base, next, noted, 0, n);
    lemma_overflow_split(noted, d, overflow, d);
    lemma_blocks_split(base, next, 0, n, n + 1);
    lemma_one_block(base, next, n);
}

/// What is noted on the way through a second reflow: the blocks of the first
/// `n` displays have gone behind the others.
#[verifier::opaque]
pub open spec fn turned(base: Model, noted: Seq<Listed>, n: int) -> Seq<Listed> {
    let end = base.displays.len() as int;
    rest_of(base, noted, end) + blocks(base, noted, n, end) + blocks(base, noted, 0, n)
}

pub proof fn lemma_turned_ends(base: Model, noted: Seq<Listed>)
    requires
        in_blocks(base, noted, base.displays.len() as int),
    ensures
        turned(base, noted, 0) == noted,
        turned(base, noted, base.displays.len() as int) == noted,
{
    reveal(in_blocks);
    reveal(turned);
    assert(turned(base, noted, 0) =~= noted);
    assert(turned(base, noted, base.displays.len() as int) =~= noted);
}

pub proof fn lemma_turned_deferred(base: Model, noted: Seq<Listed>, n: int)
    requires
        0 <= n < base.displays.len(),
        base.defers(base.displays[n].id),
    ensures
        turned(base, noted, n + 1) == turned(base, noted, n),
{
    reveal(turned);
    lemma_blocks_split(base, noted, 0, n, n + 1);
    lemma_one_block(base, noted, n);
    assert(turned(base, noted, n + 1) =~= turned(base, noted, n));
}

/// Taking up display `n` again puts its block behind those before it.
pub proof fn lemma_turned_next(base: Model, noted: Seq<Listed>, n: int)
    requires
        in_blocks(base, noted, base.displays.len() as int),
        0 <= n < base.displays.len(),
        !base.defers(base.displays[n].id),
        forall|k: int|
            0 <= k < base.displays.len() && k != n ==> (#[trigger] base.displays[k]).id
                != base.displays[n].id,
    ensures
        turned(base, noted, n + 1) == turned(base, noted, n).filter(
            Model::off_display(base.displays[n].id),
        ) + overflow_of(noted, base.displays[n].id),
{
    reveal(in_blocks);
    reveal(turned);
    let d = base.displays[n].id;
    let end = base.displays.len() as int;
    let off = Model::off_display(d);
    let free = untaken(base, end);
    let rest = rest_of(base, noted, end);
    let mine = overflow_of(noted, d);
    let later = blocks(base, noted, n + 1, end);
    let earlier = blocks(base, noted, 0, n);
    assert forall|i: int| 0 <= i < rest.len() implies off(#[trigger] rest[i]) by {
        assert(rest[i] == noted[i]);
        assert(free(noted[i]));
        assert(base.displays[n].id != rest[i].display_id);
    }
    lemma_filter_everything(rest, off);
    assert forall|i: int| 0 <= i < mine.len() implies !off(#[trigger] mine[i]) by {
        noted.lemma_filter_pred(|entry: Listed| entry.display_id == d, i);
    }
    lemma_filter_nothing(mine, off);
    lemma_blocks_others(base, noted, n + 1, end, d);
    lemma_blocks_others(base, noted, 0, n, d);
    assert(blocks(base, noted, n, end) == mine + later);
    Seq::filter_distributes_over_add(mine, later, off);
    Seq::filter_distributes_over_add(rest, mine + later, off);
    Seq::filter_distributes_over_add(rest + (mine + later), earlier, off);
    assert(turned(base, noted, n).filter(off) =~= rest + later + earlier);
    lemma_blocks_split(base, noted, 0, n, n + 1);
    lemma_one_block(base, noted, n);
    assert(turned(base, noted, n + 1) =~= (rest + later + earlier) + mine);
}

} // verus!
