//! An ordered table keyed by native handles.

use vstd::prelude::*;

verus! {

/// Strictly ascending numbers.
pub open spec fn ascending(ids: Seq<isize>) -> bool {
    forall|i: int, j: int| 0 <= i < j < ids.len() ==> ids[i] < ids[j]
}

/// The members of a finite set, smallest first.
pub open spec fn sorted(ids: Set<isize>) -> Seq<isize> {
    choose|q: Seq<isize>| ascending(q) && q.to_set() == ids
}

/// Two ascending sequences over one set are the same sequence.
pub proof fn lemma_ascending_unique(a: Seq<isize>, b: Seq<isize>)
    requires
        ascending(a),
        ascending(b),
        a.to_set() == b.to_set(),
    ensures
        a == b,
    decreases a.len(),
{
    if a.len() == 0 {
        if b.len() > 0 {
            assert(b.to_set().contains(b[0]));
            assert(a.to_set().contains(b[0]));
        }
    } else {
        assert(a.to_set().contains(a.last()));
        assert(b.to_set().contains(a.last()));
        let i = choose|i: int| 0 <= i < b.len() && b[i] == a.last();
        assert(b.to_set().contains(b.last()));
        assert(a.to_set().contains(b.last()));
        let j = choose|j: int| 0 <= j < a.len() && a[j] == b.last();
        assert(a.last() == b.last());
        let a1 = a.drop_last();
        let b1 = b.drop_last();
        assert forall|x: isize| a1.to_set().contains(x) == b1.to_set().contains(x) by {
            if a1.to_set().contains(x) {
                let k = choose|k: int| 0 <= k < a1.len() && a1[k] == x;
                assert(a[k] == x);
                assert(a.to_set().contains(x));
                assert(b.to_set().contains(x));
                let l = choose|l: int| 0 <= l < b.len() && b[l] == x;
                assert(l < b.len() - 1);
                assert(b1[l] == x);
            }
            if b1.to_set().contains(x) {
                let k = choose|k: int| 0 <= k < b1.len() && b1[k] == x;
                assert(b[k] == x);
                assert(b.to_set().contains(x));
                assert(a.to_set().contains(x));
                let l = choose|l: int| 0 <= l < a.len() && a[l] == x;
                assert(l < a.len() - 1);
                assert(a1[l] == x);
            }
        }
        assert(a1.to_set() =~= b1.to_set());
        lemma_ascending_unique(a1, b1);
        assert(a =~= a1.push(a.last()));
        assert(b =~= b1.push(b.last()));
    }
}

/// An ascending sequence is what its set sorts to.
pub proof fn lemma_sorted_is(q: Seq<isize>, ids: Set<isize>)
    requires
        ascending(q),
        q.to_set() == ids,
    ensures
        sorted(ids) == q,
{
    lemma_ascending_unique(q, sorted(ids));
}

/// An ascending sequence with one more member.
proof fn lemma_inserted(q: Seq<isize>, id: isize) -> (r: Seq<isize>)
    requires
        ascending(q),
        !q.contains(id),
    ensures
        ascending(r),
        r.to_set() == q.to_set().insert(id),
    decreases q.len(),
{
    if q.len() == 0 || q.last() < id {
        let r = q.push(id);
        lemma_push_to_set(q, id);
        r
    } else {
        let rest = q.drop_last();
        assert(q =~= rest.push(q.last()));
        assert(q.contains(q.last()));
        let inner = lemma_inserted(rest, id);
        let r = inner.push(q.last());
        lemma_push_to_set(rest, q.last());
        lemma_push_to_set(inner, q.last());
        assert forall|i: int| 0 <= i < inner.len() implies inner[i] < q.last() by {
            assert(inner.to_set().contains(inner[i]));
            if inner[i] != id {
                assert(rest.to_set().contains(inner[i]));
                let k = choose|k: int| 0 <= k < rest.len() && rest[k] == inner[i];
                assert(q[k] < q[q.len() - 1]);
            }
        }
        assert(r.to_set() =~= q.to_set().insert(id));
        r
    }
}

/// A finite set sorts to its members, smallest first.
pub proof fn lemma_sorted(ids: Set<isize>)
    requires
        ids.finite(),
    ensures
        ascending(sorted(ids)),
        sorted(ids).to_set() == ids,
    decreases ids.len(),
{
    if ids.len() == 0 {
        let q = Seq::<isize>::empty();
        assert(q.to_set() =~= ids);
        lemma_sorted_is(q, ids);
    } else {
        let id = ids.choose();
        let rest = ids.remove(id);
        lemma_sorted(rest);
        assert(!rest.contains(id));
        assert(!sorted(rest).to_set().contains(id));
        let q = lemma_inserted(sorted(rest), id);
        assert(q.to_set() =~= ids);
        lemma_sorted_is(q, ids);
    }
}

/// A map from native handles, kept in ascending handle order so walking it
/// never depends on how it was filled.
#[derive(Debug, PartialEq)]
pub struct Table<V> {
    entries: Vec<(isize, V)>,
}

spec fn keys_of<V>(entries: Seq<(isize, V)>) -> Seq<isize> {
    entries.map_values(|entry: (isize, V)| entry.0)
}

impl<V> View for Table<V> {
    type V = Map<isize, V>;

    closed spec fn view(&self) -> Map<isize, V> {
        Map::new(
            |k: isize| keys_of(self.entries@).contains(k),
            |k: isize| self.entries@[keys_of(self.entries@).index_of(k)].1,
        )
    }
}

impl<V> Table<V> {
    #[verifier::type_invariant]
    spec fn well_formed(&self) -> bool {
        forall|i: int, j: int|
            0 <= i < j < self.entries@.len() ==> self.entries@[i].0 < self.entries@[j].0
    }

    proof fn lemma_entry(&self, i: int)
        requires
            self.well_formed(),
            0 <= i < self.entries@.len(),
        ensures
            self@.contains_key(self.entries@[i].0),
            self@[self.entries@[i].0] == self.entries@[i].1,
    {
        let keys = keys_of(self.entries@);
        let k = self.entries@[i].0;
        assert(keys[i] == k);
        assert(keys.contains(k));
        let j = keys.index_of(k);
        assert(0 <= j < keys.len() && keys[j] == k);
    }

    proof fn lemma_present(&self, key: isize) -> (at: int)
        requires
            self.well_formed(),
            self@.contains_key(key),
        ensures
            0 <= at < self.entries@.len(),
            self.entries@[at].0 == key,
            self.entries@[at].1 == self@[key],
    {
        let keys = keys_of(self.entries@);
        let at = keys.index_of(key);
        assert(0 <= at < keys.len() && keys[at] == key);
        self.lemma_entry(at);
        at
    }

    proof fn lemma_dom(&self)
        requires
            self.well_formed(),
        ensures
            self@.dom() == keys_of(self.entries@).to_set(),
            ascending(keys_of(self.entries@)),
            sorted(self@.dom()) == keys_of(self.entries@),
            self@.dom().finite(),
            self@.dom().len() == self.entries@.len(),
    {
        let keys = keys_of(self.entries@);
        assert(self@.dom() =~= keys.to_set());
        lemma_sorted_is(keys, self@.dom());
        assert(keys.no_duplicates());
        keys.unique_seq_to_set();
    }

    pub fn new() -> (table: Table<V>)
        ensures
            table@ == Map::<isize, V>::empty(),
    {
        let table = Table { entries: Vec::new() };
        assert(table@ =~= Map::<isize, V>::empty());
        table
    }

    /// The first position whose key is not below `key`.
    fn position(&self, key: isize) -> (at: usize)
        ensures
            at <= self.entries@.len(),
            forall|i: int| 0 <= i < at ==> self.entries@[i].0 < key,
            forall|i: int| at <= i < self.entries@.len() ==> self.entries@[i].0 >= key,
    {
        proof {
            use_type_invariant(self);
        }
        let mut at: usize = 0;
        while at < self.entries.len() && self.entries[at].0 < key
            invariant
                self.well_formed(),
                at <= self.entries@.len(),
                forall|i: int| 0 <= i < at ==> self.entries@[i].0 < key,
            decreases self.entries@.len() - at,
        {
            at += 1;
        }
        at
    }

    pub fn len(&self) -> (n: usize)
        ensures
            n == self@.dom().len(),
            self@.dom().finite(),
    {
        proof {
            use_type_invariant(self);
            self.lemma_dom();
        }
        self.entries.len()
    }

    pub fn is_empty(&self) -> (empty: bool)
        ensures
            empty == (self@ == Map::<isize, V>::empty()),
    {
        proof {
            use_type_invariant(self);
            self.lemma_dom();
            if self.entries@.len() > 0 {
                self.lemma_entry(0);
            } else {
                assert(self@ =~= Map::<isize, V>::empty());
            }
        }
        self.entries.len() == 0
    }

    pub fn get(&self, key: isize) -> (value: Option<&V>)
        ensures
            match value {
                Some(v) => self@.contains_key(key) && *v == self@[key],
                None => !self@.contains_key(key),
            },
    {
        proof {
            use_type_invariant(self);
        }
        let at = self.position(key);
        if at < self.entries.len() && self.entries[at].0 == key {
            proof {
                self.lemma_entry(at as int);
            }
            Some(&self.entries[at].1)
        } else {
            proof {
                if self@.contains_key(key) {
                    let i = self.lemma_present(key);
                }
            }
            None
        }
    }

    pub fn contains_key(&self, key: isize) -> (present: bool)
        ensures
            present == self@.contains_key(key),
    {
        match self.get(key) {
            Some(_) => true,
            None => false,
        }
    }

    /// Every key, smallest first.
    pub fn keys(&self) -> (keys: Vec<isize>)
        ensures
            keys@ == sorted(self@.dom()),
            ascending(keys@),
            keys@.to_set() == self@.dom(),
    {
        proof {
            use_type_invariant(self);
            self.lemma_dom();
        }
        let mut keys: Vec<isize> = Vec::new();
        let mut i: usize = 0;
        while i < self.entries.len()
            invariant
                i <= self.entries@.len(),
                keys@ == keys_of(self.entries@).take(i as int),
            decreases self.entries@.len() - i,
        {
            keys.push(self.entries[i].0);
            i += 1;
        }
        assert(keys@ =~= keys_of(self.entries@));
        keys
    }

    /// Sets the value at `key`.
    pub fn insert(&mut self, key: isize, value: V)
        ensures
            final(self)@ == old(self)@.insert(key, value),
    {
        proof {
            use_type_invariant(&*self);
        }
        let at = self.position(key);
        let ghost before = *self;
        let present = at < self.entries.len() && self.entries[at].0 == key;
        let mut taken = Table::new();
        std::mem::swap(self, &mut taken);
        let mut entries = taken.entries;
        if present {
            entries.set(at, (key, value));
        } else {
            entries.insert(at, (key, value));
        }
        *self = Table { entries };
        proof {
            use_type_invariant(&*self);
            assert(self.entries@[at as int] == (key, value));
            self.lemma_entry(at as int);
            let after = before@.insert(key, value);
            assert forall|k: isize| #[trigger]
                self@.dom().contains(k) == after.dom().contains(k) && (self@.dom().contains(k)
                    ==> self@[k] == after[k]) by {
                if k != key && self@.contains_key(k) {
                    let i = self.lemma_present(k);
                    let j = if i < at {
                        i
                    } else if self.entries@.len() == before.entries@.len() {
                        i
                    } else {
                        i - 1
                    };
                    assert(before.entries@[j] == self.entries@[i]);
                    before.lemma_entry(j);
                }
                if k != key && before@.contains_key(k) {
                    let j = before.lemma_present(k);
                    let i = if j < at || self.entries@.len() == before.entries@.len() {
                        j
                    } else {
                        j + 1
                    };
                    assert(before.entries@[j] == self.entries@[i]);
                    self.lemma_entry(i);
                }
            }
            assert(self@ =~= after);
        }
    }

    /// Takes the value at `key` out.
    pub fn remove(&mut self, key: isize) -> (value: Option<V>)
        ensures
            final(self)@ == old(self)@.remove(key),
            match value {
                Some(v) => old(self)@.contains_key(key) && v == old(self)@[key],
                None => !old(self)@.contains_key(key),
            },
    {
        proof {
            use_type_invariant(&*self);
        }
        let at = self.position(key);
        let ghost before = *self;
        if at < self.entries.len() && self.entries[at].0 == key {
            let mut taken = Table::new();
            std::mem::swap(self, &mut taken);
            let mut entries = taken.entries;
            let (_, value) = entries.remove(at);
            *self = Table { entries };
            proof {
                before.lemma_entry(at as int);
                use_type_invariant(&*self);
                let after = before@.remove(key);
                assert forall|k: isize| #[trigger]
                    self@.dom().contains(k) == after.dom().contains(k) && (self@.dom().contains(k)
                        ==> self@[k] == after[k]) by {
                    if self@.contains_key(k) {
                        let i = self.lemma_present(k);
                        let j = if i < at {
                            i
                        } else {
                            i + 1
                        };
                        assert(before.entries@[j] == self.entries@[i]);
                        before.lemma_entry(j);
                    }
                    if k != key && before@.contains_key(k) {
                        let j = before.lemma_present(k);
                        let i = if j < at {
                            j
                        } else {
                            j - 1
                        };
                        assert(before.entries@[j] == self.entries@[i]);
                        self.lemma_entry(i);
                    }
                }
                assert(self@ =~= after);
            }
            Some(value)
        } else {
            proof {
                if self@.contains_key(key) {
                    let i = self.lemma_present(key);
                }
                assert(self@ =~= before@.remove(key));
            }
            None
        }
    }
}

impl<V> Table<V> {
    /// The keys as a set.
    pub fn ids(&self) -> (ids: IdSet)
        ensures
            ids@ == self@.dom(),
    {
        let keys = self.keys();
        let mut ids = IdSet::new();
        let mut i: usize = 0;
        while i < keys.len()
            invariant
                i <= keys@.len(),
                ids@ == keys@.take(i as int).to_set(),
            decreases keys@.len() - i,
        {
            ids.insert(keys[i]);
            proof {
                let shorter = keys@.take(i as int);
                let longer = keys@.take(i + 1);
                assert(longer =~= shorter.push(keys@[i as int]));
                lemma_push_to_set(shorter, keys@[i as int]);
            }
            i += 1;
        }
        assert(keys@.take(keys@.len() as int) =~= keys@);
        ids
    }

    /// Keeps only the entries whose key is in `keep`.
    pub fn retain(&mut self, keep: &IdSet)
        ensures
            final(self)@ == old(self)@.restrict(keep@),
    {
        let keys = self.keys();
        let mut i: usize = 0;
        while i < keys.len()
            invariant
                i <= keys@.len(),
                keys@.to_set() == old(self)@.dom(),
                self@ == old(self)@.remove_keys(
                    keys@.take(i as int).to_set().difference(keep@),
                ),
            decreases keys@.len() - i,
        {
            let ghost before = self@;
            let kept = keep.contains(keys[i]);
            if !kept {
                self.remove(keys[i]);
            }
            proof {
                let shorter = keys@.take(i as int);
                let longer = keys@.take(i + 1);
                assert(longer =~= shorter.push(keys@[i as int]));
                lemma_push_to_set(shorter, keys@[i as int]);
                if kept {
                    assert(longer.to_set().difference(keep@) =~= shorter.to_set().difference(keep@));
                } else {
                    assert(longer.to_set().difference(keep@) =~= shorter.to_set().difference(
                        keep@,
                    ).insert(keys@[i as int]));
                }
                assert(self@ =~= old(self)@.remove_keys(longer.to_set().difference(keep@)));
            }
            i += 1;
        }
        proof {
            assert(keys@.take(keys@.len() as int) =~= keys@);
            assert(self@ =~= old(self)@.restrict(keep@));
        }
    }

    /// Drops every entry.
    pub fn clear(&mut self)
        ensures
            final(self)@ == Map::<isize, V>::empty(),
    {
        *self = Table::new();
    }
}

impl<V: Clone> Clone for Table<V> {
    fn clone(&self) -> (copy: Table<V>)
        ensures
            copy@.dom() == self@.dom(),
            forall|k: isize| #[trigger] self@.contains_key(k) ==> cloned(self@[k], copy@[k]),
    {
        let keys = self.keys();
        let mut copy: Table<V> = Table::new();
        let mut i: usize = 0;
        while i < keys.len()
            invariant
                i <= keys@.len(),
                ascending(keys@),
                keys@.to_set() == self@.dom(),
                copy@.dom() == keys@.take(i as int).to_set(),
                forall|k: isize| #[trigger] copy@.contains_key(k) ==> cloned(self@[k], copy@[k]),
            decreases keys@.len() - i,
        {
            assert(keys@.to_set().contains(keys@[i as int]));
            match self.get(keys[i]) {
                Some(value) => {
                    copy.insert(keys[i], value.clone());
                },
                None => {},
            }
            proof {
                let shorter = keys@.take(i as int);
                let longer = keys@.take(i + 1);
                assert(longer =~= shorter.push(keys@[i as int]));
                lemma_push_to_set(shorter, keys@[i as int]);
                assert(copy@.dom() =~= longer.to_set());
            }
            i += 1;
        }
        assert(keys@.take(keys@.len() as int) =~= keys@);
        copy
    }
}

/// A set of native handles.
#[derive(Debug, PartialEq)]
pub struct IdSet {
    table: Table<()>,
}

impl View for IdSet {
    type V = Set<isize>;

    closed spec fn view(&self) -> Set<isize> {
        self.table@.dom()
    }
}

impl IdSet {
    pub fn new() -> (ids: IdSet)
        ensures
            ids@ == Set::<isize>::empty(),
    {
        let ids = IdSet { table: Table::new() };
        assert(ids@ =~= Set::<isize>::empty());
        ids
    }

    pub fn contains(&self, id: isize) -> (present: bool)
        ensures
            present == self@.contains(id),
    {
        self.table.contains_key(id)
    }

    pub fn insert(&mut self, id: isize)
        ensures
            final(self)@ == old(self)@.insert(id),
    {
        self.table.insert(id, ());
        assert(self@ =~= old(self)@.insert(id));
    }

    pub fn remove(&mut self, id: isize)
        ensures
            final(self)@ == old(self)@.remove(id),
    {
        self.table.remove(id);
        assert(self@ =~= old(self)@.remove(id));
    }

    /// Keeps only the members that are in `keep`.
    pub fn retain(&mut self, keep: &IdSet)
        ensures
            final(self)@ == old(self)@.intersect(keep@),
    {
        self.table.retain(keep);
        assert(self@ =~= old(self)@.intersect(keep@));
    }

    pub fn clear(&mut self)
        ensures
            final(self)@ == Set::<isize>::empty(),
    {
        self.table.clear();
        assert(self@ =~= Set::<isize>::empty());
    }

    pub fn is_empty(&self) -> (empty: bool)
        ensures
            empty == (self@ == Set::<isize>::empty()),
    {
        let empty = self.table.is_empty();
        proof {
            if empty {
                assert(self@ =~= Set::<isize>::empty());
            } else if self@ == Set::<isize>::empty() {
                assert(self.table@ =~= Map::<isize, ()>::empty());
            }
        }
        empty
    }

    /// Every member, smallest first.
    pub fn members(&self) -> (ids: Vec<isize>)
        ensures
            ids@ == sorted(self@),
            ascending(ids@),
            ids@.to_set() == self@,
    {
        self.table.keys()
    }
}

impl Clone for IdSet {
    fn clone(&self) -> (copy: IdSet)
        ensures
            copy@ == self@,
    {
        IdSet { table: self.table.clone() }
    }
}

proof fn lemma_push_to_set(ids: Seq<isize>, id: isize)
    ensures
        ids.push(id).to_set() == ids.to_set().insert(id),
{
    let longer = ids.push(id);
    assert forall|x: isize| longer.to_set().contains(x) == ids.to_set().insert(id).contains(x) by {
        if ids.to_set().contains(x) {
            let k = choose|k: int| 0 <= k < ids.len() && ids[k] == x;
            assert(longer[k] == x);
        }
        if x == id {
            assert(longer[ids.len() as int] == x);
        }
    }
    assert(longer.to_set() =~= ids.to_set().insert(id));
}

} // verus!
