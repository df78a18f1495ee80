//! The in-memory value store: a mapping from byte-string keys to values
//! with an optional absolute expiry, with lazy eviction of expired keys on
//! point reads.
//!
//! The store is modelled as the sequence of its (key, item) pairs in
//! insertion order; `mem_lookup`, `mem_set` and `mem_remove` give the
//! mathematical meaning of each operation.

use vstd::prelude::*;

verus! {

/// One stored value: the payload bytes and an optional absolute expiry
/// given in milliseconds since the Unix epoch.
pub struct DataItem {
    pub data: Vec<u8>,
    pub expiry: Option<u64>,
}

/// The mathematical model of a stored value.
pub struct ItemModel {
    pub data: Seq<u8>,
    pub expiry: Option<u64>,
}

impl View for DataItem {
    type V = ItemModel;

    open spec fn view(&self) -> ItemModel {
        ItemModel { data: self.data@, expiry: self.expiry }
    }
}

impl DataItem {
    /// An owned copy with the same payload and expiry.
    pub fn duplicate(&self) -> (r: DataItem)
        ensures
            r@ == self@,
    {
        DataItem { data: vstd::slice::slice_to_vec(self.data.as_slice()), expiry: self.expiry }
    }
}

/// First match wins; the well-formedness invariant keeps keys unique, so
/// the order of the matches never shows.
pub open spec fn mem_lookup(mem: Seq<(Seq<u8>, ItemModel)>, k: Seq<u8>) -> Option<ItemModel>
    decreases mem.len(),
{
    if mem.len() == 0 {
        None
    } else if mem[0].0 == k {
        Some(mem[0].1)
    } else {
        mem_lookup(mem.drop_first(), k)
    }
}

/// Overwrites the first pair holding `k` in place, or appends a new pair.
pub open spec fn mem_set(
    mem: Seq<(Seq<u8>, ItemModel)>,
    k: Seq<u8>,
    v: ItemModel,
) -> Seq<(Seq<u8>, ItemModel)>
    decreases mem.len(),
{
    if mem.len() == 0 {
        seq![(k, v)]
    } else if mem[0].0 == k {
        seq![(k, v)] + mem.drop_first()
    } else {
        seq![mem[0]] + mem_set(mem.drop_first(), k, v)
    }
}

/// Drops the first pair holding `k`, if any.
pub open spec fn mem_remove(
    mem: Seq<(Seq<u8>, ItemModel)>,
    k: Seq<u8>,
) -> Seq<(Seq<u8>, ItemModel)>
    decreases mem.len(),
{
    if mem.len() == 0 {
        mem
    } else if mem[0].0 == k {
        mem.drop_first()
    } else {
        seq![mem[0]] + mem_remove(mem.drop_first(), k)
    }
}

/// The keys of the store, in insertion order.
pub open spec fn mem_keys(mem: Seq<(Seq<u8>, ItemModel)>) -> Seq<Seq<u8>> {
    mem.map_values(|p: (Seq<u8>, ItemModel)| p.0)
}

/// No key appears under two pairs.
pub open spec fn keys_distinct(mem: Seq<(Seq<u8>, ItemModel)>) -> bool {
    forall|a: int, b: int| 0 <= a < b < mem.len() ==> mem[a].0 != mem[b].0
}

/// An item is live at `now` when it has no expiry or its expiry has not
/// yet passed; an expiry strictly in the past makes it expired.
pub open spec fn item_live(item: ItemModel, now: u64) -> bool {
    match item.expiry {
        None => true,
        Some(e) => e >= now,
    }
}

/// What a point read at time `now` returns.
pub open spec fn get_result(
    mem: Seq<(Seq<u8>, ItemModel)>,
    k: Seq<u8>,
    now: u64,
) -> Option<ItemModel> {
    match mem_lookup(mem, k) {
        None => None,
        Some(item) => if item_live(item, now) {
            Some(item)
        } else {
            None
        },
    }
}

/// The store left behind by a point read at time `now`: unchanged, unless
/// the key was present and expired, in which case it has been evicted.
pub open spec fn get_state(
    mem: Seq<(Seq<u8>, ItemModel)>,
    k: Seq<u8>,
    now: u64,
) -> Seq<(Seq<u8>, ItemModel)> {
    match mem_lookup(mem, k) {
        None => mem,
        Some(item) => if item_live(item, now) {
            mem
        } else {
            mem_remove(mem, k)
        },
    }
}

/// The mapping from keys to values with optional expiry. Keys are unique;
/// iteration order is insertion order.
pub struct DataStore {
    pub memory: Vec<(Vec<u8>, DataItem)>,
}

impl View for DataStore {
    type V = Seq<(Seq<u8>, ItemModel)>;

    open spec fn view(&self) -> Seq<(Seq<u8>, ItemModel)> {
        self.memory@.map_values(|p: (Vec<u8>, DataItem)| (p.0@, p.1@))
    }
}

impl DataStore {
    /// Keys are pairwise distinct.
    pub open spec fn wf(&self) -> bool {
        keys_distinct(self@)
    }

    /// An empty store.
    pub fn new() -> (r: DataStore)
        ensures
            r@ =~= Seq::<(Seq<u8>, ItemModel)>::empty(),
            r.wf(),
    {
        DataStore { memory: Vec::new() }
    }

    /// The position of the pair holding `key`, if any.
    fn find(&self, key: &Vec<u8>) -> (r: Option<usize>)
        ensures
            match r {
                Some(i) => i < self@.len() && self@[i as int].0 == key@
                    && forall|j: int| 0 <= j < i ==> self@[j].0 != key@,
                None => forall|j: int| 0 <= j < self@.len() ==> self@[j].0 != key@,
            },
    {
        let mut i: usize = 0;
        while i < self.memory.len()
            invariant
                i <= self@.len(),
                self@.len() == self.memory@.len(),
                forall|j: int| 0 <= j < i ==> self@[j].0 != key@,
            decreases self.memory.len() - i,
        {
            if crate::bytes_util::bytes_eq(&self.memory[i].0, key) {
                return Some(i);
            }
            i = i + 1;
        }
        None
    }

    /// Unconditional overwrite: no merge, no expiry check.
    pub fn set(&mut self, key: Vec<u8>, value: DataItem)
        requires
            old(self).wf(),
        ensures
            final(self).wf(),
            final(self)@ == mem_set(old(self)@, key@, value@),
    {
        let ghost pre = self@;
        match self.find(&key) {
            Some(i) => {
                proof {
                    lemma_mem_set_found(pre, key@, value@, i as int);
                }
                self.memory.remove(i);
                self.memory.insert(i, (key, value));
                assert(self@ =~= pre.update(i as int, (key@, value@)));
                proof {
                    lemma_update_keeps_distinct(pre, i as int, key@, value@);
                }
            },
            None => {
                proof {
                    lemma_mem_set_missing(pre, key@, value@);
                }
                self.memory.push((key, value));
                assert(self@ =~= pre.push((key@, value@)));
            },
        }
    }

    /// Point read with lazy eviction: an expired key is removed as a side
    /// effect of the read and reported absent.
    pub fn get(&mut self, key: &Vec<u8>, now_ms: u64) -> (r: Option<DataItem>)
        requires
            old(self).wf(),
        ensures
            final(self).wf(),
            final(self)@ == get_state(old(self)@, key@, now_ms),
            match r {
                Some(item) => get_result(old(self)@, key@, now_ms) == Some(item@),
                None => get_result(old(self)@, key@, now_ms) is None,
            },
    {
        let ghost pre = self@;
        match self.find(key) {
            None => {
                proof {
                    lemma_lookup_missing(pre, key@);
                }
                None
            },
            Some(i) => {
                proof {
                    lemma_lookup_found(pre, key@, i as int);
                }
                let live = match self.memory[i].1.expiry {
                    None => true,
                    Some(e) => e >= now_ms,
                };
                if live {
                    Some(self.memory[i].1.duplicate())
                } else {
                    proof {
                        lemma_mem_remove_found(pre, key@, i as int);
                        lemma_remove_keeps_distinct(pre, i as int);
                    }
                    self.memory.remove(i);
                    assert(self@ =~= pre.remove(i as int));
                    None
                }
            },
        }
    }

    /// Removes the key outright, returning what was stored under it.
    pub fn remove(&mut self, key: &Vec<u8>) -> (r: Option<DataItem>)
        requires
            old(self).wf(),
        ensures
            final(self).wf(),
            final(self)@ == mem_remove(old(self)@, key@),
            match r {
                Some(item) => mem_lookup(old(self)@, key@) == Some(item@),
                None => mem_lookup(old(self)@, key@) is None,
            },
    {
        let ghost pre = self@;
        match self.find(key) {
            None => {
                proof {
                    lemma_lookup_missing(pre, key@);
                    lemma_mem_remove_missing(pre, key@);
                }
                None
            },
            Some(i) => {
                proof {
                    lemma_lookup_found(pre, key@, i as int);
                    lemma_mem_remove_found(pre, key@, i as int);
                    lemma_remove_keeps_distinct(pre, i as int);
                }
                let (_, item) = self.memory.remove(i);
                assert(self@ =~= pre.remove(i as int));
                Some(item)
            },
        }
    }

    /// Every key currently held, in iteration order, expired ones
    /// included: only a point read evicts.
    pub fn all_keys(&self) -> (r: Vec<Vec<u8>>)
        ensures
            r@.map_values(|k: Vec<u8>| k@) =~= mem_keys(self@),
    {
        let mut r: Vec<Vec<u8>> = Vec::new();
        let mut i: usize = 0;
        while i < self.memory.len()
            invariant
                i <= self.memory@.len(),
                r@.len() == i,
                forall|j: int| 0 <= j < i ==> r@[j]@ == self@[j].0,
            decreases self.memory.len() - i,
        {
            r.push(vstd::slice::slice_to_vec(self.memory[i].0.as_slice()));
            i = i + 1;
        }
        assert(r@.map_values(|k: Vec<u8>| k@) =~= mem_keys(self@));
        r
    }
}

proof fn lemma_lookup_found(mem: Seq<(Seq<u8>, ItemModel)>, k: Seq<u8>, i: int)
    requires
        0 <= i < mem.len(),
        mem[i].0 == k,
        forall|j: int| 0 <= j < i ==> mem[j].0 != k,
    ensures
        mem_lookup(mem, k) == Some(mem[i].1),
    decreases i,
{
    if i > 0 {
        lemma_lookup_found(mem.drop_first(), k, i - 1);
    }
}

proof fn lemma_lookup_missing(mem: Seq<(Seq<u8>, ItemModel)>, k: Seq<u8>)
    requires
        forall|j: int| 0 <= j < mem.len() ==> mem[j].0 != k,
    ensures
        mem_lookup(mem, k) is None,
    decreases mem.len(),
{
    if mem.len() > 0 {
        lemma_lookup_missing(mem.drop_first(), k);
    }
}

proof fn lemma_mem_set_found(mem: Seq<(Seq<u8>, ItemModel)>, k: Seq<u8>, v: ItemModel, i: int)
    requires
        0 <= i < mem.len(),
        mem[i].0 == k,
        forall|j: int| 0 <= j < i ==> mem[j].0 != k,
    ensures
        mem_set(mem, k, v) =~= mem.update(i, (k, v)),
    decreases i,
{
    if i > 0 {
        lemma_mem_set_found(mem.drop_first(), k, v, i - 1);
        assert(mem.update(i, (k, v)).drop_first() =~= mem.drop_first().update(i - 1, (k, v)));
    }
}

proof fn lemma_mem_set_missing(mem: Seq<(Seq<u8>, ItemModel)>, k: Seq<u8>, v: ItemModel)
    requires
        forall|j: int| 0 <= j < mem.len() ==> mem[j].0 != k,
    ensures
        mem_set(mem, k, v) =~= mem.push((k, v)),
    decreases mem.len(),
{
    if mem.len() > 0 {
        lemma_mem_set_missing(mem.drop_first(), k, v);
        assert(mem.push((k, v)).drop_first() =~= mem.drop_first().push((k, v)));
    }
}

proof fn lemma_mem_remove_found(mem: Seq<(Seq<u8>, ItemModel)>, k: Seq<u8>, i: int)
    requires
        0 <= i < mem.len(),
        mem[i].0 == k,
        forall|j: int| 0 <= j < i ==> mem[j].0 != k,
    ensures
        mem_remove(mem, k) =~= mem.remove(i),
    decreases i,
{
    if i > 0 {
        lemma_mem_remove_found(mem.drop_first(), k, i - 1);
        assert(mem.remove(i).drop_first() =~= mem.drop_first().remove(i - 1));
    }
}

proof fn lemma_mem_remove_missing(mem: Seq<(Seq<u8>, ItemModel)>, k: Seq<u8>)
    requires
        forall|j: int| 0 <= j < mem.len() ==> mem[j].0 != k,
    ensures
        mem_remove(mem, k) =~= mem,
    decreases mem.len(),
{
    if mem.len() > 0 {
        lemma_mem_remove_missing(mem.drop_first(), k);
        assert(seq![mem[0]] + mem.drop_first() =~= mem);
    }
}

proof fn lemma_update_keeps_distinct(
    mem: Seq<(Seq<u8>, ItemModel)>,
    i: int,
    k: Seq<u8>,
    v: ItemModel,
)
    requires
        0 <= i < mem.len(),
        mem[i].0 == k,
        forall|a: int, b: int| 0 <= a < b < mem.len() ==> mem[a].0 != mem[b].0,
    ensures
        forall|a: int, b: int|
            0 <= a < b < mem.update(i, (k, v)).len()
                ==> mem.update(i, (k, v))[a].0 != mem.update(i, (k, v))[b].0,
{
}

proof fn lemma_remove_keeps_distinct(mem: Seq<(Seq<u8>, ItemModel)>, i: int)
    requires
        0 <= i < mem.len(),
        forall|a: int, b: int| 0 <= a < b < mem.len() ==> mem[a].0 != mem[b].0,
    ensures
        forall|a: int, b: int|
            0 <= a < b < mem.remove(i).len() ==> mem.remove(i)[a].0 != mem.remove(i)[b].0,
{
    assert forall|a: int, b: int|
        0 <= a < b < mem.remove(i).len() implies mem.remove(i)[a].0 != mem.remove(i)[b].0 by {
        let a0 = if a < i { a } else { a + 1 };
        let b0 = if b < i { b } else { b + 1 };
        assert(mem.remove(i)[a] == mem[a0]);
        assert(mem.remove(i)[b] == mem[b0]);
    }
}

/// Storing a value under a key and then looking that key up yields exactly
/// that value: a read at any time not later than a `None`-expiry item's
/// life (that is, always) returns the stored bytes unchanged.
pub proof fn lemma_set_then_get(
    mem: Seq<(Seq<u8>, ItemModel)>,
    k: Seq<u8>,
    data: Seq<u8>,
    now: u64,
)
    ensures
        get_result(mem_set(mem, k, ItemModel { data, expiry: None }), k, now)
            == Some(ItemModel { data, expiry: None }),
        get_state(mem_set(mem, k, ItemModel { data, expiry: None }), k, now)
            == mem_set(mem, k, ItemModel { data, expiry: None }),
{
    lemma_lookup_of_set(mem, k, ItemModel { data, expiry: None });
}

/// Storing a value whose expiry lies strictly in the past and then reading
/// it reports the key absent and leaves it removed from the store.
pub proof fn lemma_set_expired_then_get(
    mem: Seq<(Seq<u8>, ItemModel)>,
    k: Seq<u8>,
    data: Seq<u8>,
    e: u64,
    now: u64,
)
    requires
        e < now,
        keys_distinct(mem),
    ensures
        get_result(mem_set(mem, k, ItemModel { data, expiry: Some(e) }), k, now) is None,
        mem_lookup(
            get_state(mem_set(mem, k, ItemModel { data, expiry: Some(e) }), k, now),
            k,
        ) is None,
{
    let item = ItemModel { data, expiry: Some(e) };
    lemma_lookup_of_set(mem, k, item);
    lemma_mem_set_keeps_distinct(mem, k, item);
    lemma_lookup_of_remove(mem_set(mem, k, item), k);
}

/// A point read of a live key has no side effect, so repeated reads return
/// the same value: `get` is idempotent on a non-expiring key.
pub proof fn lemma_get_idempotent(mem: Seq<(Seq<u8>, ItemModel)>, k: Seq<u8>, now: u64)
    requires
        get_result(mem, k, now) is Some,
    ensures
        get_state(mem, k, now) == mem,
        get_result(get_state(mem, k, now), k, now) == get_result(mem, k, now),
{
}

proof fn lemma_lookup_of_set_at(
    mem: Seq<(Seq<u8>, ItemModel)>,
    k: Seq<u8>,
    v: ItemModel,
    k2: Seq<u8>,
)
    ensures
        k2 == k ==> mem_lookup(mem_set(mem, k, v), k2) == Some(v),
        k2 != k ==> mem_lookup(mem_set(mem, k, v), k2) == mem_lookup(mem, k2),
    decreases mem.len(),
{
    if mem.len() == 0 {
        assert(mem_set(mem, k, v) == seq![(k, v)]);
        assert(seq![(k, v)][0] == (k, v));
        assert(seq![(k, v)].drop_first() =~= mem);
    } else if mem[0].0 == k {
        let s = seq![(k, v)] + mem.drop_first();
        assert(s[0] == (k, v));
        assert(s.drop_first() =~= mem.drop_first());
    } else {
        lemma_lookup_of_set_at(mem.drop_first(), k, v, k2);
        let s = seq![mem[0]] + mem_set(mem.drop_first(), k, v);
        assert(s[0] == mem[0]);
        assert(s.drop_first() =~= mem_set(mem.drop_first(), k, v));
    }
}

proof fn lemma_lookup_of_remove_other(mem: Seq<(Seq<u8>, ItemModel)>, k: Seq<u8>, k2: Seq<u8>)
    requires
        k2 != k,
    ensures
        mem_lookup(mem_remove(mem, k), k2) == mem_lookup(mem, k2),
    decreases mem.len(),
{
    if mem.len() == 0 {
    } else if mem[0].0 == k {
    } else {
        lemma_lookup_of_remove_other(mem.drop_first(), k, k2);
        let s = seq![mem[0]] + mem_remove(mem.drop_first(), k);
        assert(s[0] == mem[0]);
        assert(s.drop_first() =~= mem_remove(mem.drop_first(), k));
    }
}

proof fn lemma_drop_first_distinct(mem: Seq<(Seq<u8>, ItemModel)>)
    requires
        keys_distinct(mem),
        mem.len() > 0,
    ensures
        keys_distinct(mem.drop_first()),
{
    assert forall|a: int, b: int|
        0 <= a < b < mem.drop_first().len()
        implies mem.drop_first()[a].0 != mem.drop_first()[b].0 by {
        assert(mem.drop_first()[a] == mem[a + 1]);
        assert(mem.drop_first()[b] == mem[b + 1]);
    }
}

proof fn lemma_lookup_of_remove_same(mem: Seq<(Seq<u8>, ItemModel)>, k: Seq<u8>)
    requires
        keys_distinct(mem),
    ensures
        mem_lookup(mem_remove(mem, k), k) is None,
    decreases mem.len(),
{
    if mem.len() == 0 {
    } else if mem[0].0 == k {
        assert forall|j: int| 0 <= j < mem.drop_first().len()
            implies mem.drop_first()[j].0 != k by {
            assert(mem.drop_first()[j] == mem[j + 1]);
            assert(mem[0].0 != mem[j + 1].0);
        }
        lemma_lookup_missing(mem.drop_first(), k);
    } else {
        lemma_drop_first_distinct(mem);
        lemma_lookup_of_remove_same(mem.drop_first(), k);
        let s = seq![mem[0]] + mem_remove(mem.drop_first(), k);
        assert(s[0] == mem[0]);
        assert(s.drop_first() =~= mem_remove(mem.drop_first(), k));
    }
}

proof fn lemma_mem_set_key_origin(mem: Seq<(Seq<u8>, ItemModel)>, k: Seq<u8>, v: ItemModel, j: int)
    requires
        0 <= j < mem_set(mem, k, v).len(),
    ensures
        mem_set(mem, k, v)[j].0 == k
            || exists|i: int| 0 <= i < mem.len() && mem[i].0 == mem_set(mem, k, v)[j].0,
    decreases mem.len(),
{
    if mem.len() == 0 {
    } else if mem[0].0 == k {
        let s = seq![(k, v)] + mem.drop_first();
        if j > 0 {
            assert(s[j] == mem[j]);
        }
    } else {
        let s = seq![mem[0]] + mem_set(mem.drop_first(), k, v);
        if j == 0 {
            assert(s[0] == mem[0]);
        } else {
            assert(s[j] == mem_set(mem.drop_first(), k, v)[j - 1]);
            lemma_mem_set_key_origin(mem.drop_first(), k, v, j - 1);
            if s[j].0 != k {
                let i0 = choose|i0: int|
                    0 <= i0 < mem.drop_first().len() && mem.drop_first()[i0].0 == s[j].0;
                assert(mem.drop_first()[i0] == mem[i0 + 1]);
            }
        }
    }
}

/// Overwriting or adding one key keeps the keys pairwise distinct.
pub proof fn lemma_mem_set_keeps_distinct(mem: Seq<(Seq<u8>, ItemModel)>, k: Seq<u8>, v: ItemModel)
    requires
        keys_distinct(mem),
    ensures
        keys_distinct(mem_set(mem, k, v)),
    decreases mem.len(),
{
    if mem.len() == 0 {
    } else if mem[0].0 == k {
        let s = seq![(k, v)] + mem.drop_first();
        assert forall|a: int, b: int| 0 <= a < b < s.len() implies s[a].0 != s[b].0 by {
            if a == 0 {
                assert(s[b] == mem[b]);
                assert(mem[0].0 != mem[b].0);
            } else {
                assert(s[a] == mem[a]);
                assert(s[b] == mem[b]);
            }
        }
    } else {
        lemma_drop_first_distinct(mem);
        lemma_mem_set_keeps_distinct(mem.drop_first(), k, v);
        let s = seq![mem[0]] + mem_set(mem.drop_first(), k, v);
        assert forall|a: int, b: int| 0 <= a < b < s.len() implies s[a].0 != s[b].0 by {
            if a == 0 {
                assert(s[b] == mem_set(mem.drop_first(), k, v)[b - 1]);
                lemma_mem_set_key_origin(mem.drop_first(), k, v, b - 1);
                if s[b].0 != k {
                    let i0 = choose|i0: int|
                        0 <= i0 < mem.drop_first().len() && mem.drop_first()[i0].0 == s[b].0;
                    assert(mem.drop_first()[i0] == mem[i0 + 1]);
                    assert(mem[0].0 != mem[i0 + 1].0);
                }
            } else {
                assert(s[a] == mem_set(mem.drop_first(), k, v)[a - 1]);
                assert(s[b] == mem_set(mem.drop_first(), k, v)[b - 1]);
            }
        }
    }
}

/// Looking up the key just set yields the value just set, and every other
/// key is untouched.
pub proof fn lemma_lookup_of_set(mem: Seq<(Seq<u8>, ItemModel)>, k: Seq<u8>, v: ItemModel)
    ensures
        mem_lookup(mem_set(mem, k, v), k) == Some(v),
        forall|k2: Seq<u8>| k2 != k ==> mem_lookup(mem_set(mem, k, v), k2) == mem_lookup(mem, k2),
{
    lemma_lookup_of_set_at(mem, k, v, k);
    assert forall|k2: Seq<u8>| k2 != k
        implies mem_lookup(mem_set(mem, k, v), k2) == mem_lookup(mem, k2) by {
        lemma_lookup_of_set_at(mem, k, v, k2);
    }
}

/// After a removal the key is absent, and every other key is untouched.
pub proof fn lemma_lookup_of_remove(mem: Seq<(Seq<u8>, ItemModel)>, k: Seq<u8>)
    requires
        keys_distinct(mem),
    ensures
        mem_lookup(mem_remove(mem, k), k) is None,
        forall|k2: Seq<u8>| k2 != k ==> mem_lookup(mem_remove(mem, k), k2) == mem_lookup(mem, k2),
{
    lemma_lookup_of_remove_same(mem, k);
    assert forall|k2: Seq<u8>| k2 != k
        implies mem_lookup(mem_remove(mem, k), k2) == mem_lookup(mem, k2) by {
        lemma_lookup_of_remove_other(mem, k, k2);
    }
}

} // verus!
