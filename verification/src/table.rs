use crate::util::{grow_capacity, str_eq};
use crate::value::Value;
use vstd::arithmetic::div_mod::{
    lemma_add_mod_noop, lemma_mod_add_multiples_vanish, lemma_small_mod,
};
use vstd::prelude::*;
use vstd::string::StrSliceExecFns;

verus! {

// ################################################################
// FNV-1a hashing
// ################################################################
/// One step of FNV-1a: fold one byte into the running hash.
pub open spec fn fnv1a_step(hash: u64, byte: u8) -> u64 {
    vstd::wrapping::u64_specs::wrapping_mul(hash ^ (byte as u64), 0x100000001b3u64)
}

/// FNV-1a over a byte sequence, 64-bit.
pub open spec fn fnv1a_spec(bytes: Seq<u8>) -> u64
    decreases bytes.len(),
{
    if bytes.len() == 0 {
        0xcbf29ce484222325u64
    } else {
        fnv1a_step(fnv1a_spec(bytes.drop_last()), bytes.last())
    }
}

/// Uses the FNV-1a hash to return a fixed-size digest regardless of the
/// input's size.
pub fn fnv1a(bytes: &[u8]) -> (hash: u64)
    ensures
        hash == fnv1a_spec(bytes@),
{
    let mut hash: u64 = 0xcbf29ce484222325;
    let n = bytes.len();
    let mut i: usize = 0;
    while i < n
        invariant
            i <= n,
            n == bytes@.len(),
            hash == fnv1a_spec(bytes@.subrange(0, i as int)),
        decreases n - i,
    {
        proof {
            assert(bytes@.subrange(0, i as int + 1).drop_last() =~= bytes@.subrange(0, i as int));
            assert(bytes@.subrange(0, i as int + 1).last() == bytes@[i as int]);
        }
        let byte = bytes[i];
        hash = hash ^ (byte as u64);
        hash = hash.wrapping_mul(0x100000001b3);
        i = i + 1;
    }
    proof {
        assert(bytes@.subrange(0, n as int) =~= bytes@);
    }
    return hash;
}

/// The hash the table files a key under: FNV-1a over its UTF-8 bytes.
pub open spec fn hash_of(key: Seq<char>) -> u64 {
    fnv1a_spec(vstd::utf8::encode_utf8(key))
}

fn hash_key(key: &str) -> (h: u64)
    ensures
        h == hash_of(key@),
{
    fnv1a(key.as_bytes())
}

/// The slot a hash starts probing from.
fn index(hash: u64, capacity: usize) -> (r: usize)
    requires
        capacity > 0,
    ensures
        r as int == probe_idx(capacity as int, hash, 0),
        r < capacity,
{
    (hash % (capacity as u64)) as usize
}

// ################################################################
// The probe sequence
// ################################################################
/// The slot visited at `step` of the linear probe that starts at
/// `hash % cap`.
pub open spec fn probe_idx(cap: int, hash: u64, step: int) -> int {
    (hash + step) % cap
}

proof fn lemma_probe_step(cap: int, hash: u64, step: int)
    requires
        cap > 0,
        step >= 0,
    ensures
        probe_idx(cap, hash, step + 1) == (probe_idx(cap, hash, step) + 1) % cap,
{
    let a = hash + step;
    lemma_add_mod_noop(a, 1, cap);
    if cap == 1 {
    } else {
        lemma_small_mod(1nat, cap as nat);
    }
}

proof fn lemma_probe_covers(cap: int, hash: u64, j: int)
    requires
        0 <= j < cap,
    ensures
        exists|t: int| 0 <= t < cap && probe_idx(cap, hash, t) == j,
{
    let r = (hash as int) % cap;
    if j >= r {
        let t = j - r;
        lemma_mod_add_multiples_vanish(r + t, cap);
        assert(hash == cap * ((hash as int) / cap) + r) by {
            vstd::arithmetic::div_mod::lemma_fundamental_div_mod(hash as int, cap);
        }
        assert((hash + t) % cap == (r + t + cap * ((hash as int) / cap)) % cap);
        lemma_mod_multiples_cancel(r + t, (hash as int) / cap, cap);
        lemma_small_mod(j as nat, cap as nat);
        assert(probe_idx(cap, hash, t) == j);
    } else {
        let t = j + cap - r;
        assert(hash == cap * ((hash as int) / cap) + r) by {
            vstd::arithmetic::div_mod::lemma_fundamental_div_mod(hash as int, cap);
        }
        assert((hash + t) % cap == (j + cap + cap * ((hash as int) / cap)) % cap);
        lemma_mod_multiples_cancel(j + cap, (hash as int) / cap, cap);
        lemma_mod_add_multiples_vanish(j, cap);
        lemma_small_mod(j as nat, cap as nat);
        assert(probe_idx(cap, hash, t) == j);
    }
}

/// Adding any number of full turns does not move a slot.
proof fn lemma_mod_multiples_cancel(x: int, q: int, cap: int)
    requires
        cap > 0,
    ensures
        (x + cap * q) % cap == x % cap,
{
    vstd::arithmetic::div_mod::lemma_mod_multiples_vanish(q, x, cap);
}

// ################################################################
// Table model
// ################################################################
/// A slot holds a live entry for key `k`.
pub open spec fn entry_live(e: Option<Entry>, k: Seq<char>) -> bool {
    match e {
        Some(en) => !en.is_tombstone && en.key@ == k,
        None => false,
    }
}

/// A slot holds a live (non-tombstone) entry.
pub open spec fn slot_live(e: Option<Entry>) -> bool {
    match e {
        Some(en) => !en.is_tombstone,
        None => false,
    }
}

pub open spec fn has_live(es: Seq<Option<Entry>>, k: Seq<char>) -> bool {
    exists|i: int| 0 <= i < es.len() && entry_live(#[trigger] es[i], k)
}

pub open spec fn live_index(es: Seq<Option<Entry>>, k: Seq<char>) -> int {
    choose|i: int| 0 <= i < es.len() && entry_live(#[trigger] es[i], k)
}

/// The mapping a backing array stands for: each live key to its value.
pub open spec fn table_contents(es: Seq<Option<Entry>>) -> Map<Seq<char>, Value> {
    Map::new(
        |k: Seq<char>| has_live(es, k),
        |k: Seq<char>| es[live_index(es, k)].unwrap().value,
    )
}

/// The number of occupied slots, live entries and tombstones alike.
pub open spec fn count_some(es: Seq<Option<Entry>>) -> int
    decreases es.len(),
{
    if es.len() == 0 {
        0
    } else {
        (if es.first() is Some {
            1int
        } else {
            0int
        }) + count_some(es.drop_first())
    }
}

/// Every slot the probe for `hash` walks through in its first `steps` steps
/// is occupied.
pub open spec fn path_occupied(es: Seq<Option<Entry>>, hash: u64, steps: int) -> bool {
    forall|t: int|
        0 <= t < steps ==> es[probe_idx(es.len() as int, hash, t)] is Some
}

/// Every slot the probe for `hash` walks through in its first `steps` steps
/// holds a live entry: none of them could have taken an insertion.
pub open spec fn path_live(es: Seq<Option<Entry>>, hash: u64, steps: int) -> bool {
    forall|t: int|
        0 <= t < steps ==> (#[trigger] es[probe_idx(es.len() as int, hash, t)] is Some
            && !es[probe_idx(es.len() as int, hash, t)].unwrap().is_tombstone)
}

/// A live entry can be found from its hash: some probe step lands on it and
/// every earlier step of that probe is occupied.
pub open spec fn reachable_at(es: Seq<Option<Entry>>, i: int) -> bool {
    exists|s: int|
        0 <= s < es.len() && probe_idx(es.len() as int, hash_of(es[i].unwrap().key@), s) == i
            && path_occupied(es, hash_of(es[i].unwrap().key@), s)
}

/// The backing array's own invariant: recorded hashes are the keys' hashes,
/// live keys are unique, and every live entry is reachable by probing.
pub open spec fn entries_inv(es: Seq<Option<Entry>>) -> bool {
    &&& forall|i: int|
        0 <= i < es.len() && #[trigger] es[i] is Some ==> es[i].unwrap().hash == hash_of(
            es[i].unwrap().key@,
        )
    &&& forall|i: int, j: int|
        0 <= i < es.len() && 0 <= j < es.len() && i != j && slot_live(#[trigger] es[i]) && slot_live(
            #[trigger] es[j],
        ) ==> es[i].unwrap().key@ != es[j].unwrap().key@
    &&& forall|i: int| 0 <= i < es.len() && slot_live(#[trigger] es[i]) ==> reachable_at(es, i)
}

/// If the probe for `k` saw only occupied, non-matching slots before hitting
/// an empty slot or going a full turn, no live entry for `k` exists.
proof fn lemma_not_found(es: Seq<Option<Entry>>, k: Seq<char>, steps: int)
    requires
        es.len() > 0,
        entries_inv(es),
        0 <= steps <= es.len(),
        forall|t: int|
            0 <= t < steps ==> !entry_live(
                #[trigger] es[probe_idx(es.len() as int, hash_of(k), t)],
                k,
            ),
        steps < es.len() ==> es[probe_idx(es.len() as int, hash_of(k), steps)] is None,
    ensures
        !has_live(es, k),
{
    let cap = es.len() as int;
    let h = hash_of(k);
    if has_live(es, k) {
        let i = choose|i: int| 0 <= i < es.len() && entry_live(#[trigger] es[i], k);
        assert(slot_live(es[i]));
        assert(reachable_at(es, i));
        assert(es[i].unwrap().key@ == k);
        let s = choose|s: int|
            0 <= s < es.len() && probe_idx(cap, hash_of(es[i].unwrap().key@), s) == i
                && path_occupied(es, hash_of(es[i].unwrap().key@), s);
        assert(probe_idx(cap, h, s) == i);
        if s < steps {
            assert(!entry_live(es[probe_idx(cap, h, s)], k));
            assert(false);
        } else if s == steps {
            assert(es[probe_idx(cap, h, steps)] is None);
            assert(false);
        } else {
            assert(steps < es.len());
            assert(es[probe_idx(cap, h, steps)] is Some);
            assert(false);
        }
    }
}

// ################################################################
// Table
// ################################################################
/// Why an insertion was refused.
#[derive(Debug, Copy, Clone, PartialEq, Eq, Structural)]
pub enum TableError {
    InsertKeyError,
    AddTableError,
}

/// One slot of the table: an owned key, its value, the key's cached hash,
/// and the tombstone mark for deleted entries.
pub struct Entry {
    pub key: String,
    pub value: Value,
    pub hash: u64,
    /// Sentinel recording that this entry was deleted; probing must still
    /// walk through it.
    pub is_tombstone: bool,
}

impl Entry {
    pub fn new(key: String, value: Value) -> (e: Self)
        ensures
            e.key == key,
            e.value == value,
            e.hash == hash_of(key@),
            !e.is_tombstone,
    {
        let hash = hash_key(key.as_str());
        Entry { key, value, hash, is_tombstone: false }
    }
}

/// An open-addressed, string-keyed hash map with linear probing and
/// tombstone deletion, used for the interpreter's global variables.
pub struct Table {
    count: usize,
    capacity: usize,
    entries: Vec<Option<Entry>>,
}

impl Table {
    /// The table's invariant: the capacity is the backing array's length,
    /// the count tallies occupied slots, occupancy stays under the 3/4 load
    /// factor, and the array keeps the probing invariants.
    pub closed spec fn inv(&self) -> bool {
        &&& self.capacity == self.entries@.len()
        &&& self.count == count_some(self.entries@)
        &&& 4 * self.count <= 3 * self.capacity
        &&& entries_inv(self.entries@)
    }

    /// The mapping this table holds.
    pub closed spec fn contents(&self) -> Map<Seq<char>, Value> {
        table_contents(self.entries@)
    }

    pub fn new() -> (t: Self)
        ensures
            t.inv(),
            t.contents() == Map::<Seq<char>, Value>::empty(),
    {
        let t = Table { count: 0, capacity: 0, entries: Vec::new() };
        proof {
            assert(!has_live(t.entries@, choose|k: Seq<char>| has_live(t.entries@, k)));
            assert(t.contents() =~= Map::<Seq<char>, Value>::empty());
        }
        t
    }

    /// Finds the key's live slot, or a slot an insertion of the key may use:
    /// the probe's first tombstone if it saw one, else the empty slot that
    /// ended the probe. Answers nothing only when the whole table is
    /// occupied and the key is absent.
    fn find_entry(entries: &Vec<Option<Entry>>, key: &str, capacity: usize) -> (r: Option<usize>)
        requires
            capacity == entries@.len(),
            capacity > 0,
            entries_inv(entries@),
        ensures
            match r {
                Some(i) => {
                    &&& i < capacity
                    &&& if has_live(entries@, key@) {
                        entry_live(entries@[i as int], key@)
                    } else {
                        // The first slot in probe order an insertion may
                        // take: free or tombstoned, with every earlier
                        // probe slot still live.
                        &&& !(entries@[i as int] is Some && !entries@[i as int].unwrap().is_tombstone)
                        &&& exists|s: int|
                            0 <= s < capacity && probe_idx(capacity as int, hash_of(key@), s)
                                == i as int && path_live(entries@, hash_of(key@), s)
                    }
                },
                None => {
                    &&& !has_live(entries@, key@)
                    &&& forall|j: int| 0 <= j < entries@.len() ==> #[trigger] entries@[j] is Some
                },
            },
    {
        let ghost cap = capacity as int;
        let h = hash_key(key);
        let ghost hg = hash_of(key@);
        // Pass 1: look for the key itself, walking until an empty slot.
        let start = index(h, capacity);
        let mut i = start;
        let mut step: usize = 0;
        loop
            invariant_except_break
                capacity == entries@.len(),
                capacity > 0,
                entries_inv(entries@),
                h == hg,
                hg == hash_of(key@),
                step <= capacity,
                i < capacity,
                i as int == probe_idx(cap, hg, step as int),
                cap == capacity as int,
                forall|t: int|
                    0 <= t < step ==> !entry_live(
                        #[trigger] entries@[probe_idx(cap, hg, t)],
                        key@,
                    ),
                forall|t: int| 0 <= t < step ==> entries@[probe_idx(cap, hg, t)] is Some,
            ensures
                !has_live(entries@, key@),
            decreases capacity - step,
        {
            if step >= capacity {
                proof {
                    assert(step == capacity);
                    assert forall|t: int| 0 <= t < capacity as int implies !entry_live(
                        #[trigger] entries@[probe_idx(entries@.len() as int, hash_of(key@), t)],
                        key@,
                    ) by {
                        assert(probe_idx(entries@.len() as int, hash_of(key@), t) == probe_idx(
                            cap,
                            hg,
                            t,
                        ));
                        assert(!entry_live(entries@[probe_idx(cap, hg, t)], key@));
                    }
                    lemma_not_found(entries@, key@, capacity as int);
                }
                break ;
            }
            match &entries[i] {
                None => {
                    proof {
                        assert forall|t: int| 0 <= t < step as int implies !entry_live(
                            #[trigger] entries@[probe_idx(entries@.len() as int, hash_of(key@), t)],
                            key@,
                        ) by {
                            assert(probe_idx(entries@.len() as int, hash_of(key@), t) == probe_idx(
                                cap,
                                hg,
                                t,
                            ));
                            assert(!entry_live(entries@[probe_idx(cap, hg, t)], key@));
                        }
                        assert(entries@[probe_idx(entries@.len() as int, hash_of(key@), step as int)]
                            is None);
                        lemma_not_found(entries@, key@, step as int);
                    }
                    break ;
                },
                Some(e) => {
                    if !e.is_tombstone && str_eq(e.key.as_str(), key) {
                        proof {
                            assert(entry_live(entries@[i as int], key@));
                        }
                        return Some(i);
                    }
                },
            }
            proof {
                lemma_probe_step(cap, hg, step as int);
                if i + 1 == capacity {
                    vstd::arithmetic::div_mod::lemma_mod_self_0(cap);
                } else {
                    lemma_small_mod((i + 1) as nat, cap as nat);
                }
            }
            step = step + 1;
            i = if i + 1 == capacity {
                0
            } else {
                i + 1
            };
        }
        // The key is absent. Pass 2: the probe's first tombstone or empty
        // slot takes the insertion.
        let mut i = start;
        let mut step: usize = 0;
        while step < capacity
            invariant
                capacity == entries@.len(),
                capacity > 0,
                entries_inv(entries@),
                h == hg,
                hg == hash_of(key@),
                !has_live(entries@, key@),
                step <= capacity,
                i < capacity,
                i as int == probe_idx(cap, hg, step as int),
                cap == capacity as int,
                forall|t: int|
                    0 <= t < step ==> #[trigger] entries@[probe_idx(cap, hg, t)] is Some
                        && !entries@[probe_idx(cap, hg, t)].unwrap().is_tombstone,
            decreases capacity - step,
        {
            let take_it = match &entries[i] {
                None => true,
                Some(e) => e.is_tombstone,
            };
            if take_it {
                proof {
                    assert(path_live(entries@, hg, step as int));
                    assert((step as int) < cap && probe_idx(cap, hg, step as int) == i as int
                        && path_live(entries@, hg, step as int));
                }
                return Some(i);
            }
            proof {
                lemma_probe_step(cap, hg, step as int);
                if i + 1 == capacity {
                    vstd::arithmetic::div_mod::lemma_mod_self_0(cap);
                } else {
                    lemma_small_mod((i + 1) as nat, cap as nat);
                }
            }
            step = step + 1;
            i = if i + 1 == capacity {
                0
            } else {
                i + 1
            };
        }
        proof {
            assert forall|j: int| 0 <= j < entries@.len() implies #[trigger] entries@[j]
                is Some by {
                lemma_probe_covers(cap, hg, j);
                let t = choose|t: int| 0 <= t < cap && probe_idx(cap, hg, t) == j;
                assert(entries@[probe_idx(cap, hg, t)] is Some);
            }
        }
        None
    }

    /// Returns the value stored under a key.
    pub fn get(&self, key: &str) -> (r: Option<&Value>)
        requires
            self.inv(),
        ensures
            match r {
                Some(v) => self.contents().contains_key(key@) && *v == self.contents()[key@],
                None => !self.contents().contains_key(key@),
            },
    {
        if self.count == 0 || self.capacity == 0 {
            proof {
                if self.capacity == 0 {
                    assert(!has_live(self.entries@, key@));
                } else {
                    lemma_count_zero_no_some(self.entries@);
                    assert(!has_live(self.entries@, key@));
                }
            }
            return None;
        }
        let found = Table::find_entry(&self.entries, key, self.capacity);
        match found {
            Some(i) => {
                match &self.entries[i] {
                    Some(e) => {
                        if !e.is_tombstone && str_eq(e.key.as_str(), key) {
                            proof {
                                lemma_live_value(self.entries@, key@, i as int);
                            }
                            Some(&e.value)
                        } else {
                            proof {
                                assert(!has_live(self.entries@, key@));
                            }
                            None
                        }
                    },
                    None => {
                        proof {
                            assert(!has_live(self.entries@, key@));
                        }
                        None
                    },
                }
            },
            None => None,
        }
    }

    /// Returns the value stored under a key that is known to be present.
    pub fn get_unchecked(&self, key: &str) -> (r: &Value)
        requires
            self.inv(),
            self.contents().contains_key(key@),
        ensures
            *r == self.contents()[key@],
    {
        proof {
            assert(has_live(self.entries@, key@));
            let i = live_index(self.entries@, key@);
            assert(entry_live(self.entries@[i], key@));
            assert(self.entries@[i] is Some);
            lemma_some_count_positive(self.entries@, i);
        }
        let found = Table::find_entry(&self.entries, key, self.capacity);
        match found {
            Some(i) => {
                match &self.entries[i] {
                    Some(e) => {
                        proof {
                            lemma_live_value(self.entries@, key@, i as int);
                        }
                        &e.value
                    },
                    None => {
                        proof {
                            assert(false);
                        }
                        unreached()
                    },
                }
            },
            None => {
                proof {
                    assert(false);
                }
                unreached()
            },
        }
    }

    /// Marks the key's entry as deleted. The slot keeps a tombstone so that
    /// probe sequences running through it stay intact.
    pub fn delete(&mut self, key: &str) -> (r: bool)
        requires
            old(self).inv(),
        ensures
            final(self).inv(),
            r == old(self).contents().contains_key(key@),
            final(self).contents() == old(self).contents().remove(key@),
    {
        if self.count == 0 || self.capacity == 0 {
            proof {
                if self.capacity != 0 {
                    lemma_count_zero_no_some(self.entries@);
                }
                assert(!has_live(self.entries@, key@));
                assert(self.contents().remove(key@) =~= self.contents());
            }
            return false;
        }
        let found = Table::find_entry(&self.entries, key, self.capacity);
        match found {
            Some(i) => {
                let mut tomb: Option<Entry> = None;
                match &self.entries[i] {
                    Some(e) => {
                        if !e.is_tombstone && str_eq(e.key.as_str(), key) {
                            tomb = Some(
                                Entry {
                                    key: e.key.clone(),
                                    value: e.value.clone(),
                                    hash: e.hash,
                                    is_tombstone: true,
                                },
                            );
                        }
                    },
                    None => {},
                }
                match tomb {
                    Some(entry) => {
                        let ghost oes = self.entries@;
                        let ghost ge = entry;
                        proof {
                            assert(entry_live(oes[i as int], key@));
                        }
                        self.entries[i] = Some(entry);
                        proof {
                            lemma_remove_update(oes, self.entries@, i as int, ge);
                            lemma_count_update(oes, i as int, Some(ge));
                        }
                        true
                    },
                    None => {
                        proof {
                            assert(!has_live(self.entries@, key@));
                            assert(self.contents().remove(key@) =~= self.contents());
                        }
                        false
                    },
                }
            },
            None => {
                proof {
                    assert(self.contents().remove(key@) =~= self.contents());
                }
                false
            },
        }
    }

    /// Rebuilds the table into a fresh backing array of the given capacity,
    /// re-inserting every live entry and dropping tombstones.
    fn adjust_capacity(&mut self, new_capacity: usize)
        requires
            old(self).inv(),
            new_capacity > 0,
            4 * old(self).count <= 3 * new_capacity,
        ensures
            final(self).inv(),
            final(self).capacity() == new_capacity,
            final(self).count() <= old(self).count(),
            final(self).contents() == old(self).contents(),
    {
        let old_len = self.entries.len();
        let ghost oes = self.entries@;
        let ghost c0 = count_some(oes);
        let mut new_entries: Vec<Option<Entry>> = Vec::new();
        let mut j: usize = 0;
        while j < new_capacity
            invariant
                j <= new_capacity,
                new_entries@.len() == j,
                forall|t: int| 0 <= t < j ==> !(#[trigger] new_entries@[t] is Some),
            decreases new_capacity - j,
        {
            new_entries.push(None);
            j = j + 1;
        }
        let mut new_count: usize = 0;
        let mut idx: usize = 0;
        proof {
            lemma_count_all_none(new_entries@);
            assert(oes.subrange(0, 0) =~= Seq::<Option<Entry>>::empty());
            assert(table_contents(new_entries@) =~= table_contents(oes.subrange(0, 0)));
        }
        while idx < old_len
            invariant
                old_len == oes.len(),
                oes == self.entries@,
                entries_inv(oes),
                c0 == count_some(oes),
                idx <= old_len,
                new_entries@.len() == new_capacity,
                new_capacity > 0,
                4 * c0 <= 3 * new_capacity,
                entries_inv(new_entries@),
                new_count == count_some(new_entries@),
                new_count <= count_some(oes.subrange(0, idx as int)),
                count_some(oes.subrange(0, idx as int)) <= c0,
                forall|t: int|
                    0 <= t < new_capacity ==> (#[trigger] new_entries@[t] is Some
                        ==> !new_entries@[t].unwrap().is_tombstone),
                table_contents(new_entries@) == table_contents(oes.subrange(0, idx as int)),
            decreases old_len - idx,
        {
            let mut to_insert: Option<Entry> = None;
            match &self.entries[idx] {
                Some(e) => {
                    if !e.is_tombstone {
                        to_insert = Some(
                            Entry {
                                key: e.key.clone(),
                                value: e.value.clone(),
                                hash: e.hash,
                                is_tombstone: false,
                            },
                        );
                    }
                },
                None => {},
            }
            proof {
                lemma_prefix_step(oes, idx as int);
                lemma_count_prefix_step(oes, idx as int);
                lemma_count_split(oes, idx as int + 1);
                lemma_count_nonneg(oes.skip(idx as int + 1));
            }
            match to_insert {
                Some(entry) => {
                    let ghost ge = entry;
                    proof {
                        if has_live(new_entries@, ge.key@) {
                            assert(table_contents(new_entries@).contains_key(ge.key@));
                            assert(table_contents(oes.subrange(0, idx as int)).contains_key(
                                ge.key@,
                            ));
                            let jj = choose|jj: int|
                                0 <= jj < oes.subrange(0, idx as int).len() && entry_live(
                                    #[trigger] oes.subrange(0, idx as int)[jj],
                                    ge.key@,
                                );
                            assert(entry_live(oes[jj], ge.key@));
                            assert(slot_live(oes[jj]) && slot_live(oes[idx as int]));
                            assert(false);
                        }
                        // A free slot must remain.
                        assert(oes.skip(idx as int)[0] == oes[idx as int]);
                        lemma_count_split(oes, idx as int);
                        lemma_some_count_positive(oes.skip(idx as int), 0);
                        lemma_count_nonneg(oes.skip(idx as int));
                        assert(new_count < new_capacity);
                    }
                    let dest = Table::find_entry(&new_entries, entry.key.as_str(), new_capacity);
                    match dest {
                        Some(d) => {
                            let ghost nes_old = new_entries@;
                            new_entries[d] = Some(entry);
                            proof {
                                lemma_insert_update(nes_old, new_entries@, d as int, ge);
                                lemma_count_update(nes_old, d as int, Some(ge));
                            }
                            new_count = new_count + 1;
                        },
                        None => {
                            proof {
                                lemma_count_all_some(new_entries@);
                                assert(false);
                            }
                            unreached()
                        },
                    }
                },
                None => {},
            }
            idx = idx + 1;
        }
        proof {
            assert(oes.subrange(0, old_len as int) =~= oes);
        }
        self.entries = new_entries;
        self.capacity = new_capacity;
        self.count = new_count;
    }

    /// Inserts an entry, replacing any previous value under the same key.
    /// Grows the backing array whenever occupancy would pass the 3/4 load
    /// factor; refuses only when such a growth would pass the machine's
    /// address range.
    pub fn insert(&mut self, key: &str, value: Value) -> (r: Result<(), TableError>)
        requires
            old(self).inv(),
        ensures
            final(self).inv(),
            r is Ok ==> final(self).contents() == old(self).contents().insert(key@, value),
            r is Ok ==> final(self).capacity() == if 4 * (old(self).count() + 1) > 3 * old(
                self,
            ).capacity() {
                if old(self).capacity() <= 1 {
                    8int
                } else {
                    2 * old(self).capacity()
                }
            } else {
                old(self).capacity()
            },
            r is Err ==> *final(self) == *old(self),
            r is Err <==> (4 * (old(self).count() + 1) > 3 * old(self).capacity() && old(
                self,
            ).capacity() > usize::MAX / 2),
    {
        let ghost c = self.count as int;
        let ghost cap = self.capacity as int;
        // Grow the capacity if the load factor would be passed.
        let quarter_ceil = self.capacity / 4 + if self.capacity % 4 != 0 {
            1
        } else {
            0
        };
        let threshold = self.capacity - quarter_ceil;
        let needs_grow = self.count + 1 > threshold;
        proof {
            assert(needs_grow == (4 * (c + 1) > 3 * cap));
        }
        if needs_grow {
            if self.capacity > usize::MAX / 2 {
                return Err(TableError::InsertKeyError);
            }
            let new_capacity = grow_capacity(self.capacity);
            proof {
                if cap <= 1 {
                    assert(4 * (c + 1) <= 3 * new_capacity);
                } else {
                    assert(4 * (c + 1) <= 3 * new_capacity);
                }
            }
            self.adjust_capacity(new_capacity);
        }
        proof {
            assert(self.capacity > 0);
            assert(4 * (self.count + 1) <= 3 * self.capacity);
        }
        let found = Table::find_entry(&self.entries, key, self.capacity);
        match found {
            Some(i) => {
                let was_empty = self.entries[i].is_none();
                let entry = Entry::new(key.to_owned(), value);
                let ghost ge = entry;
                let ghost oes = self.entries@;
                self.entries[i] = Some(entry);
                proof {
                    lemma_insert_update(oes, self.entries@, i as int, ge);
                    lemma_count_update(oes, i as int, Some(ge));
                }
                if was_empty {
                    self.count = self.count + 1;
                }
                Ok(())
            },
            None => {
                proof {
                    lemma_count_all_some(self.entries@);
                    assert(false);
                }
                unreached()
            },
        }
    }

    /// Adds every live entry of one table to another; entries of `from`
    /// overwrite same-keyed entries of `to`.
    pub fn add_all(from: &Table, to: &mut Table) -> (r: Result<(), TableError>)
        requires
            from.inv(),
            old(to).inv(),
        ensures
            final(to).inv(),
            r is Ok ==> final(to).contents() == old(to).contents().union_prefer_right(
                from.contents(),
            ),
            r is Err ==> final(to).capacity() > usize::MAX / 2,
    {
        let n = from.entries.len();
        let mut idx: usize = 0;
        proof {
            assert(from.entries@.subrange(0, 0) =~= Seq::<Option<Entry>>::empty());
            lemma_count_all_none(Seq::<Option<Entry>>::empty());
            assert(to.contents().union_prefer_right(table_contents(from.entries@.subrange(0, 0)))
                =~= to.contents());
        }
        while idx < n
            invariant
                from.inv(),
                to.inv(),
                n == from.entries@.len(),
                idx <= n,
                to.contents() == old(to).contents().union_prefer_right(
                    table_contents(from.entries@.subrange(0, idx as int)),
                ),
            decreases n - idx,
        {
            let mut to_insert: Option<Entry> = None;
            match &from.entries[idx] {
                Some(e) => {
                    if !e.is_tombstone {
                        to_insert = Some(
                            Entry {
                                key: e.key.clone(),
                                value: e.value.clone(),
                                hash: e.hash,
                                is_tombstone: false,
                            },
                        );
                    }
                },
                None => {},
            }
            proof {
                lemma_prefix_step(from.entries@, idx as int);
            }
            match to_insert {
                Some(entry) => {
                    let ghost ge = entry;
                    let result = to.insert(entry.key.as_str(), entry.value);
                    match result {
                        Ok(_) => {
                            proof {
                                assert(to.contents() =~= old(to).contents().union_prefer_right(
                                    table_contents(from.entries@.subrange(0, idx as int + 1)),
                                ));
                            }
                        },
                        Err(_) => {
                            return Err(TableError::AddTableError);
                        },
                    }
                },
                None => {},
            }
            idx = idx + 1;
        }
        proof {
            assert(from.entries@.subrange(0, n as int) =~= from.entries@);
        }
        Ok(())
    }

    /// The number of occupied slots.
    pub closed spec fn count(&self) -> int {
        self.count as int
    }

    /// The backing array's size.
    pub closed spec fn capacity(&self) -> int {
        self.capacity as int
    }
}

impl Default for Table {
    fn default() -> (t: Self)
        ensures
            t.inv(),
            t.contents() == Map::<Seq<char>, Value>::empty(),
    {
        Table::new()
    }
}

/// Law (hash table round trip): the globals table behaves as a map.
/// Inserting a pair makes the key hold exactly that value; any other key's
/// binding is untouched. Removing a key removes exactly that binding. The
/// table's insert, get and delete promise these shapes over contents(), so
/// the law holds across any number of operations, resizes included.
pub proof fn lemma_table_round_trip(
    m: Map<Seq<char>, Value>,
    k: Seq<char>,
    v: Value,
    k2: Seq<char>,
)
    requires
        k2 != k,
    ensures
        m.insert(k, v).contains_key(k),
        m.insert(k, v)[k] == v,
        m.insert(k, v).contains_key(k2) == m.contains_key(k2),
        m.contains_key(k2) ==> m.insert(k, v)[k2] == m[k2],
        !m.remove(k).contains_key(k),
        m.remove(k).contains_key(k2) == m.contains_key(k2),
        m.contains_key(k2) ==> m.remove(k)[k2] == m[k2],
{
}

/// A fresh array of empty slots holds nothing.
proof fn lemma_count_all_none(es: Seq<Option<Entry>>)
    requires
        forall|i: int| 0 <= i < es.len() ==> !(#[trigger] es[i] is Some),
    ensures
        count_some(es) == 0,
        entries_inv(es),
        table_contents(es) =~= Map::<Seq<char>, Value>::empty(),
    decreases es.len(),
{
    if es.len() > 0 {
        assert forall|i: int| 0 <= i < es.drop_first().len() implies !(#[trigger] es.drop_first()[i]
            is Some) by {
            assert(es.drop_first()[i] == es[i + 1]);
        }
        lemma_count_all_none(es.drop_first());
    }
    assert forall|i: int| 0 <= i < es.len() && slot_live(#[trigger] es[i]) implies reachable_at(
        es,
        i,
    ) by {
        assert(!(es[i] is Some));
    }
}

/// Appending a slot extends the count by whether it is occupied.
proof fn lemma_count_push(es: Seq<Option<Entry>>, v: Option<Entry>)
    ensures
        count_some(es.push(v)) == count_some(es) + (if v is Some {
            1int
        } else {
            0int
        }),
    decreases es.len(),
{
    reveal_with_fuel(count_some, 3);
    if es.len() == 0 {
        assert(es.push(v).drop_first() =~= Seq::<Option<Entry>>::empty());
    } else {
        assert(es.push(v).drop_first() =~= es.drop_first().push(v));
        lemma_count_push(es.drop_first(), v);
    }
}

proof fn lemma_count_prefix_step(es: Seq<Option<Entry>>, i: int)
    requires
        0 <= i < es.len(),
    ensures
        count_some(es.subrange(0, i + 1)) == count_some(es.subrange(0, i)) + (if es[i] is Some {
            1int
        } else {
            0int
        }),
{
    assert(es.subrange(0, i + 1) =~= es.subrange(0, i).push(es[i]));
    lemma_count_push(es.subrange(0, i), es[i]);
}

/// Extending a prefix by one slot adds that slot's binding, if it is live.
proof fn lemma_prefix_step(es: Seq<Option<Entry>>, i: int)
    requires
        entries_inv(es),
        0 <= i < es.len(),
    ensures
        table_contents(es.subrange(0, i + 1)) == if slot_live(es[i]) {
            table_contents(es.subrange(0, i)).insert(es[i].unwrap().key@, es[i].unwrap().value)
        } else {
            table_contents(es.subrange(0, i))
        },
{
    let p = es.subrange(0, i);
    let p2 = es.subrange(0, i + 1);
    assert(p2 =~= p.push(es[i]));
    assert(p2[i] == es[i]);
    assert(forall|j: int| 0 <= j < i ==> p[j] == es[j] && p2[j] == es[j]);
    if slot_live(es[i]) {
        let k = es[i].unwrap().key@;
        let v = es[i].unwrap().value;
        assert(entry_live(p2[i], k));
        assert forall|x: Seq<char>| true implies #[trigger] table_contents(p2).contains_key(x)
            == table_contents(p).insert(k, v).contains_key(x) by {
            if x == k {
                assert(has_live(p2, k));
            } else {
                if has_live(p2, x) {
                    let j = choose|j: int| 0 <= j < p2.len() && entry_live(#[trigger] p2[j], x);
                    assert(j != i);
                    assert(entry_live(p[j], x));
                    assert(has_live(p, x));
                }
                if has_live(p, x) {
                    let j = choose|j: int| 0 <= j < p.len() && entry_live(#[trigger] p[j], x);
                    assert(entry_live(p2[j], x));
                    assert(has_live(p2, x));
                }
            }
        }
        assert forall|x: Seq<char>| #[trigger] table_contents(p2).contains_key(x) implies
            table_contents(p2)[x] == table_contents(p).insert(k, v)[x] by {
            let j = choose|j: int| 0 <= j < p2.len() && entry_live(#[trigger] p2[j], x);
            lemma_prefix_live_value(es, i + 1, x, j);
            if x == k {
                if j != i {
                    assert(entry_live(es[j], k));
                    assert(slot_live(es[j]) && slot_live(es[i]));
                    assert(false);
                }
            } else {
                assert(j != i);
                assert(entry_live(p[j], x));
                lemma_prefix_live_value(es, i, x, j);
            }
        }
        assert(table_contents(p2) =~= table_contents(p).insert(k, v));
    } else {
        assert forall|x: Seq<char>| true implies #[trigger] table_contents(p2).contains_key(x)
            == table_contents(p).contains_key(x) by {
            if has_live(p2, x) {
                let j = choose|j: int| 0 <= j < p2.len() && entry_live(#[trigger] p2[j], x);
                assert(j != i);
                assert(entry_live(p[j], x));
                assert(has_live(p, x));
            }
            if has_live(p, x) {
                let j = choose|j: int| 0 <= j < p.len() && entry_live(#[trigger] p[j], x);
                assert(entry_live(p2[j], x));
                assert(has_live(p2, x));
            }
        }
        assert forall|x: Seq<char>| #[trigger] table_contents(p2).contains_key(x) implies
            table_contents(p2)[x] == table_contents(p)[x] by {
            let j = choose|j: int| 0 <= j < p2.len() && entry_live(#[trigger] p2[j], x);
            assert(j != i);
            assert(entry_live(p[j], x));
            lemma_prefix_live_value(es, i + 1, x, j);
            lemma_prefix_live_value(es, i, x, j);
        }
        assert(table_contents(p2) =~= table_contents(p));
    }
}

/// Within any prefix of a well-formed array, a live slot for a key gives
/// that key's value in the prefix's mapping.
proof fn lemma_prefix_live_value(es: Seq<Option<Entry>>, n: int, k: Seq<char>, i: int)
    requires
        entries_inv(es),
        0 <= n <= es.len(),
        0 <= i < n,
        entry_live(es.subrange(0, n)[i], k),
    ensures
        table_contents(es.subrange(0, n)).contains_key(k),
        table_contents(es.subrange(0, n))[k] == es.subrange(0, n)[i].unwrap().value,
{
    let p = es.subrange(0, n);
    assert(has_live(p, k));
    let j = live_index(p, k);
    assert(entry_live(p[j], k));
    if i != j {
        assert(entry_live(es[i], k) && entry_live(es[j], k));
        assert(slot_live(es[i]) && slot_live(es[j]));
        assert(false);
    }
}

/// A table with no occupied slot has no live entry.
proof fn lemma_count_zero_no_some(es: Seq<Option<Entry>>)
    requires
        count_some(es) == 0,
    ensures
        forall|i: int| 0 <= i < es.len() ==> !(#[trigger] es[i] is Some),
    decreases es.len(),
{
    if es.len() > 0 {
        lemma_count_nonneg(es.drop_first());
        lemma_count_zero_no_some(es.drop_first());
        assert forall|i: int| 0 <= i < es.len() implies !(#[trigger] es[i] is Some) by {
            if i > 0 {
                assert(es.drop_first()[i - 1] == es[i]);
            }
        }
    }
}

proof fn lemma_count_nonneg(es: Seq<Option<Entry>>)
    ensures
        count_some(es) >= 0,
    decreases es.len(),
{
    if es.len() > 0 {
        lemma_count_nonneg(es.drop_first());
    }
}

/// An occupied slot makes the count positive.
proof fn lemma_some_count_positive(es: Seq<Option<Entry>>, i: int)
    requires
        0 <= i < es.len(),
        es[i] is Some,
    ensures
        count_some(es) > 0,
    decreases es.len(),
{
    lemma_count_nonneg(es.drop_first());
    if i > 0 {
        assert(es.drop_first()[i - 1] == es[i]);
        lemma_some_count_positive(es.drop_first(), i - 1);
    }
}

/// If every slot is occupied, the count is the whole capacity.
proof fn lemma_count_all_some(es: Seq<Option<Entry>>)
    requires
        forall|i: int| 0 <= i < es.len() ==> #[trigger] es[i] is Some,
    ensures
        count_some(es) == es.len(),
    decreases es.len(),
{
    if es.len() > 0 {
        assert forall|i: int| 0 <= i < es.drop_first().len() implies #[trigger] es.drop_first()[i]
            is Some by {
            assert(es.drop_first()[i] == es[i + 1]);
        }
        lemma_count_all_some(es.drop_first());
    }
}

/// Replacing one slot changes the count by the difference the slot makes.
proof fn lemma_count_update(es: Seq<Option<Entry>>, i: int, v: Option<Entry>)
    requires
        0 <= i < es.len(),
    ensures
        count_some(es.update(i, v)) == count_some(es) + (if v is Some {
            1int
        } else {
            0int
        }) - (if es[i] is Some {
            1int
        } else {
            0int
        }),
    decreases es.len(),
{
    if i == 0 {
        assert(es.update(0, v).drop_first() =~= es.drop_first());
    } else {
        assert(es.update(i, v).drop_first() =~= es.drop_first().update(i - 1, v));
        lemma_count_update(es.drop_first(), i - 1, v);
    }
}

/// The count splits at any boundary.
proof fn lemma_count_split(es: Seq<Option<Entry>>, n: int)
    requires
        0 <= n <= es.len(),
    ensures
        count_some(es) == count_some(es.subrange(0, n)) + count_some(es.skip(n)),
    decreases n,
{
    if n == 0 {
        assert(es.subrange(0, 0) =~= Seq::<Option<Entry>>::empty());
        assert(es.skip(0) =~= es);
    } else {
        assert(es.subrange(0, n).first() == es.first());
        assert(es.subrange(0, n).drop_first() =~= es.drop_first().subrange(0, n - 1));
        assert(es.skip(n) =~= es.drop_first().skip(n - 1));
        lemma_count_split(es.drop_first(), n - 1);
    }
}

/// Overwriting a slot with a live entry for `k` updates the array's mapping
/// by one binding, provided either the slot already held `k` live, or `k`
/// was absent and the slot is free and reached by `k`'s probe.
proof fn lemma_insert_update(es: Seq<Option<Entry>>, es2: Seq<Option<Entry>>, i: int, en: Entry)
    requires
        entries_inv(es),
        0 <= i < es.len(),
        es2 == es.update(i, Some(en)),
        !en.is_tombstone,
        en.hash == hash_of(en.key@),
        entry_live(es[i], en.key@) || (!has_live(es, en.key@) && !(es[i] is Some
            && !es[i].unwrap().is_tombstone) && exists|s: int|
            0 <= s < es.len() && probe_idx(es.len() as int, hash_of(en.key@), s) == i
                && path_live(es, hash_of(en.key@), s)),
    ensures
        entries_inv(es2),
        table_contents(es2) == table_contents(es).insert(en.key@, en.value),
{
    let k = en.key@;
    let cap = es.len() as int;
    let h = hash_of(k);
    // Well-formedness of the updated array.
    assert forall|j: int| 0 <= j < es2.len() && #[trigger] es2[j] is Some implies
        es2[j].unwrap().hash == hash_of(es2[j].unwrap().key@) by {
        if j != i {
            assert(es2[j] == es[j]);
        }
    }
    assert forall|a: int, b: int|
        0 <= a < es2.len() && 0 <= b < es2.len() && a != b && slot_live(#[trigger] es2[a])
            && slot_live(#[trigger] es2[b]) implies es2[a].unwrap().key@
        != es2[b].unwrap().key@ by {
        if a != i && b != i {
            assert(es2[a] == es[a] && es2[b] == es[b]);
        } else {
            let other = if a == i {
                b
            } else {
                a
            };
            assert(es2[other] == es[other]);
            if entry_live(es[i], k) {
                assert(slot_live(es[i]));
                assert(es[other].unwrap().key@ != k);
            } else {
                if es2[other].unwrap().key@ == k {
                    assert(entry_live(es[other], k));
                    assert(has_live(es, k));
                    assert(false);
                }
            }
        }
    }
    assert forall|j: int| 0 <= j < es2.len() && slot_live(#[trigger] es2[j]) implies reachable_at(
        es2,
        j,
    ) by {
        if j == i {
            if entry_live(es[i], k) {
                assert(slot_live(es[i]));
                assert(reachable_at(es, i));
                let s = choose|s: int|
                    0 <= s < es.len() && probe_idx(cap, hash_of(es[i].unwrap().key@), s) == i
                        && path_occupied(es, hash_of(es[i].unwrap().key@), s);
                assert(es[i].unwrap().key@ == k);
                assert forall|t: int| 0 <= t < s implies es2[probe_idx(es2.len() as int, h, t)]
                    is Some by {
                    assert(es[probe_idx(cap, h, t)] is Some);
                    if probe_idx(cap, h, t) != i {
                        assert(es2[probe_idx(cap, h, t)] == es[probe_idx(cap, h, t)]);
                    }
                }
                assert(probe_idx(es2.len() as int, hash_of(es2[j].unwrap().key@), s) == j
                    && path_occupied(es2, hash_of(es2[j].unwrap().key@), s));
            } else {
                let s = choose|s: int|
                    0 <= s < es.len() && probe_idx(cap, h, s) == i && path_live(es, h, s);
                assert forall|t: int| 0 <= t < s implies es2[probe_idx(es2.len() as int, h, t)]
                    is Some by {
                    assert(es[probe_idx(cap, h, t)] is Some);
                    if probe_idx(cap, h, t) != i {
                        assert(es2[probe_idx(cap, h, t)] == es[probe_idx(cap, h, t)]);
                    }
                }
                assert(probe_idx(es2.len() as int, hash_of(es2[j].unwrap().key@), s) == j
                    && path_occupied(es2, hash_of(es2[j].unwrap().key@), s));
            }
        } else {
            assert(es2[j] == es[j]);
            assert(slot_live(es[j]));
            assert(reachable_at(es, j));
            let hj = hash_of(es[j].unwrap().key@);
            let s = choose|s: int|
                0 <= s < es.len() && probe_idx(cap, hj, s) == j && path_occupied(es, hj, s);
            assert forall|t: int| 0 <= t < s implies es2[probe_idx(es2.len() as int, hj, t)]
                is Some by {
                assert(es[probe_idx(cap, hj, t)] is Some);
                if probe_idx(cap, hj, t) != i {
                    assert(es2[probe_idx(cap, hj, t)] == es[probe_idx(cap, hj, t)]);
                }
            }
            assert(probe_idx(es2.len() as int, hash_of(es2[j].unwrap().key@), s) == j
                && path_occupied(es2, hash_of(es2[j].unwrap().key@), s));
        }
    }
    // The mapping gained exactly the one binding.
    assert(entry_live(es2[i], k));
    assert forall|x: Seq<char>| true implies #[trigger] table_contents(es2).contains_key(x)
        == table_contents(es).insert(k, en.value).contains_key(x) by {
        if x == k {
            assert(has_live(es2, k));
        } else {
            if has_live(es2, x) {
                let j = choose|j: int| 0 <= j < es2.len() && entry_live(#[trigger] es2[j], x);
                assert(j != i);
                assert(entry_live(es[j], x));
                assert(has_live(es, x));
            }
            if has_live(es, x) {
                let j = choose|j: int| 0 <= j < es.len() && entry_live(#[trigger] es[j], x);
                if j == i {
                    assert(entry_live(es[i], x) && x != k);
                    if entry_live(es[i], k) {
                        assert(false);
                    } else {
                        assert(slot_live(es[i]));
                        assert(false);
                    }
                }
                assert(entry_live(es2[j], x));
                assert(has_live(es2, x));
            }
        }
    }
    assert forall|x: Seq<char>| #[trigger] table_contents(es2).contains_key(x) implies
        table_contents(es2)[x] == table_contents(es).insert(k, en.value)[x] by {
        if x == k {
            lemma_live_value(es2, k, i);
        } else {
            let j = choose|j: int| 0 <= j < es2.len() && entry_live(#[trigger] es2[j], x);
            assert(j != i);
            assert(entry_live(es[j], x));
            lemma_live_value(es2, x, j);
            lemma_live_value(es, x, j);
        }
    }
    assert(table_contents(es2) =~= table_contents(es).insert(k, en.value));
}

/// Tombstoning the slot that holds `k` removes exactly that binding.
proof fn lemma_remove_update(es: Seq<Option<Entry>>, es2: Seq<Option<Entry>>, i: int, en: Entry)
    requires
        entries_inv(es),
        0 <= i < es.len(),
        entry_live(es[i], en.key@),
        en.is_tombstone,
        en.key@ == es[i].unwrap().key@,
        en.hash == hash_of(en.key@),
        es2 == es.update(i, Some(en)),
    ensures
        entries_inv(es2),
        table_contents(es2) == table_contents(es).remove(en.key@),
{
    let k = en.key@;
    let cap = es.len() as int;
    assert forall|j: int| 0 <= j < es2.len() && #[trigger] es2[j] is Some implies
        es2[j].unwrap().hash == hash_of(es2[j].unwrap().key@) by {
        if j != i {
            assert(es2[j] == es[j]);
        }
    }
    assert forall|a: int, b: int|
        0 <= a < es2.len() && 0 <= b < es2.len() && a != b && slot_live(#[trigger] es2[a])
            && slot_live(#[trigger] es2[b]) implies es2[a].unwrap().key@
        != es2[b].unwrap().key@ by {
        assert(a != i && b != i);
        assert(es2[a] == es[a] && es2[b] == es[b]);
    }
    assert forall|j: int| 0 <= j < es2.len() && slot_live(#[trigger] es2[j]) implies reachable_at(
        es2,
        j,
    ) by {
        assert(j != i);
        assert(es2[j] == es[j]);
        assert(slot_live(es[j]));
        assert(reachable_at(es, j));
        let hj = hash_of(es[j].unwrap().key@);
        let s = choose|s: int|
            0 <= s < es.len() && probe_idx(cap, hj, s) == j && path_occupied(es, hj, s);
        assert forall|t: int| 0 <= t < s implies es2[probe_idx(es2.len() as int, hj, t)]
            is Some by {
            assert(es[probe_idx(cap, hj, t)] is Some);
            if probe_idx(cap, hj, t) != i {
                assert(es2[probe_idx(cap, hj, t)] == es[probe_idx(cap, hj, t)]);
            }
        }
        assert(probe_idx(es2.len() as int, hash_of(es2[j].unwrap().key@), s) == j && path_occupied(
            es2,
            hash_of(es2[j].unwrap().key@),
            s,
        ));
    }
    assert forall|x: Seq<char>| true implies #[trigger] table_contents(es2).contains_key(x)
        == table_contents(es).remove(k).contains_key(x) by {
        if x == k {
            if has_live(es2, k) {
                let j = choose|j: int| 0 <= j < es2.len() && entry_live(#[trigger] es2[j], k);
                assert(j != i);
                assert(entry_live(es[j], k));
                assert(slot_live(es[i]) && slot_live(es[j]));
                assert(false);
            }
        } else {
            if has_live(es2, x) {
                let j = choose|j: int| 0 <= j < es2.len() && entry_live(#[trigger] es2[j], x);
                assert(j != i);
                assert(entry_live(es[j], x));
                assert(has_live(es, x));
            }
            if has_live(es, x) {
                let j = choose|j: int| 0 <= j < es.len() && entry_live(#[trigger] es[j], x);
                assert(j != i);
                assert(entry_live(es2[j], x));
                assert(has_live(es2, x));
            }
        }
    }
    assert forall|x: Seq<char>| #[trigger] table_contents(es2).contains_key(x) implies
        table_contents(es2)[x] == table_contents(es).remove(k)[x] by {
        let j = choose|j: int| 0 <= j < es2.len() && entry_live(#[trigger] es2[j], x);
        assert(j != i);
        assert(entry_live(es[j], x));
        lemma_live_value(es2, x, j);
        lemma_live_value(es, x, j);
    }
    assert(table_contents(es2) =~= table_contents(es).remove(k));
}

/// A live slot for a key holds exactly the value the table's mapping gives
/// that key.
proof fn lemma_live_value(es: Seq<Option<Entry>>, k: Seq<char>, i: int)
    requires
        entries_inv(es),
        0 <= i < es.len(),
        entry_live(es[i], k),
    ensures
        table_contents(es).contains_key(k),
        table_contents(es)[k] == es[i].unwrap().value,
{
    assert(has_live(es, k));
    let j = live_index(es, k);
    assert(entry_live(es[j], k));
    if i != j {
        assert(slot_live(es[i]) && slot_live(es[j]));
        assert(es[i].unwrap().key@ != es[j].unwrap().key@);
        assert(false);
    }
}

} // verus!
