//! The expiring keyspace store: a map from byte-string keys to entries,
//! keys unique, each entry carrying its value and an optional absolute
//! expiry time in milliseconds.
//!
//! The store never reads a clock of its own: every operation takes the
//! current time as an argument. Reads expire lazily (an expired entry
//! found by `get_key` is removed on the spot); `sweep` removes every
//! expired entry regardless of whether anyone reads it again.

use vstd::prelude::*;
use crate::bytes::{bytes_eq, clone_bytes};

verus! {

/// The mathematical form of one stored entry.
pub struct EntryV {
    pub value: Seq<u8>,
    pub ttl: Option<u128>,
}

/// One stored value. `ttl` holds the absolute expiry time in
/// milliseconds since the epoch, or nothing for an entry that never
/// expires.
#[derive(Debug, Clone, PartialEq, Eq)]
pub struct Entry {
    pub value: Vec<u8>,
    pub ttl: Option<u128>,
}

impl View for Entry {
    type V = EntryV;

    open spec fn view(&self) -> EntryV {
        EntryV { value: self.value@, ttl: self.ttl }
    }
}

/// Whether the entry is past its expiry at time `now`.
pub open spec fn spec_expired(e: EntryV, now: u128) -> bool {
    e.ttl matches Some(t) && now > t
}

impl Entry {
    /// Builds an entry at time `now`: a relative time-to-live of
    /// `expiration` milliseconds becomes the absolute expiry `now +
    /// expiration`; no time-to-live means the entry never expires.
    pub fn new(value: Vec<u8>, expiration: Option<u128>, now: u128) -> (r: Entry)
        requires
            expiration matches Some(e) ==> now + e <= u128::MAX,
        ensures
            r.value == value,
            r.ttl == match expiration {
                Some(e) => Some((now + e) as u128),
                None => None::<u128>,
            },
    {
        let ttl = match expiration {
            Some(e) => Some(now + e),
            None => None,
        };
        Entry { value, ttl }
    }

    /// Whether the entry carries an expiry time at all.
    pub fn has_ttl(&self) -> (r: bool)
        ensures
            r == (self.ttl is Some),
    {
        self.ttl.is_some()
    }

    /// Whether the entry is past its expiry at time `now`.
    pub fn is_expired(&self, now: u128) -> (r: bool)
        ensures
            r == spec_expired(self@, now),
    {
        match self.ttl {
            Some(t) => now > t,
            None => false,
        }
    }
}

/// The map a sequence of key-entry pairs denotes, later pairs winning.
pub open spec fn map_of(s: Seq<(Vec<u8>, Entry)>) -> Map<Seq<u8>, EntryV>
    decreases s.len(),
{
    if s.len() == 0 {
        Map::empty()
    } else {
        map_of(s.drop_last()).insert(s.last().0@, s.last().1@)
    }
}

/// Pairwise-distinct keys.
pub open spec fn unique_keys(s: Seq<(Vec<u8>, Entry)>) -> bool {
    forall|i: int, j: int| 0 <= i < j < s.len() ==> (#[trigger] s[i].0@) != (#[trigger] s[j].0@)
}

/// The keys of `map_of(s)` are exactly the keys occurring in `s`.
pub proof fn lemma_map_of_keys(s: Seq<(Vec<u8>, Entry)>)
    ensures
        forall|i: int| 0 <= i < s.len() ==> map_of(s).contains_key(#[trigger] s[i].0@),
        forall|k: Seq<u8>| #[trigger]
            map_of(s).contains_key(k) ==> exists|i: int| 0 <= i < s.len() && s[i].0@ == k,
    decreases s.len(),
{
    if s.len() > 0 {
        lemma_map_of_keys(s.drop_last());
        assert forall|i: int| 0 <= i < s.len() implies map_of(s).contains_key(
            #[trigger] s[i].0@,
        ) by {
            if i < s.len() - 1 {
                assert(s.drop_last()[i] == s[i]);
                assert(map_of(s.drop_last()).contains_key(s[i].0@));
            }
        }
        assert forall|k: Seq<u8>| #[trigger] map_of(s).contains_key(k) implies exists|i: int|
            0 <= i < s.len() && s[i].0@ == k by {
            if k == s.last().0@ {
                assert(s[s.len() - 1].0@ == k);
            } else {
                assert(map_of(s.drop_last()).contains_key(k));
                let i = choose|i: int| 0 <= i < s.len() - 1 && s.drop_last()[i].0@ == k;
                assert(s[i] == s.drop_last()[i]);
            }
        }
    }
}

/// With unique keys, `map_of` maps each key in `s` to its own entry.
pub proof fn lemma_map_of_index(s: Seq<(Vec<u8>, Entry)>, i: int)
    requires
        unique_keys(s),
        0 <= i < s.len(),
    ensures
        map_of(s)[s[i].0@] == s[i].1@,
    decreases s.len(),
{
    if i == s.len() - 1 {
    } else {
        assert(s[i].0@ != s[s.len() - 1].0@);
        assert forall|a: int, b: int|
            0 <= a < b < s.drop_last().len() implies (#[trigger] s.drop_last()[a].0@)
            != (#[trigger] s.drop_last()[b].0@) by {
            assert(s.drop_last()[a] == s[a]);
            assert(s.drop_last()[b] == s[b]);
        }
        assert(s.drop_last()[i] == s[i]);
        lemma_map_of_index(s.drop_last(), i);
    }
}

/// `drop_last` keeps keys unique.
proof fn lemma_unique_drop_last(s: Seq<(Vec<u8>, Entry)>)
    requires
        unique_keys(s),
        s.len() > 0,
    ensures
        unique_keys(s.drop_last()),
{
    assert forall|a: int, b: int|
        0 <= a < b < s.drop_last().len() implies (#[trigger] s.drop_last()[a].0@)
        != (#[trigger] s.drop_last()[b].0@) by {
        assert(s.drop_last()[a] == s[a]);
        assert(s.drop_last()[b] == s[b]);
    }
}

/// Removing one pair removes exactly its key from the map.
pub proof fn lemma_map_of_remove(s: Seq<(Vec<u8>, Entry)>, i: int)
    requires
        unique_keys(s),
        0 <= i < s.len(),
    ensures
        map_of(s.remove(i)) == map_of(s).remove(s[i].0@),
    decreases s.len(),
{
    lemma_map_of_keys(s.drop_last());
    lemma_unique_drop_last(s);
    if i == s.len() - 1 {
        assert(s.remove(i) =~= s.drop_last());
        assert(!map_of(s.drop_last()).contains_key(s[i].0@)) by {
            if map_of(s.drop_last()).contains_key(s[i].0@) {
                let j = choose|j: int|
                    0 <= j < s.drop_last().len() && s.drop_last()[j].0@ == s[i].0@;
                assert(s[j] == s.drop_last()[j]);
            }
        }
        assert(map_of(s.remove(i)) =~= map_of(s).remove(s[i].0@));
    } else {
        lemma_map_of_remove(s.drop_last(), i);
        assert(s.remove(i).drop_last() =~= s.drop_last().remove(i));
        assert(s.remove(i).last() == s.last());
        assert(s.drop_last()[i] == s[i]);
        assert(s[i].0@ != s.last().0@);
        assert(map_of(s.remove(i)) == map_of(s.drop_last().remove(i)).insert(
            s.last().0@,
            s.last().1@,
        ));
        assert(map_of(s.drop_last()).remove(s[i].0@).insert(s.last().0@, s.last().1@)
            =~= map_of(s).remove(s[i].0@));
    }
}

/// Appending one pair inserts exactly its key.
pub proof fn lemma_map_of_push(s: Seq<(Vec<u8>, Entry)>, p: (Vec<u8>, Entry))
    ensures
        map_of(s.push(p)) == map_of(s).insert(p.0@, p.1@),
{
    assert(s.push(p).drop_last() =~= s);
    assert(s.push(p).last() == p);
}

/// What a read of `k` at time `now` yields: the entry, unless the key
/// is absent or its entry has expired.
pub open spec fn spec_lookup(m: Map<Seq<u8>, EntryV>, k: Seq<u8>, now: u128) -> Option<EntryV> {
    if m.contains_key(k) && !spec_expired(m[k], now) {
        Some(m[k])
    } else {
        None
    }
}

/// What one sweep at time `now` leaves: every unexpired entry, each
/// unchanged, and nothing else.
pub open spec fn spec_sweep(m: Map<Seq<u8>, EntryV>, now: u128) -> Map<Seq<u8>, EntryV> {
    Map::new(|k: Seq<u8>| m.contains_key(k) && !spec_expired(m[k], now), |k: Seq<u8>| m[k])
}

/// The keyspace: key-entry pairs with pairwise-distinct keys, viewed
/// as the map they denote.
pub struct Store {
    entries: Vec<(Vec<u8>, Entry)>,
}

impl View for Store {
    type V = Map<Seq<u8>, EntryV>;

    closed spec fn view(&self) -> Map<Seq<u8>, EntryV> {
        map_of(self.entries@)
    }
}

impl Store {
    /// Key uniqueness, preserved by every operation.
    pub closed spec fn wf(&self) -> bool {
        unique_keys(self.entries@)
    }

    /// An empty keyspace.
    pub fn new() -> (r: Store)
        ensures
            r.wf(),
            r@ == Map::<Seq<u8>, EntryV>::empty(),
    {
        Store { entries: Vec::new() }
    }

    /// Index of the pair holding `key`, if any.
    fn find_index(&self, key: &Vec<u8>) -> (r: Option<usize>)
        ensures
            match r {
                Some(i) => i < self.entries@.len() && self.entries@[i as int].0@ == key@,
                None => forall|j: int|
                    0 <= j < self.entries@.len() ==> (#[trigger] self.entries@[j].0@) != key@,
            },
    {
        let mut i: usize = 0;
        while i < self.entries.len()
            invariant
                i <= self.entries@.len(),
                forall|j: int| 0 <= j < i ==> (#[trigger] self.entries@[j].0@) != key@,
            decreases self.entries@.len() - i,
        {
            if bytes_eq(&self.entries[i].0, key) {
                return Some(i);
            }
            i = i + 1;
        }
        None
    }

    /// Inserts or overwrites `key` with `value`, unconditionally.
    pub fn insert_key(&mut self, key: Vec<u8>, value: Entry)
        requires
            old(self).wf(),
        ensures
            final(self).wf(),
            final(self)@ == old(self)@.insert(key@, value@),
    {
        let ghost s0 = self.entries@;
        match self.find_index(&key) {
            Some(i) => {
                self.entries.remove(i);
                proof {
                    lemma_map_of_remove(s0, i as int);
                    assert forall|a: int, b: int|
                        0 <= a < b < self.entries@.len() implies (#[trigger] self.entries@[a].0@)
                        != (#[trigger] self.entries@[b].0@) by {
                        assert(self.entries@[a] == if a < i as int {
                            s0[a]
                        } else {
                            s0[a + 1]
                        });
                        assert(self.entries@[b] == if b < i as int {
                            s0[b]
                        } else {
                            s0[b + 1]
                        });
                    }
                    assert forall|j: int|
                        0 <= j < self.entries@.len() implies (#[trigger] self.entries@[j].0@)
                        != key@ by {
                        assert(self.entries@[j] == if j < i as int {
                            s0[j]
                        } else {
                            s0[j + 1]
                        });
                    }
                }
                let ghost s1 = self.entries@;
                self.entries.push((key, value));
                proof {
                    lemma_map_of_push(s1, self.entries@.last());
                    assert(map_of(s0).remove(self.entries@.last().0@).insert(
                        self.entries@.last().0@,
                        self.entries@.last().1@,
                    ) =~= map_of(s0).insert(self.entries@.last().0@, self.entries@.last().1@));
                    assert forall|a: int, b: int|
                        0 <= a < b < self.entries@.len() implies (#[trigger] self.entries@[a].0@)
                        != (#[trigger] self.entries@[b].0@) by {
                        if b < self.entries@.len() - 1 {
                            assert(self.entries@[a] == s1[a]);
                            assert(self.entries@[b] == s1[b]);
                        } else {
                            assert(self.entries@[a] == s1[a]);
                        }
                    }
                }
            },
            None => {
                self.entries.push((key, value));
                proof {
                    lemma_map_of_push(s0, self.entries@.last());
                    assert forall|a: int, b: int|
                        0 <= a < b < self.entries@.len() implies (#[trigger] self.entries@[a].0@)
                        != (#[trigger] self.entries@[b].0@) by {
                        if b < self.entries@.len() - 1 {
                            assert(self.entries@[a] == s0[a]);
                            assert(self.entries@[b] == s0[b]);
                        } else {
                            assert(self.entries@[a] == s0[a]);
                        }
                    }
                }
            },
        }
    }

    /// Reads `key` at time `now`. An expired entry is removed on the
    /// spot and reported absent; otherwise the stored entry is returned
    /// and the keyspace is unchanged.
    pub fn get_key(&mut self, key: &Vec<u8>, now: u128) -> (r: Option<Entry>)
        requires
            old(self).wf(),
        ensures
            final(self).wf(),
            match r {
                Some(e) => spec_lookup(old(self)@, key@, now) == Some(e@),
                None => spec_lookup(old(self)@, key@, now) is None,
            },
            old(self)@.contains_key(key@) && spec_expired(old(self)@[key@], now) ==> final(self)@
                == old(self)@.remove(key@),
            !(old(self)@.contains_key(key@) && spec_expired(old(self)@[key@], now))
                ==> final(self)@ == old(self)@,
    {
        let ghost s0 = self.entries@;
        proof {
            lemma_map_of_keys(s0);
        }
        match self.find_index(key) {
            None => {
                proof {
                    if map_of(s0).contains_key(key@) {
                        let i = choose|i: int| 0 <= i < s0.len() && s0[i].0@ == key@;
                    }
                }
                None
            },
            Some(i) => {
                proof {
                    lemma_map_of_index(s0, i as int);
                }
                if self.entries[i].1.is_expired(now) {
                    self.entries.remove(i);
                    proof {
                        lemma_map_of_remove(s0, i as int);
                        assert forall|a: int, b: int|
                            0 <= a < b < self.entries@.len() implies (
                            #[trigger] self.entries@[a].0@) != (
                            #[trigger] self.entries@[b].0@) by {
                            assert(self.entries@[a] == if a < i as int {
                                s0[a]
                            } else {
                                s0[a + 1]
                            });
                            assert(self.entries@[b] == if b < i as int {
                                s0[b]
                            } else {
                                s0[b + 1]
                            });
                        }
                    }
                    None
                } else {
                    let value = clone_bytes(&self.entries[i].1.value);
                    let ttl = self.entries[i].1.ttl;
                    Some(Entry { value, ttl })
                }
            },
        }
    }

    /// Removes every expired entry at time `now`, read or not.
    pub fn sweep(&mut self, now: u128)
        requires
            old(self).wf(),
        ensures
            final(self).wf(),
            final(self)@ == spec_sweep(old(self)@, now),
    {
        let ghost m0 = map_of(self.entries@);
        let mut i: usize = 0;
        while i < self.entries.len()
            invariant
                old(self).wf(),
                unique_keys(self.entries@),
                i <= self.entries@.len(),
                forall|j: int| 0 <= j < i ==> !spec_expired(#[trigger] self.entries@[j].1@, now),
                forall|k: Seq<u8>| #[trigger]
                    map_of(self.entries@).contains_key(k) ==> m0.contains_key(k) && map_of(
                        self.entries@,
                    )[k] == m0[k],
                forall|k: Seq<u8>|
                    m0.contains_key(k) && !spec_expired(m0[k], now) ==> #[trigger] map_of(
                        self.entries@,
                    ).contains_key(k),
            decreases self.entries@.len() - i,
        {
            let ghost s1 = self.entries@;
            proof {
                lemma_map_of_keys(s1);
                lemma_map_of_index(s1, i as int);
            }
            if self.entries[i].1.is_expired(now) {
                self.entries.remove(i);
                proof {
                    lemma_map_of_remove(s1, i as int);
                    assert forall|a: int, b: int|
                        0 <= a < b < self.entries@.len() implies (#[trigger] self.entries@[a].0@)
                        != (#[trigger] self.entries@[b].0@) by {
                        assert(self.entries@[a] == if a < i as int {
                            s1[a]
                        } else {
                            s1[a + 1]
                        });
                        assert(self.entries@[b] == if b < i as int {
                            s1[b]
                        } else {
                            s1[b + 1]
                        });
                    }
                    assert forall|j: int|
                        0 <= j < i implies !spec_expired(#[trigger] self.entries@[j].1@, now) by {
                        assert(self.entries@[j] == s1[j]);
                    }
                }
            } else {
                i = i + 1;
            }
        }
        proof {
            lemma_map_of_keys(self.entries@);
            let m1 = map_of(self.entries@);
            assert forall|k: Seq<u8>| #[trigger]
                m1.contains_key(k) implies m0.contains_key(k) && !spec_expired(m0[k], now)
                && m1[k] == m0[k] by {
                let j = choose|j: int|
                    0 <= j < self.entries@.len() && self.entries@[j].0@ == k;
                lemma_map_of_index(self.entries@, j);
            }
            assert(m1 =~= spec_sweep(m0, now));
        }
    }
}

/// A value written with a time-to-live is readable before its absolute
/// expiry and gone after it: `SET k v PX t` at time `now`, read at time
/// `later`, yields `v` exactly while `later <= now + t`.
pub proof fn lemma_set_then_get(
    m: Map<Seq<u8>, EntryV>,
    k: Seq<u8>,
    v: Seq<u8>,
    ttl: u128,
    now: u128,
    later: u128,
)
    requires
        now + ttl <= u128::MAX,
    ensures
        spec_lookup(
            m.insert(k, EntryV { value: v, ttl: Some((now + ttl) as u128) }),
            k,
            later,
        ) == if later <= now + ttl {
            Some(EntryV { value: v, ttl: Some((now + ttl) as u128) })
        } else {
            None::<EntryV>
        },
{
}

/// Two writes to the same key, in whichever order they are serialized,
/// leave exactly the later write's entry: never a mix of the two.
pub proof fn lemma_two_sets(m: Map<Seq<u8>, EntryV>, k: Seq<u8>, e1: EntryV, e2: EntryV)
    ensures
        m.insert(k, e1).insert(k, e2)[k] == e2,
        m.insert(k, e2).insert(k, e1)[k] == e1,
{
}

/// A sweep removes an expired entry even if nothing ever reads it.
pub proof fn lemma_sweep_removes_expired(m: Map<Seq<u8>, EntryV>, k: Seq<u8>, now: u128)
    requires
        m.contains_key(k),
        spec_expired(m[k], now),
    ensures
        !spec_sweep(m, now).contains_key(k),
{
}

} // verus!
