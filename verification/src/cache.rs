//! A key-value byte cache with optional expiry. Entries carry an absolute
//! expiry tick chosen by the caller; a sweep pass removes every entry whose
//! tick has passed. The clock itself stays outside the library: callers
//! hand in `now` as a plain number.

use vstd::prelude::*;

use crate::strutil::str_eq;

verus! {

/// A cached value: the payload bytes and an optional absolute expiry tick.
#[derive(Debug)]
pub struct CacheValue {
    pub expires: Option<u64>,
    pub bytes: Vec<u8>,
}

/// What a cache entry stands for: expiry tick and payload bytes.
pub open spec fn value_view(v: CacheValue) -> (Option<u64>, Seq<u8>) {
    (v.expires, v.bytes@)
}

/// Whether a value with this expiry tick is expired at `now`.
pub open spec fn spec_expired(expires: Option<u64>, now: u64) -> bool {
    match expires {
        Some(e) => e <= now,
        None => false,
    }
}

struct CacheEntry {
    key: String,
    value: CacheValue,
}

spec fn keys_unique(s: Seq<CacheEntry>) -> bool {
    forall|i: int, j: int| 0 <= i < j < s.len() ==> s[i].key@ != s[j].key@
}

spec fn map_of(s: Seq<CacheEntry>) -> Map<Seq<char>, (Option<u64>, Seq<u8>)>
    decreases s.len(),
{
    if s.len() == 0 {
        Map::empty()
    } else {
        map_of(s.drop_last()).insert(s.last().key@, value_view(s.last().value))
    }
}

proof fn lemma_map_of_contains(s: Seq<CacheEntry>, key: Seq<char>)
    ensures
        map_of(s).contains_key(key) <==> (exists|i: int| 0 <= i < s.len() && s[i].key@ == key),
    decreases s.len(),
{
    if s.len() > 0 {
        lemma_map_of_contains(s.drop_last(), key);
        if map_of(s).contains_key(key) {
            if s.last().key@ == key {
                assert(s[s.len() - 1].key@ == key);
            } else {
                let i = choose|i: int|
                    0 <= i < s.drop_last().len() && s.drop_last()[i].key@ == key;
                assert(s[i].key@ == key);
            }
        }
        if exists|i: int| 0 <= i < s.len() && s[i].key@ == key {
            let i = choose|i: int| 0 <= i < s.len() && s[i].key@ == key;
            if i < s.len() - 1 {
                assert(s.drop_last()[i].key@ == key);
            }
        }
    }
}

proof fn lemma_map_of_get(s: Seq<CacheEntry>, i: int)
    requires
        keys_unique(s),
        0 <= i < s.len(),
    ensures
        map_of(s).contains_key(s[i].key@),
        map_of(s)[s[i].key@] == value_view(s[i].value),
    decreases s.len(),
{
    if i < s.len() - 1 {
        assert(s.drop_last()[i] == s[i]);
        lemma_map_of_get(s.drop_last(), i);
        assert(s.last().key@ != s[i].key@);
    }
}

proof fn lemma_map_of_update(s: Seq<CacheEntry>, i: int, e: CacheEntry)
    requires
        keys_unique(s),
        0 <= i < s.len(),
        e.key@ == s[i].key@,
    ensures
        keys_unique(s.update(i, e)),
        map_of(s.update(i, e)) == map_of(s).insert(e.key@, value_view(e.value)),
    decreases s.len(),
{
    let s2 = s.update(i, e);
    assert forall|p: int, q: int| 0 <= p < q < s2.len() implies s2[p].key@ != s2[q].key@ by {
        assert(s[p].key@ != s[q].key@);
    }
    if i == s.len() - 1 {
        assert(s2.drop_last() =~= s.drop_last());
        assert(map_of(s2) =~= map_of(s).insert(e.key@, value_view(e.value)));
    } else {
        lemma_map_of_update(s.drop_last(), i, e);
        assert(s2.drop_last() =~= s.drop_last().update(i, e));
        assert(s2.last() == s.last());
        assert(s.last().key@ != e.key@);
        assert(map_of(s2) =~= map_of(s).insert(e.key@, value_view(e.value)));
    }
}

proof fn lemma_map_of_push(s: Seq<CacheEntry>, e: CacheEntry)
    requires
        keys_unique(s),
        forall|i: int| 0 <= i < s.len() ==> s[i].key@ != e.key@,
    ensures
        keys_unique(s.push(e)),
        map_of(s.push(e)) == map_of(s).insert(e.key@, value_view(e.value)),
{
    assert(s.push(e).drop_last() =~= s);
    assert(s.push(e).last() == e);
}

proof fn lemma_map_of_remove(s: Seq<CacheEntry>, i: int)
    requires
        keys_unique(s),
        0 <= i < s.len(),
    ensures
        keys_unique(s.remove(i)),
        map_of(s.remove(i)) == map_of(s).remove(s[i].key@),
    decreases s.len(),
{
    let s2 = s.remove(i);
    assert forall|p: int, q: int| 0 <= p < q < s2.len() implies s2[p].key@ != s2[q].key@ by {
        if q < i {
            assert(s2[p] == s[p] && s2[q] == s[q]);
        } else if p < i {
            assert(s2[p] == s[p] && s2[q] == s[q + 1]);
        } else {
            assert(s2[p] == s[p + 1] && s2[q] == s[q + 1]);
        }
    }
    if i == s.len() - 1 {
        assert(s2 =~= s.drop_last());
        lemma_map_of_contains(s.drop_last(), s[i].key@);
        assert(map_of(s.drop_last()) =~= map_of(s).remove(s[i].key@));
    } else {
        lemma_map_of_remove(s.drop_last(), i);
        assert(s2.drop_last() =~= s.drop_last().remove(i));
        assert(s2.last() == s.last());
        assert(s.last().key@ != s[i].key@);
        assert(map_of(s2) =~= map_of(s).remove(s[i].key@));
    }
}

proof fn lemma_map_of_card(s: Seq<CacheEntry>)
    requires
        keys_unique(s),
    ensures
        map_of(s).dom().finite(),
        map_of(s).dom().len() == s.len(),
    decreases s.len(),
{
    if s.len() > 0 {
        lemma_map_of_card(s.drop_last());
        lemma_map_of_contains(s.drop_last(), s.last().key@);
        assert(!map_of(s.drop_last()).contains_key(s.last().key@));
        assert(map_of(s).dom() =~= map_of(s.drop_last()).dom().insert(s.last().key@));
    }
}

/// A simple keyed byte cache with optional per-entry expiry.
pub struct SimpleCache {
    entries: Vec<CacheEntry>,
}

impl View for SimpleCache {
    type V = Map<Seq<char>, (Option<u64>, Seq<u8>)>;

    closed spec fn view(&self) -> Map<Seq<char>, (Option<u64>, Seq<u8>)> {
        map_of(self.entries@)
    }
}

impl SimpleCache {
    /// The cache's internal invariant: entry keys are unique.
    pub closed spec fn wf(&self) -> bool {
        keys_unique(self.entries@)
    }

    /// An empty cache. Expiry is enforced by explicit `sweep` calls, not
    /// by a background task: the caller owns the clock.
    pub fn new() -> (r: Self)
        ensures
            r.wf(),
            r@ == Map::<Seq<char>, (Option<u64>, Seq<u8>)>::empty(),
    {
        Self { entries: Vec::new() }
    }

    fn find(&self, key: &str) -> (r: Option<usize>)
        requires
            self.wf(),
        ensures
            match r {
                Some(i) => i < self.entries@.len() && self.entries@[i as int].key@ == key@,
                None => forall|i: int|
                    0 <= i < self.entries@.len() ==> self.entries@[i].key@ != key@,
            },
    {
        let mut i: usize = 0;
        while i < self.entries.len()
            invariant
                i <= self.entries@.len(),
                forall|j: int| 0 <= j < i ==> self.entries@[j].key@ != key@,
            decreases self.entries@.len() - i,
        {
            if str_eq(self.entries[i].key.as_str(), key) {
                return Some(i);
            }
            i += 1;
        }
        None
    }

    /// Store `bytes` under `key` with an optional absolute expiry tick,
    /// replacing any previous entry for the key.
    pub fn set(&mut self, key: String, bytes: Vec<u8>, expires: Option<u64>)
        requires
            old(self).wf(),
        ensures
            final(self).wf(),
            final(self)@ == old(self)@.insert(key@, (expires, bytes@)),
    {
        let e = CacheEntry { key, value: CacheValue { expires, bytes } };
        match self.find(e.key.as_str()) {
            Some(i) => {
                proof {
                    lemma_map_of_update(self.entries@, i as int, e);
                }
                self.entries.set(i, e);
            },
            None => {
                proof {
                    lemma_map_of_push(self.entries@, e);
                }
                self.entries.push(e);
            },
        }
    }

    /// The payload stored under `key`, if any; expiry is not consulted.
    pub fn get(&self, key: &str) -> (r: Option<Vec<u8>>)
        requires
            self.wf(),
        ensures
            match r {
                Some(v) => self@.contains_key(key@) && v@ == self@[key@].1,
                None => !self@.contains_key(key@),
            },
    {
        match self.find(key) {
            Some(i) => {
                proof {
                    lemma_map_of_get(self.entries@, i as int);
                }
                Some(vstd::slice::slice_to_vec(self.entries[i].value.bytes.as_slice()))
            },
            None => {
                proof {
                    lemma_map_of_contains(self.entries@, key@);
                }
                None
            },
        }
    }

    /// Drop the entry stored under `key`, if any.
    pub fn remove(&mut self, key: &str)
        requires
            old(self).wf(),
        ensures
            final(self).wf(),
            final(self)@ == old(self)@.remove(key@),
    {
        match self.find(key) {
            Some(i) => {
                proof {
                    lemma_map_of_remove(self.entries@, i as int);
                }
                self.entries.remove(i);
            },
            None => {
                proof {
                    lemma_map_of_contains(self.entries@, key@);
                    assert(self@.remove(key@) =~= self@);
                }
            },
        }
    }

    /// Drop every entry.
    pub fn clear(&mut self)
        requires
            old(self).wf(),
        ensures
            final(self).wf(),
            final(self)@ == Map::<Seq<char>, (Option<u64>, Seq<u8>)>::empty(),
    {
        self.entries.clear();
    }

    /// The number of entries.
    pub fn len(&self) -> (r: usize)
        requires
            self.wf(),
        ensures
            self@.dom().finite(),
            r == self@.dom().len(),
    {
        proof {
            lemma_map_of_card(self.entries@);
        }
        self.entries.len()
    }

    /// Whether the cache holds no entry.
    pub fn is_empty(&self) -> (r: bool)
        requires
            self.wf(),
        ensures
            self@.dom().finite(),
            r == (self@.dom().len() == 0),
    {
        proof {
            lemma_map_of_card(self.entries@);
        }
        self.entries.is_empty()
    }

    /// Remove every entry whose expiry tick has passed at `now`, keeping
    /// all others unchanged. This is the periodic sweep a caller drives
    /// from its own timer.
    pub fn sweep(&mut self, now: u64)
        requires
            old(self).wf(),
        ensures
            final(self).wf(),
            forall|k: Seq<char>|
                #[trigger] final(self)@.contains_key(k) <==> (old(self)@.contains_key(k)
                    && !spec_expired(old(self)@[k].0, now)),
            forall|k: Seq<char>| #[trigger]
                final(self)@.contains_key(k) ==> final(self)@[k] == old(self)@[k],
    {
        let ghost orig = self.entries@;
        let mut i: usize = 0;
        let ghost mut p: int = 0;
        while i < self.entries.len()
            invariant
                keys_unique(orig),
                keys_unique(self.entries@),
                i <= self.entries@.len(),
                0 <= p <= orig.len(),
                self.entries@.len() - i == orig.len() - p,
                self.entries@.skip(i as int) == orig.skip(p),
                forall|j: int|
                    0 <= j < i ==> !spec_expired(#[trigger] self.entries@[j].value.expires, now),
                forall|j: int|
                    0 <= j < i ==> exists|oi: int|
                        0 <= oi < p && #[trigger] self.entries@[j] == orig[oi],
                forall|oi: int|
                    0 <= oi < p && !spec_expired(#[trigger] orig[oi].value.expires, now)
                        ==> exists|j: int| 0 <= j < i && self.entries@[j] == orig[oi],
            decreases self.entries@.len() - i,
        {
            proof {
                assert(self.entries@[i as int] == self.entries@.skip(i as int)[0]);
                assert(self.entries@[i as int] == orig[p]);
            }
            let expired = match self.entries[i].value.expires {
                Some(e) => e <= now,
                None => false,
            };
            proof {
                assert(expired == spec_expired(orig[p].value.expires, now));
            }
            if expired {
                let ghost before = self.entries@;
                proof {
                    lemma_map_of_remove(self.entries@, i as int);
                }
                self.entries.remove(i);
                proof {
                    assert forall|m: int| #![trigger orig.skip(p + 1)[m]]
                        0 <= m < self.entries@.len() - i implies self.entries@.skip(i as int)[m]
                        == orig.skip(p + 1)[m] by {
                        assert(self.entries@.skip(i as int)[m] == self.entries@[i + m]);
                        assert(self.entries@[i + m] == before[i + m + 1]);
                        assert(before.skip(i as int)[m + 1] == before[i + m + 1]);
                        assert(orig.skip(p)[m + 1] == orig[p + m + 1]);
                        assert(orig.skip(p + 1)[m] == orig[p + 1 + m]);
                    }
                    assert(self.entries@.skip(i as int) =~= orig.skip(p + 1));
                    assert forall|j: int| 0 <= j < i implies #[trigger] self.entries@[j]
                        == before[j] by {}
                    assert forall|oi: int|
                        0 <= oi < p + 1 && !spec_expired(
                            #[trigger] orig[oi].value.expires,
                            now,
                        ) implies exists|j: int|
                        0 <= j < i && self.entries@[j] == orig[oi] by {
                        assert(oi < p);
                        let j = choose|j: int| 0 <= j < i && before[j] == orig[oi];
                        assert(self.entries@[j] == orig[oi]);
                    }
                    p = p + 1;
                }
            } else {
                proof {
                    assert forall|m: int| #![trigger orig.skip(p + 1)[m]]
                        0 <= m < self.entries@.len() - i - 1 implies self.entries@.skip(
                        i as int + 1,
                    )[m] == orig.skip(p + 1)[m] by {
                        assert(self.entries@.skip(i as int + 1)[m] == self.entries@[i + 1 + m]);
                        assert(self.entries@.skip(i as int)[m + 1] == self.entries@[i + 1 + m]);
                        assert(orig.skip(p)[m + 1] == orig[p + m + 1]);
                        assert(orig.skip(p + 1)[m] == orig[p + 1 + m]);
                    }
                    assert(self.entries@.skip(i as int + 1) =~= orig.skip(p + 1));
                    assert(self.entries@[i as int] == orig[p]);
                    assert(!spec_expired(self.entries@[i as int].value.expires, now));
                    assert forall|oi: int|
                        0 <= oi < p + 1 && !spec_expired(
                            #[trigger] orig[oi].value.expires,
                            now,
                        ) implies exists|j: int|
                        0 <= j < i + 1 && self.entries@[j] == orig[oi] by {
                        if oi == p {
                            assert(self.entries@[i as int] == orig[oi]);
                        } else {
                            let j = choose|j: int| 0 <= j < i && self.entries@[j] == orig[oi];
                            assert(self.entries@[j] == orig[oi]);
                        }
                    }
                    p = p + 1;
                }
                i += 1;
            }
        }
        proof {
            let fin = self.entries@;
            assert(fin.len() == i);
            assert forall|k: Seq<char>| #[trigger]
                map_of(fin).contains_key(k) implies (map_of(orig).contains_key(k)
                && !spec_expired(map_of(orig)[k].0, now)) by {
                lemma_map_of_contains(fin, k);
                let j = choose|j: int| 0 <= j < fin.len() && fin[j].key@ == k;
                let oi = choose|oi: int| 0 <= oi < orig.len() && fin[j] == orig[oi];
                lemma_map_of_get(fin, j);
                lemma_map_of_get(orig, oi);
            }
            assert forall|k: Seq<char>|
                (map_of(orig).contains_key(k) && !spec_expired(
                    map_of(orig)[k].0,
                    now,
                )) implies #[trigger] map_of(fin).contains_key(k) by {
                lemma_map_of_contains(orig, k);
                let oi = choose|oi: int| 0 <= oi < orig.len() && orig[oi].key@ == k;
                lemma_map_of_get(orig, oi);
                assert(!spec_expired(orig[oi].value.expires, now));
                let j = choose|j: int| 0 <= j < fin.len() && fin[j] == orig[oi];
                lemma_map_of_get(fin, j);
            }
            assert forall|k: Seq<char>| #[trigger]
                map_of(fin).contains_key(k) implies map_of(fin)[k] == map_of(orig)[k] by {
                lemma_map_of_contains(fin, k);
                let j = choose|j: int| 0 <= j < fin.len() && fin[j].key@ == k;
                let oi = choose|oi: int| 0 <= oi < orig.len() && fin[j] == orig[oi];
                lemma_map_of_get(fin, j);
                lemma_map_of_get(orig, oi);
            }
        }
    }
}

} // verus!
