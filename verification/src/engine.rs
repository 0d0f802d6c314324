//! The in-memory storage engine: a byte-budgeted key-value store with exact
//! least-recently-used eviction.
//!
//! The store is modelled as a sequence of `(key, value)` pairs ordered by
//! recency, least recently touched first. Every `get` hit and every `set`
//! moves the touched entry to the end of the sequence; eviction removes
//! entries from the front. A running byte count (the sum of key and value
//! lengths over all entries) never exceeds the configured limit once an
//! operation has returned.
//!
//! Of the two eviction strategies this design admits — exact LRU under a
//! single owner, or sampled approximation — this engine implements the exact
//! variant: the evicted entry is always the globally least recently touched
//! one. Callers that share the engine serialize access to it; within one
//! owner the order is exact by construction.

use vstd::prelude::*;

use crate::error::BlinkError;

verus! {

/// The byte cost of one stored entry: key length plus value length.
pub open spec fn entry_bytes(e: (Seq<u8>, Seq<u8>)) -> int {
    e.0.len() + e.1.len() as int
}

/// The byte cost of all entries of `s` together.
pub open spec fn usage_of(s: Seq<(Seq<u8>, Seq<u8>)>) -> int
    decreases s.len(),
{
    if s.len() == 0 {
        0
    } else {
        usage_of(s.drop_last()) + entry_bytes(s.last())
    }
}

/// Whether some entry of `s` has key `k`.
pub open spec fn has_key(s: Seq<(Seq<u8>, Seq<u8>)>, k: Seq<u8>) -> bool {
    exists|i: int| 0 <= i < s.len() && s[i].0 == k
}

/// The index of the entry with key `k` (unique when keys are distinct).
pub open spec fn key_index(s: Seq<(Seq<u8>, Seq<u8>)>, k: Seq<u8>) -> int {
    choose|i: int| 0 <= i < s.len() && s[i].0 == k
}

/// The value stored under key `k`.
pub open spec fn value_of(s: Seq<(Seq<u8>, Seq<u8>)>, k: Seq<u8>) -> Seq<u8> {
    s[key_index(s, k)].1
}

/// Whether the keys of `s` are pairwise distinct.
pub open spec fn distinct_keys(s: Seq<(Seq<u8>, Seq<u8>)>) -> bool {
    forall|i: int, j: int| 0 <= i < j < s.len() ==> s[i].0 != s[j].0
}

/// `s` without its first entry keyed `k`; `s` itself when `k` is absent.
pub open spec fn remove_key(s: Seq<(Seq<u8>, Seq<u8>)>, k: Seq<u8>) -> Seq<(Seq<u8>, Seq<u8>)>
    decreases s.len(),
{
    if s.len() == 0 {
        s
    } else if s[0].0 == k {
        s.drop_first()
    } else {
        seq![s[0]] + remove_key(s.drop_first(), k)
    }
}

/// Entries left after evicting from the least recent end until `need` more
/// bytes fit under `limit`; evicts everything if nothing smaller suffices.
pub open spec fn evict_to_fit(s: Seq<(Seq<u8>, Seq<u8>)>, need: int, limit: int) -> Seq<
    (Seq<u8>, Seq<u8>),
>
    decreases s.len(),
{
    if s.len() == 0 || usage_of(s) + need <= limit {
        s
    } else {
        evict_to_fit(s.drop_first(), need, limit)
    }
}

/// The store after a successful `set` of `(k, v)` under byte budget `limit`:
/// any previous entry for `k` goes away, then the least recently used
/// entries are evicted until the new entry fits, then it is appended as the
/// most recent entry.
pub open spec fn set_result(
    s: Seq<(Seq<u8>, Seq<u8>)>,
    k: Seq<u8>,
    v: Seq<u8>,
    limit: int,
) -> Seq<(Seq<u8>, Seq<u8>)> {
    evict_to_fit(remove_key(s, k), k.len() + v.len() as int, limit).push((k, v))
}

/// The store after a `get` hit on `k`: the entry moves to the most recent
/// end, its value unchanged.
pub open spec fn touch_result(s: Seq<(Seq<u8>, Seq<u8>)>, k: Seq<u8>) -> Seq<(Seq<u8>, Seq<u8>)> {
    remove_key(s, k).push((k, value_of(s, k)))
}

/// Byte usage is never negative.
pub proof fn lemma_usage_nonneg(s: Seq<(Seq<u8>, Seq<u8>)>)
    ensures
        usage_of(s) >= 0,
    decreases s.len(),
{
    if s.len() > 0 {
        lemma_usage_nonneg(s.drop_last());
    }
}

/// Byte usage decomposes at the front as well as at the back.
pub proof fn lemma_usage_drop_first(s: Seq<(Seq<u8>, Seq<u8>)>)
    requires
        s.len() > 0,
    ensures
        usage_of(s) == entry_bytes(s[0]) + usage_of(s.drop_first()),
    decreases s.len(),
{
    if s.len() == 1 {
        assert(s.drop_first() =~= Seq::<(Seq<u8>, Seq<u8>)>::empty());
        assert(s.drop_last() =~= Seq::<(Seq<u8>, Seq<u8>)>::empty());
    } else {
        lemma_usage_drop_first(s.drop_last());
        assert(s.drop_last().drop_first() =~= s.drop_first().drop_last());
        assert(s.drop_first().len() > 0);
        assert(usage_of(s.drop_first()) == usage_of(s.drop_first().drop_last()) + entry_bytes(
            s.drop_first().last(),
        ));
        assert(s.drop_first().last() == s.last());
        assert(s.drop_last()[0] == s[0]);
    }
}

/// Removing the entry at index `i` frees exactly its byte cost.
pub proof fn lemma_usage_remove(s: Seq<(Seq<u8>, Seq<u8>)>, i: int)
    requires
        0 <= i < s.len(),
    ensures
        usage_of(s.remove(i)) == usage_of(s) - entry_bytes(s[i]),
    decreases s.len(),
{
    if i == s.len() - 1 {
        assert(s.remove(i) =~= s.drop_last());
    } else {
        lemma_usage_remove(s.drop_last(), i);
        assert(s.remove(i).drop_last() =~= s.drop_last().remove(i));
        assert(s.remove(i).len() > 0);
        assert(s.remove(i).last() == s.last());
        assert(usage_of(s.remove(i)) == usage_of(s.remove(i).drop_last()) + entry_bytes(
            s.remove(i).last(),
        ));
    }
}

/// Appending an entry adds exactly its byte cost.
pub proof fn lemma_usage_push(s: Seq<(Seq<u8>, Seq<u8>)>, e: (Seq<u8>, Seq<u8>))
    ensures
        usage_of(s.push(e)) == usage_of(s) + entry_bytes(e),
{
    assert(s.push(e).drop_last() =~= s);
    assert(s.push(e).last() == e);
}

/// Removing an absent key changes nothing.
pub proof fn lemma_remove_key_absent(s: Seq<(Seq<u8>, Seq<u8>)>, k: Seq<u8>)
    requires
        !has_key(s, k),
    ensures
        remove_key(s, k) == s,
    decreases s.len(),
{
    if s.len() > 0 {
        assert(s[0].0 != k);
        assert(!has_key(s.drop_first(), k)) by {
            assert(forall|i: int|
                0 <= i < s.drop_first().len() ==> s.drop_first()[i] == s[i + 1]);
        }
        lemma_remove_key_absent(s.drop_first(), k);
        assert(seq![s[0]] + s.drop_first() =~= s);
    }
}

/// When the first entry keyed `k` sits at index `i`, `remove_key` is exactly
/// removal at `i`.
pub proof fn lemma_remove_key_at(s: Seq<(Seq<u8>, Seq<u8>)>, k: Seq<u8>, i: int)
    requires
        0 <= i < s.len(),
        s[i].0 == k,
        forall|j: int| 0 <= j < i ==> s[j].0 != k,
    ensures
        remove_key(s, k) == s.remove(i),
    decreases i,
{
    if i == 0 {
        assert(remove_key(s, k) == s.drop_first());
        assert(s.remove(0) =~= s.drop_first());
    } else {
        assert(s[0].0 != k);
        lemma_remove_key_at(s.drop_first(), k, i - 1);
        assert(remove_key(s, k) == seq![s[0]] + s.drop_first().remove(i - 1));
        assert(seq![s[0]] + s.drop_first().remove(i - 1) =~= s.remove(i));
    }
}

/// Under distinct keys, removing `k` keeps the other entries, their order and
/// their distinctness, and leaves no entry keyed `k`.
pub proof fn lemma_remove_key_props(s: Seq<(Seq<u8>, Seq<u8>)>, k: Seq<u8>)
    requires
        distinct_keys(s),
    ensures
        distinct_keys(remove_key(s, k)),
        !has_key(remove_key(s, k), k),
        usage_of(remove_key(s, k)) == usage_of(s) - if has_key(s, k) {
            entry_bytes((k, value_of(s, k)))
        } else {
            0
        },
{
    if has_key(s, k) {
        let i = key_index(s, k);
        assert(0 <= i < s.len() && s[i].0 == k);
        assert(forall|j: int| 0 <= j < i ==> s[j].0 != k);
        lemma_remove_key_at(s, k, i);
        lemma_usage_remove(s, i);
        assert(s[i].1 == value_of(s, k));
        let r = s.remove(i);
        assert(forall|j: int| 0 <= j < r.len() ==> r[j] == (if j < i {
            s[j]
        } else {
            s[j + 1]
        }));
        assert(distinct_keys(r));
        assert(!has_key(r, k));
    } else {
        lemma_remove_key_absent(s, k);
    }
}

/// The entries kept by eviction are a suffix of the store — eviction only
/// ever removes the least recently touched entries — and an entry is evicted
/// only while the budget still overflows. Together with the recency order of
/// the store (least recent first), this is the exact-LRU eviction guarantee.
pub proof fn lemma_evict_takes_least_recent(s: Seq<(Seq<u8>, Seq<u8>)>, need: int, limit: int)
    ensures
        evict_to_fit(s, need, limit).len() <= s.len(),
        evict_to_fit(s, need, limit) == s.skip(s.len() - evict_to_fit(s, need, limit).len()),
        evict_to_fit(s, need, limit).len() < s.len() ==> usage_of(
            s.skip(s.len() - evict_to_fit(s, need, limit).len() - 1),
        ) + need > limit,
    decreases s.len(),
{
    let r = evict_to_fit(s, need, limit);
    if s.len() == 0 || usage_of(s) + need <= limit {
        assert(r =~= s.skip(0));
    } else {
        lemma_evict_takes_least_recent(s.drop_first(), need, limit);
        assert(s.drop_first().skip(s.drop_first().len() - r.len()) =~= s.skip(s.len() - r.len()));
        if r.len() < s.drop_first().len() {
            assert(s.drop_first().skip(s.drop_first().len() - r.len() - 1) =~= s.skip(
                s.len() - r.len() - 1,
            ));
        } else {
            assert(s.skip(s.len() - r.len() - 1) =~= s);
        }
    }
}

/// One stored entry: a key and its value.
struct Entry {
    key: Vec<u8>,
    value: Vec<u8>,
}

/// The recency-ordered model of a vector of entries.
spec fn entries_view(es: Seq<Entry>) -> Seq<(Seq<u8>, Seq<u8>)> {
    Seq::new(es.len(), |i: int| (es[i].key@, es[i].value@))
}

/// The in-memory engine: recency-ordered entries, the byte limit, and the
/// running byte usage.
pub struct MemoryEngine {
    entries: Vec<Entry>,
    limit_bytes: u64,
    current_usage: u64,
}

impl View for MemoryEngine {
    type V = Seq<(Seq<u8>, Seq<u8>)>;

    closed spec fn view(&self) -> Seq<(Seq<u8>, Seq<u8>)> {
        entries_view(self.entries@)
    }
}

/// The index of the entry keyed `key`, if any.
fn find_key(entries: &Vec<Entry>, key: &[u8]) -> (r: Option<usize>)
    ensures
        match r {
            Some(i) => i < entries@.len() && entries@[i as int].key@ == key@,
            None => !has_key(entries_view(entries@), key@),
        },
{
    let n = entries.len();
    let mut i: usize = 0;
    while i < n
        invariant
            0 <= i <= n,
            n == entries@.len(),
            forall|j: int| 0 <= j < i ==> entries@[j].key@ != key@,
        decreases n - i,
    {
        if crate::util::bytes_eq(entries[i].key.as_slice(), key) {
            return Some(i);
        }
        i = i + 1;
    }
    assert(forall|j: int| 0 <= j < entries_view(entries@).len()
        ==> entries_view(entries@)[j].0 != key@);
    None
}

impl MemoryEngine {
    /// The engine's configured byte limit.
    pub closed spec fn limit(self) -> u64 {
        self.limit_bytes
    }

    #[verifier::type_invariant]
    spec fn wf(self) -> bool {
        &&& distinct_keys(self@)
        &&& self.current_usage == usage_of(self@)
        &&& usage_of(self@) <= self.limit_bytes
    }

    /// Creates an engine with the given byte limit; the store starts empty.
    pub fn new(limit_bytes: u64) -> (r: Result<MemoryEngine, BlinkError>)
        ensures
            r matches Ok(e) && e@ == Seq::<(Seq<u8>, Seq<u8>)>::empty() && e.limit()
                == limit_bytes,
    {
        let entries: Vec<Entry> = Vec::new();
        proof {
            assert(entries_view(entries@) =~= Seq::<(Seq<u8>, Seq<u8>)>::empty());
        }
        Ok(MemoryEngine { entries, limit_bytes, current_usage: 0 })
    }

    /// The byte usage of the store: the sum of key and value lengths over
    /// all live entries.
    pub fn current_usage_bytes(&self) -> (r: Result<u64, BlinkError>)
        ensures
            r matches Ok(n) && n == usage_of(self@),
    {
        proof {
            use_type_invariant(self);
        }
        Ok(self.current_usage)
    }

    /// Looks `key` up. A hit also refreshes the entry's recency — the entry
    /// becomes the most recently touched — so `get` takes the store to
    /// `touch_result`; a miss leaves the store unchanged.
    pub fn get(&mut self, key: &[u8]) -> (r: Result<Option<Vec<u8>>, BlinkError>)
        ensures
            final(self).limit() == old(self).limit(),
            match r {
                Ok(Some(v)) => has_key(old(self)@, key@) && v@ == value_of(old(self)@, key@)
                    && final(self)@ == touch_result(old(self)@, key@),
                Ok(None) => !has_key(old(self)@, key@) && final(self)@ == old(self)@,
                Err(_) => false,
            },
    {
        proof {
            use_type_invariant(&*self);
        }
        let ghost s0 = self@;
        let i = match find_key(&self.entries, key) {
            None => {
                return Ok(None);
            },
            Some(i) => i,
        };
        proof {
            assert(s0[i as int].0 == key@);
            assert(has_key(s0, key@));
            assert forall|j: int| 0 <= j < i implies s0[j].0 != key@ by {
                assert(s0[j].0 != s0[i as int].0);
            }
            let j = key_index(s0, key@);
            assert(0 <= j < s0.len() && s0[j].0 == key@);
            if j < i {
                assert(s0[j].0 != s0[i as int].0);
            } else if j > i {
                assert(s0[i as int].0 != s0[j].0);
            }
            assert(j == i);
            lemma_remove_key_at(s0, key@, i as int);
            lemma_usage_remove(s0, i as int);
        }
        let mut taken = MemoryEngine {
            entries: Vec::new(),
            limit_bytes: self.limit_bytes,
            current_usage: 0,
        };
        proof {
            assert(entries_view(Seq::<Entry>::empty()) =~= Seq::<(Seq<u8>, Seq<u8>)>::empty());
        }
        core::mem::swap(self, &mut taken);
        let MemoryEngine { mut entries, limit_bytes, current_usage } = taken;
        let e = entries.remove(i);
        let v = crate::util::sub_bytes(e.value.as_slice(), 0, e.value.len());
        proof {
            assert(v@ =~= e.value@);
            assert(v@ == value_of(s0, key@));
            assert(entries_view(entries@) =~= s0.remove(i as int));
        }
        entries.push(e);
        proof {
            assert(entries_view(entries@) =~= s0.remove(i as int).push((key@, value_of(s0, key@))));
            assert(entries_view(entries@) == touch_result(s0, key@));
            lemma_usage_push(s0.remove(i as int), (key@, value_of(s0, key@)));
            assert(usage_of(entries_view(entries@)) == current_usage);
            assert(distinct_keys(s0.remove(i as int))) by {
                lemma_remove_key_props(s0, key@);
            }
            assert(!has_key(s0.remove(i as int), key@)) by {
                lemma_remove_key_props(s0, key@);
            }
            assert(distinct_keys(entries_view(entries@)));
        }
        *self = MemoryEngine { entries, limit_bytes, current_usage };
        Ok(Some(v))
    }

    /// Stores `value` under `key`. When the new entry cannot fit beside the
    /// rest, the least recently touched entries are evicted first; when it
    /// cannot fit even in an empty store, the call fails with `AtCapacity`
    /// and the store is left unchanged. A successful `set` leaves the byte
    /// usage at or under the limit and the new entry as the most recent.
    pub fn set(&mut self, key: &[u8], value: Vec<u8>) -> (r: Result<(), BlinkError>)
        ensures
            final(self).limit() == old(self).limit(),
            key@.len() + value@.len() > old(self).limit() ==> (r matches Err(e) && e matches
                BlinkError::AtCapacity && final(self)@ == old(self)@),
            key@.len() + value@.len() <= old(self).limit() ==> r is Ok && final(self)@
                == set_result(old(self)@, key@, value@, old(self).limit() as int) && usage_of(
                final(self)@,
            ) <= old(self).limit(),
    {
        proof {
            use_type_invariant(&*self);
        }
        let ghost s0 = self@;
        let kl = key.len();
        let vl = value.len();
        if kl as u64 > self.limit_bytes || vl as u64 > self.limit_bytes - kl as u64 {
            return Err(BlinkError::AtCapacity);
        }
        let need: u64 = kl as u64 + vl as u64;
        let mut taken = MemoryEngine {
            entries: Vec::new(),
            limit_bytes: self.limit_bytes,
            current_usage: 0,
        };
        proof {
            assert(entries_view(Seq::<Entry>::empty()) =~= Seq::<(Seq<u8>, Seq<u8>)>::empty());
        }
        core::mem::swap(self, &mut taken);
        let MemoryEngine { mut entries, limit_bytes, mut current_usage } = taken;
        match find_key(&entries, key) {
            Some(i) => {
                proof {
                    assert(s0[i as int].0 == key@);
                    assert(has_key(s0, key@));
                    assert forall|j: int| 0 <= j < i implies s0[j].0 != key@ by {
                        assert(s0[j].0 != s0[i as int].0);
                    }
                    lemma_remove_key_at(s0, key@, i as int);
                    lemma_usage_remove(s0, i as int);
                    lemma_usage_nonneg(s0.remove(i as int));
                    lemma_remove_key_props(s0, key@);
                }
                let e = entries.remove(i);
                proof {
                    assert(e.key@ == s0[i as int].0 && e.value@ == s0[i as int].1);
                    assert(entries_view(entries@) =~= s0.remove(i as int));
                    assert(entry_bytes(s0[i as int]) <= current_usage);
                }
                let freed = e.key.len() as u64 + e.value.len() as u64;
                current_usage = current_usage - freed;
            },
            None => {
                proof {
                    lemma_remove_key_absent(s0, key@);
                }
            },
        }
        let ghost sr = remove_key(s0, key@);
        proof {
            assert(entries_view(entries@) == sr);
            assert(current_usage == usage_of(sr));
            lemma_remove_key_props(s0, key@);
        }
        while current_usage > limit_bytes - need
            invariant
                need <= limit_bytes,
                need == key@.len() + value@.len(),
                current_usage == usage_of(entries_view(entries@)),
                distinct_keys(entries_view(entries@)),
                !has_key(entries_view(entries@), key@),
                evict_to_fit(entries_view(entries@), need as int, limit_bytes as int)
                    == evict_to_fit(sr, need as int, limit_bytes as int),
            decreases entries@.len(),
        {
            let ghost vcur = entries_view(entries@);
            proof {
                if entries@.len() == 0 {
                    assert(vcur =~= Seq::<(Seq<u8>, Seq<u8>)>::empty());
                    assert(usage_of(vcur) == 0);
                }
                lemma_usage_drop_first(vcur);
                lemma_usage_nonneg(vcur.drop_first());
                assert(usage_of(vcur) + need > limit_bytes);
                assert(evict_to_fit(vcur, need as int, limit_bytes as int) == evict_to_fit(
                    vcur.drop_first(),
                    need as int,
                    limit_bytes as int,
                ));
            }
            let e = entries.remove(0);
            proof {
                assert(e.key@ == vcur[0].0 && e.value@ == vcur[0].1);
                assert(entries_view(entries@) =~= vcur.drop_first());
                assert(entry_bytes(vcur[0]) <= current_usage);
                assert forall|x: int|
                    0 <= x < vcur.drop_first().len() implies vcur.drop_first()[x] == vcur[x + 1] by {}
                assert(distinct_keys(vcur.drop_first()));
                assert(!has_key(vcur.drop_first(), key@));
            }
            let freed = e.key.len() as u64 + e.value.len() as u64;
            current_usage = current_usage - freed;
        }
        let ghost vfit = entries_view(entries@);
        proof {
            assert(usage_of(vfit) + need <= limit_bytes);
            assert(evict_to_fit(vfit, need as int, limit_bytes as int) == vfit);
            assert(vfit == evict_to_fit(sr, need as int, limit_bytes as int));
        }
        let k = crate::util::sub_bytes(key, 0, kl);
        proof {
            assert(k@ =~= key@);
        }
        entries.push(Entry { key: k, value });
        current_usage = current_usage + need;
        proof {
            assert(entries_view(entries@) =~= vfit.push((key@, value@)));
            lemma_usage_push(vfit, (key@, value@));
            assert(entries_view(entries@) == set_result(s0, key@, value@, limit_bytes as int));
            let vnew = entries_view(entries@);
            assert forall|a: int, b: int| 0 <= a < b < vnew.len() implies vnew[a].0 != vnew[b].0 by {
                if b == vnew.len() - 1 {
                    assert(vnew[a] == vfit[a]);
                    if vnew[a].0 == key@ {
                        assert(has_key(vfit, key@));
                    }
                } else {
                    assert(vnew[a] == vfit[a] && vnew[b] == vfit[b]);
                }
            }
        }
        *self = MemoryEngine { entries, limit_bytes, current_usage };
        Ok(())
    }

    /// Removes `key`. Returns whether it was present; the byte usage drops
    /// by the removed entry's size.
    pub fn delete(&mut self, key: &[u8]) -> (r: Result<bool, BlinkError>)
        ensures
            final(self).limit() == old(self).limit(),
            final(self)@ == remove_key(old(self)@, key@),
            match r {
                Ok(b) => b == has_key(old(self)@, key@),
                Err(_) => false,
            },
    {
        proof {
            use_type_invariant(&*self);
        }
        let ghost s0 = self@;
        let i = match find_key(&self.entries, key) {
            None => {
                proof {
                    lemma_remove_key_absent(s0, key@);
                }
                return Ok(false);
            },
            Some(i) => i,
        };
        proof {
            assert(s0[i as int].0 == key@);
            assert(has_key(s0, key@));
            assert forall|j: int| 0 <= j < i implies s0[j].0 != key@ by {
                assert(s0[j].0 != s0[i as int].0);
            }
            lemma_remove_key_at(s0, key@, i as int);
            lemma_usage_remove(s0, i as int);
            lemma_usage_nonneg(s0.remove(i as int));
            lemma_remove_key_props(s0, key@);
        }
        let mut taken = MemoryEngine {
            entries: Vec::new(),
            limit_bytes: self.limit_bytes,
            current_usage: 0,
        };
        proof {
            assert(entries_view(Seq::<Entry>::empty()) =~= Seq::<(Seq<u8>, Seq<u8>)>::empty());
        }
        core::mem::swap(self, &mut taken);
        let MemoryEngine { mut entries, limit_bytes, current_usage } = taken;
        let e = entries.remove(i);
        proof {
            assert(e.key@ == s0[i as int].0 && e.value@ == s0[i as int].1);
            assert(entries_view(entries@) =~= s0.remove(i as int));
            assert(entry_bytes(s0[i as int]) <= current_usage);
        }
        let freed = e.key.len() as u64 + e.value.len() as u64;
        let current_usage = current_usage - freed;
        *self = MemoryEngine { entries, limit_bytes, current_usage };
        Ok(true)
    }
}

/// The byte cost an entry with this key and value contributes to the store.
pub fn entry_size(key: &[u8], value: &[u8]) -> (r: u64)
    requires
        key@.len() + value@.len() <= u64::MAX,
    ensures
        r == entry_bytes((key@, value@)),
{
    key.len() as u64 + value.len() as u64
}

/// The storage interface of the engine, for callers generic over the
/// backend.
pub trait BlinkStorage {
    /// Returns the value stored under `key`, or `None` if absent.
    fn get(&mut self, key: &[u8]) -> Result<Option<Vec<u8>>, BlinkError>;

    /// Stores `value` under `key`; the backend may evict entries to stay
    /// within its byte budget.
    fn set(&mut self, key: &[u8], value: Vec<u8>) -> Result<(), BlinkError>;

    /// Removes `key`; returns whether it was present.
    fn delete(&mut self, key: &[u8]) -> Result<bool, BlinkError>;

    /// The backend's current total byte usage.
    fn current_usage_bytes(&self) -> Result<u64, BlinkError>;
}

impl BlinkStorage for MemoryEngine {
    fn get(&mut self, key: &[u8]) -> Result<Option<Vec<u8>>, BlinkError> {
        MemoryEngine::get(self, key)
    }

    fn set(&mut self, key: &[u8], value: Vec<u8>) -> Result<(), BlinkError> {
        MemoryEngine::set(self, key, value)
    }

    fn delete(&mut self, key: &[u8]) -> Result<bool, BlinkError> {
        MemoryEngine::delete(self, key)
    }

    fn current_usage_bytes(&self) -> Result<u64, BlinkError> {
        MemoryEngine::current_usage_bytes(self)
    }
}

/// Setting a key that is already present and whose new entry fits without
/// eviction adjusts the byte usage by the difference between the new and the
/// old entry size — not by the new size alone.
pub proof fn lemma_set_replaces_in_place(s: Seq<(Seq<u8>, Seq<u8>)>, k: Seq<u8>, v: Seq<u8>, limit: int)
    requires
        distinct_keys(s),
        has_key(s, k),
        usage_of(remove_key(s, k)) + k.len() + v.len() <= limit,
    ensures
        usage_of(set_result(s, k, v, limit)) == usage_of(s) + entry_bytes((k, v)) - entry_bytes(
            (k, value_of(s, k)),
        ),
{
    lemma_remove_key_props(s, k);
    assert(evict_to_fit(remove_key(s, k), k.len() + v.len() as int, limit) == remove_key(s, k));
    lemma_usage_push(remove_key(s, k), (k, v));
}

/// Deleting an absent key changes nothing, and deleting a key twice is the
/// same as deleting it once.
pub proof fn lemma_delete_idempotent(s: Seq<(Seq<u8>, Seq<u8>)>, k: Seq<u8>)
    requires
        distinct_keys(s),
    ensures
        !has_key(s, k) ==> remove_key(s, k) == s,
        !has_key(remove_key(s, k), k),
        remove_key(remove_key(s, k), k) == remove_key(s, k),
{
    lemma_remove_key_props(s, k);
    if !has_key(s, k) {
        lemma_remove_key_absent(s, k);
    }
    lemma_remove_key_absent(remove_key(s, k), k);
}

} // verus!
