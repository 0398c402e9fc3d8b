//! A time-bounded store of derived proofs, keyed by request fingerprint.
//!
//! An entry is valid for `CACHE_TTL_SECONDS` from the moment it was stored;
//! reading it does not prolong it. Nothing is ever dropped for want of room:
//! entries leave only under `cleanup`.

use crate::balance_proof::{BalanceProof, ProofView};
use crate::clock::unix_seconds;
use crate::encoding::text_eq;
use vstd::prelude::*;

verus! {

/// Number of seconds a stored proof stays valid.
pub const CACHE_TTL_SECONDS: u64 = 60;

/// Age in seconds, at `now`, of an entry stamped `timestamp`. A clock that
/// has gone backwards gives age zero.
pub open spec fn spec_age(now: u64, timestamp: u64) -> int {
    if now >= timestamp {
        now - timestamp
    } else {
        0
    }
}

/// Whether an entry stamped `timestamp` is still valid at `now`.
pub open spec fn spec_is_live(now: u64, timestamp: u64) -> bool {
    spec_age(now, timestamp) < CACHE_TTL_SECONDS
}

/// Tells whether an entry stamped `timestamp` is still valid at `now`.
pub fn is_live(now: u64, timestamp: u64) -> (live: bool)
    ensures
        live == spec_is_live(now, timestamp),
{
    now.saturating_sub(timestamp) < CACHE_TTL_SECONDS
}

/// Mathematical content of one cache entry.
pub struct CachedProof {
    pub proof: ProofView,
    pub timestamp: u64,
}

/// Mathematical content of a cache: fingerprint to entry.
pub type CacheView = Map<Seq<char>, CachedProof>;

/// What a lookup of `key` at `now` yields: the stored proof while its entry
/// is valid, nothing otherwise.
pub open spec fn spec_lookup(cache: CacheView, key: Seq<char>, now: u64) -> Option<ProofView> {
    if cache.contains_key(key) && spec_is_live(now, cache[key].timestamp) {
        Some(cache[key].proof)
    } else {
        None
    }
}

/// The cache after `proof` was stored under `key` at `now`.
pub open spec fn spec_store(cache: CacheView, key: Seq<char>, proof: ProofView, now: u64) -> CacheView {
    cache.insert(key, CachedProof { proof, timestamp: now })
}

/// The cache after a cleanup at `now`: exactly the entries still valid.
pub open spec fn spec_sweep(cache: CacheView, now: u64) -> CacheView {
    Map::new(
        |key: Seq<char>| cache.contains_key(key) && spec_is_live(now, cache[key].timestamp),
        |key: Seq<char>| cache[key],
    )
}

/// One stored proof with its fingerprint and the time it was stored.
pub struct ProofCacheEntry {
    key: String,
    proof: BalanceProof,
    timestamp: u64,
}

impl ProofCacheEntry {
    pub closed spec fn spec_key(self) -> Seq<char> {
        self.key@
    }

    pub closed spec fn content(self) -> CachedProof {
        CachedProof { proof: self.proof@, timestamp: self.timestamp }
    }
}

/// The store. No fingerprint occurs in it twice.
pub struct ProofCache {
    entries: Vec<ProofCacheEntry>,
}

spec fn holds_key(entries: Seq<ProofCacheEntry>, key: Seq<char>) -> bool {
    exists|i: int| 0 <= i < entries.len() && (#[trigger] entries[i]).spec_key() == key
}

spec fn slot_of(entries: Seq<ProofCacheEntry>, key: Seq<char>) -> int {
    choose|i: int| 0 <= i < entries.len() && (#[trigger] entries[i]).spec_key() == key
}

spec fn distinct_keys(entries: Seq<ProofCacheEntry>) -> bool {
    forall|i: int, j: int|
        0 <= i < j < entries.len() ==> (#[trigger] entries[i]).spec_key() != (
        #[trigger] entries[j]).spec_key()
}

spec fn as_map(entries: Seq<ProofCacheEntry>) -> CacheView {
    Map::new(
        |key: Seq<char>| holds_key(entries, key),
        |key: Seq<char>| entries[slot_of(entries, key)].content(),
    )
}

proof fn lemma_slot(entries: Seq<ProofCacheEntry>, i: int)
    requires
        distinct_keys(entries),
        0 <= i < entries.len(),
    ensures
        as_map(entries).contains_key(entries[i].spec_key()),
        as_map(entries)[entries[i].spec_key()] == entries[i].content(),
{
    let key = entries[i].spec_key();
    assert(holds_key(entries, key));
    let j = slot_of(entries, key);
    assert(0 <= j < entries.len() && entries[j].spec_key() == key);
    if j != i {
        if j < i {
            assert(entries[j].spec_key() != entries[i].spec_key());
        } else {
            assert(entries[i].spec_key() != entries[j].spec_key());
        }
    }
}

impl View for ProofCache {
    type V = CacheView;

    closed spec fn view(&self) -> CacheView {
        as_map(self.entries@)
    }
}

impl ProofCache {
    #[verifier::type_invariant]
    spec fn well_formed(self) -> bool {
        distinct_keys(self.entries@)
    }

    /// An empty cache.
    pub fn new() -> (cache: Self)
        ensures
            cache@ == Map::<Seq<char>, CachedProof>::empty(),
    {
        let cache = ProofCache { entries: Vec::new() };
        assert(cache@ =~= Map::<Seq<char>, CachedProof>::empty());
        cache
    }

    /// Number of entries, valid or not.
    pub fn len(&self) -> (n: usize)
        ensures
            n == self@.dom().len(),
            self@.dom().finite(),
    {
        proof {
            use_type_invariant(self);
            lemma_dom_len(self.entries@);
        }
        self.entries.len()
    }

    fn find(&self, key: &str) -> (slot: Option<usize>)
        ensures
            match slot {
                Some(i) => i < self.entries@.len() && self.entries@[i as int].spec_key() == key@,
                None => !holds_key(self.entries@, key@),
            },
    {
        let mut i: usize = 0;
        while i < self.entries.len()
            invariant
                i <= self.entries@.len(),
                forall|j: int| 0 <= j < i ==> (#[trigger] self.entries@[j]).spec_key() != key@,
            decreases self.entries@.len() - i,
        {
            if text_eq(self.entries[i].key.as_str(), key) {
                return Some(i);
            }
            i = i + 1;
        }
        None
    }

    /// The proof stored under `key`, if its entry is still valid at `now`.
    /// The cache is left as it is.
    pub fn get_at(&self, key: &str, now: u64) -> (found: Option<BalanceProof>)
        ensures
            match found {
                Some(proof) => spec_lookup(self@, key@, now) == Some(proof@),
                None => spec_lookup(self@, key@, now) is None,
            },
    {
        proof {
            use_type_invariant(self);
        }
        match self.find(key) {
            Some(i) => {
                proof {
                    lemma_slot(self.entries@, i as int);
                }
                if is_live(now, self.entries[i].timestamp) {
                    Some(self.entries[i].proof.clone())
                } else {
                    None
                }
            },
            None => None,
        }
    }

    /// Stores `proof` under `key`, stamped `now`, in place of whatever was
    /// stored under `key` before.
    pub fn put_at(&mut self, key: String, proof: BalanceProof, now: u64)
        ensures
            final(self)@ == spec_store(old(self)@, key@, proof@, now),
    {
        proof {
            use_type_invariant(&*self);
        }
        let ghost before = self.entries@;
        let entry = ProofCacheEntry { key, proof, timestamp: now };
        let slot = self.find(entry.key.as_str());
        let mut entries: Vec<ProofCacheEntry> = Vec::new();
        std::mem::swap(&mut entries, &mut self.entries);
        match slot {
            Some(i) => {
                entries[i] = entry;
                proof {
                    lemma_replace_is_insert(before, i as int, entry);
                    assert(entries@ =~= before.update(i as int, entry));
                }
            },
            None => {
                entries.push(entry);
                proof {
                    lemma_push_is_insert(before, entry);
                }
            },
        }
        self.entries = entries;
    }

    /// The proof stored under `key`, if its entry is still valid by the
    /// system clock. A clock that cannot be read counts as a miss.
    pub fn get(&self, key: &str) -> (found: Option<BalanceProof>)
        ensures
            found matches Some(proof) ==> exists|now: u64|
                spec_lookup(self@, key@, now) == Some(proof@),
    {
        match unix_seconds() {
            Some(now) => self.get_at(key, now),
            None => None,
        }
    }

    /// Stores `proof` under `key`, stamped with the system clock, or with
    /// zero where the clock cannot be read.
    pub fn put(&mut self, key: String, proof: BalanceProof)
        ensures
            exists|now: u64| final(self)@ == spec_store(old(self)@, key@, proof@, now),
    {
        let now: u64 = match unix_seconds() {
            Some(secs) => secs,
            None => 0,
        };
        self.put_at(key, proof, now);
    }

    /// Drops every entry that is no longer valid by the system clock, read
    /// as zero where it cannot be read.
    pub fn cleanup(&mut self)
        ensures
            exists|now: u64| final(self)@ == spec_sweep(old(self)@, now),
    {
        let now: u64 = match unix_seconds() {
            Some(secs) => secs,
            None => 0,
        };
        self.cleanup_at(now);
    }

    /// Drops every entry that is no longer valid at `now` and keeps the
    /// others as they are.
    pub fn cleanup_at(&mut self, now: u64)
        ensures
            final(self)@ == spec_sweep(old(self)@, now),
    {
        proof {
            use_type_invariant(&*self);
        }
        let ghost before = self.entries@;
        let mut rest: Vec<ProofCacheEntry> = Vec::new();
        std::mem::swap(&mut rest, &mut self.entries);
        let mut kept: Vec<ProofCacheEntry> = Vec::new();
        while rest.len() > 0
            invariant
                distinct_keys(before),
                rest@.len() <= before.len(),
                rest@ == before.take(rest@.len() as int),
                distinct_keys(kept@),
                forall|j: int|
                    0 <= j < kept@.len() ==> live_from(before, rest@.len() as int, now, #[trigger] kept@[j]),
                forall|i: int|
                    rest@.len() <= i < before.len() && spec_is_live(
                        now,
                        (#[trigger] before[i]).content().timestamp,
                    ) ==> occurs(kept@, before[i]),
            decreases rest@.len(),
        {
            let ghost kept_before = kept@;
            let ghost n = rest@.len() - 1;
            let entry = rest.pop().unwrap();
            assert(entry == before[n]);
            assert(rest@ == before.take(n));
            if is_live(now, entry.timestamp) {
                kept.push(entry);
                proof {
                    assert(kept@[kept_before.len() as int] == before[n]);
                    assert forall|a: int, b: int| 0 <= a < b < kept@.len() implies (
                    #[trigger] kept@[a]).spec_key() != (#[trigger] kept@[b]).spec_key() by {
                        if b == kept_before.len() {
                            assert(live_from(before, n + 1, now, kept_before[a]));
                            let i = origin(before, n + 1, kept_before[a]);
                            assert(before[n].spec_key() != before[i].spec_key());
                        } else {
                            assert(kept_before[a].spec_key() != kept_before[b].spec_key());
                        }
                    }
                    assert forall|j: int| 0 <= j < kept@.len() implies live_from(
                        before,
                        n,
                        now,
                        #[trigger] kept@[j],
                    ) by {
                        if j == kept_before.len() {
                            assert(before[n] == kept@[j]);
                        } else {
                            lemma_live_from_widens(before, n, now, kept_before[j]);
                        }
                    }
                    assert forall|i: int|
                        n <= i < before.len() && spec_is_live(
                            now,
                            (#[trigger] before[i]).content().timestamp,
                        ) implies occurs(kept@, before[i]) by {
                        if i == n {
                            assert(kept@[kept_before.len() as int] == before[i]);
                        } else {
                            assert(occurs(kept_before, before[i]));
                            let j = place(kept_before, before[i]);
                            assert(kept@[j] == before[i]);
                        }
                    }
                }
            } else {
                proof {
                    assert forall|j: int| 0 <= j < kept@.len() implies live_from(
                        before,
                        n,
                        now,
                        #[trigger] kept@[j],
                    ) by {
                        lemma_live_from_widens(before, n, now, kept_before[j]);
                    }
                }
            }
        }
        proof {
            let after = kept@;
            assert forall|k: Seq<char>|
                holds_key(after, k) == (holds_key(before, k) && spec_is_live(
                    now,
                    as_map(before)[k].timestamp,
                )) by {
                if holds_key(after, k) {
                    let j = slot_of(after, k);
                    assert(live_from(before, 0, now, after[j]));
                    let i = origin(before, 0, after[j]);
                    lemma_slot(before, i);
                }
                if holds_key(before, k) && spec_is_live(now, as_map(before)[k].timestamp) {
                    let i = slot_of(before, k);
                    lemma_slot(before, i);
                    assert(occurs(after, before[i]));
                    let j = place(after, before[i]);
                    assert(after[j].spec_key() == k);
                }
            }
            assert forall|k: Seq<char>| holds_key(after, k) implies as_map(after)[k] == as_map(
                before,
            )[k] by {
                let j = slot_of(after, k);
                lemma_slot(after, j);
                assert(live_from(before, 0, now, after[j]));
                let i = origin(before, 0, after[j]);
                lemma_slot(before, i);
            }
            assert(as_map(after) =~= spec_sweep(as_map(before), now));
        }
        self.entries = kept;
    }
}

/// `entry` is one of `entries[from..]` and valid at `now`.
spec fn live_from(entries: Seq<ProofCacheEntry>, from: int, now: u64, entry: ProofCacheEntry) -> bool {
    exists|i: int|
        from <= i < entries.len() && #[trigger] entries[i] == entry && spec_is_live(
            now,
            entry.content().timestamp,
        )
}

spec fn origin(entries: Seq<ProofCacheEntry>, from: int, entry: ProofCacheEntry) -> int {
    choose|i: int| from <= i < entries.len() && #[trigger] entries[i] == entry
}

/// `entry` is one of `entries`.
spec fn occurs(entries: Seq<ProofCacheEntry>, entry: ProofCacheEntry) -> bool {
    exists|j: int| 0 <= j < entries.len() && #[trigger] entries[j] == entry
}

spec fn place(entries: Seq<ProofCacheEntry>, entry: ProofCacheEntry) -> int {
    choose|j: int| 0 <= j < entries.len() && #[trigger] entries[j] == entry
}

/// Appending an entry under a key that is not held yet inserts it.
proof fn lemma_push_is_insert(entries: Seq<ProofCacheEntry>, entry: ProofCacheEntry)
    requires
        distinct_keys(entries),
        !holds_key(entries, entry.spec_key()),
    ensures
        distinct_keys(entries.push(entry)),
        as_map(entries.push(entry)) == as_map(entries).insert(entry.spec_key(), entry.content()),
{
    let after = entries.push(entry);
    assert forall|a: int, b: int| 0 <= a < b < after.len() implies (#[trigger] after[a]).spec_key()
        != (#[trigger] after[b]).spec_key() by {
        if b == entries.len() {
            assert(entries[a].spec_key() != entry.spec_key());
        }
    }
    assert forall|k: Seq<char>|
        holds_key(after, k) == (holds_key(entries, k) || k == entry.spec_key()) by {
        if holds_key(after, k) {
            let j = slot_of(after, k);
            if j < entries.len() {
                assert(entries[j].spec_key() == k);
            }
        }
        if holds_key(entries, k) {
            let j = slot_of(entries, k);
            assert(after[j].spec_key() == k);
        }
        if k == entry.spec_key() {
            assert(after[entries.len() as int].spec_key() == k);
        }
    }
    assert forall|k: Seq<char>| holds_key(after, k) implies as_map(after)[k] == as_map(
        entries,
    ).insert(entry.spec_key(), entry.content())[k] by {
        let j = slot_of(after, k);
        lemma_slot(after, j);
        if j < entries.len() {
            lemma_slot(entries, j);
        }
    }
    assert(as_map(after) =~= as_map(entries).insert(entry.spec_key(), entry.content()));
}

/// Putting an entry in the place of the one with its key inserts it.
proof fn lemma_replace_is_insert(entries: Seq<ProofCacheEntry>, i: int, entry: ProofCacheEntry)
    requires
        distinct_keys(entries),
        0 <= i < entries.len(),
        entries[i].spec_key() == entry.spec_key(),
    ensures
        distinct_keys(entries.update(i, entry)),
        as_map(entries.update(i, entry)) == as_map(entries).insert(
            entry.spec_key(),
            entry.content(),
        ),
{
    let after = entries.update(i, entry);
    assert forall|a: int, b: int| 0 <= a < b < after.len() implies (#[trigger] after[a]).spec_key()
        != (#[trigger] after[b]).spec_key() by {
        assert(entries[a].spec_key() != entries[b].spec_key());
    }
    assert forall|k: Seq<char>| holds_key(after, k) == holds_key(entries, k) by {
        if holds_key(after, k) {
            let j = slot_of(after, k);
            assert(entries[j].spec_key() == k);
        }
        if holds_key(entries, k) {
            let j = slot_of(entries, k);
            assert(after[j].spec_key() == k);
        }
    }
    assert forall|k: Seq<char>| holds_key(after, k) implies as_map(after)[k] == as_map(
        entries,
    ).insert(entry.spec_key(), entry.content())[k] by {
        let j = slot_of(after, k);
        lemma_slot(after, j);
        if k != entry.spec_key() {
            lemma_slot(entries, j);
        }
    }
    lemma_slot(entries, i);
    assert(as_map(after) =~= as_map(entries).insert(entry.spec_key(), entry.content()));
}

/// An entry found valid among `entries[from + 1..]` is found among
/// `entries[from..]`.
proof fn lemma_live_from_widens(
    entries: Seq<ProofCacheEntry>,
    from: int,
    now: u64,
    entry: ProofCacheEntry,
)
    requires
        live_from(entries, from + 1, now, entry),
    ensures
        live_from(entries, from, now, entry),
{
    let i = origin(entries, from + 1, entry);
    assert(entries[i] == entry);
}

proof fn lemma_dom_len(entries: Seq<ProofCacheEntry>)
    requires
        distinct_keys(entries),
    ensures
        as_map(entries).dom().finite(),
        as_map(entries).dom().len() == entries.len(),
    decreases entries.len(),
{
    if entries.len() == 0 {
        assert(as_map(entries).dom() =~= Set::<Seq<char>>::empty());
    } else {
        let front = entries.drop_last();
        let last = entries.last();
        lemma_dom_len(front);
        assert(!holds_key(front, last.spec_key())) by {
            if holds_key(front, last.spec_key()) {
                let j = slot_of(front, last.spec_key());
                assert(entries[j].spec_key() != entries[entries.len() - 1].spec_key());
            }
        }
        assert(front.push(last) =~= entries);
        lemma_push_is_insert(front, last);
    }
}

} // verus!
