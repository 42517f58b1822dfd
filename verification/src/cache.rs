//! Content-addressed, size-bounded, TTL-expiring store of encoded captures.

use vstd::prelude::*;
use vstd::string::StringExecFns;
use vstd::string::StrSliceExecFns;
use crate::bounds::CaptureBounds;
use crate::errors::CaptureError;
use crate::platform::{
    base64_of,
    base64_encode,
    capture_area_png,
    MAX_ENCODABLE_BYTES,
    MAX_GRAB_EXTENT,
};

verus! {

/// Seconds a cached capture stays valid after it was created.
pub const SCREENSHOT_TTL_SECS: u64 = 30;

/// Default byte budget of the cache.
pub const DEFAULT_CACHE_BUDGET_BYTES: usize = 50 * 1024 * 1024;

/// Identity of a capture request: which screen and which clamped rectangle.
#[derive(Clone, Copy, PartialEq, Eq, Structural, Debug)]
pub struct CacheKey {
    pub screen_id: u32,
    pub x: i32,
    pub y: i32,
    pub width: u32,
    pub height: u32,
}

/// The key that a clamped selection on a given screen maps to.
pub open spec fn key_of(screen_id: u32, b: CaptureBounds) -> CacheKey {
    CacheKey { screen_id, x: b.x, y: b.y, width: b.width, height: b.height }
}

impl CacheKey {
    pub fn of_bounds(screen_id: u32, b: CaptureBounds) -> (k: CacheKey)
        ensures
            k == key_of(screen_id, b),
    {
        CacheKey { screen_id, x: b.x, y: b.y, width: b.width, height: b.height }
    }
}

/// One cached capture: the encoded payload plus its timestamps.
pub struct CacheEntry {
    pub key: CacheKey,
    pub payload: String,
    pub created_at: u64,
    pub last_accessed: u64,
    pub size_bytes: usize,
}

/// The mathematical image of one cache entry.
pub ghost struct EntryModel {
    pub key: CacheKey,
    pub payload: Seq<char>,
    pub created_at: u64,
    pub last_accessed: u64,
}

impl View for CacheEntry {
    type V = EntryModel;

    open spec fn view(&self) -> EntryModel {
        EntryModel {
            key: self.key,
            payload: self.payload@,
            created_at: self.created_at,
            last_accessed: self.last_accessed,
        }
    }
}

/// An entry is fresh at `now` while `now - created_at` has not passed the TTL.
pub open spec fn is_fresh(e: EntryModel, now: u64) -> bool {
    now - e.created_at <= SCREENSHOT_TTL_SECS
}

/// Total payload size of a sequence of entries, in bytes.
pub open spec fn total_size(s: Seq<EntryModel>) -> int
    decreases s.len(),
{
    if s.len() == 0 {
        0
    } else {
        s[0].payload.len() + total_size(s.drop_first())
    }
}

pub open spec fn contains_key(s: Seq<EntryModel>, k: CacheKey) -> bool {
    exists|i: int| 0 <= i < s.len() && s[i].key == k
}

/// The index of the entry with key `k`; meaningful only under `keys_unique`.
pub open spec fn index_of_key(s: Seq<EntryModel>, k: CacheKey) -> int {
    choose|i: int| 0 <= i < s.len() && s[i].key == k
}

/// There is an entry for `k` and it is still fresh at `now`.
pub open spec fn has_fresh(s: Seq<EntryModel>, k: CacheKey, now: u64) -> bool {
    contains_key(s, k) && is_fresh(s[index_of_key(s, k)], now)
}

/// The payload stored under `k`.
pub open spec fn payload_of(s: Seq<EntryModel>, k: CacheKey) -> Seq<char> {
    s[index_of_key(s, k)].payload
}

pub open spec fn keys_unique(s: Seq<EntryModel>) -> bool {
    forall|i: int, j: int| 0 <= i < j < s.len() ==> s[i].key != s[j].key
}

/// How many entries of `s` are no longer fresh at `now`.
pub open spec fn expired_count(s: Seq<EntryModel>, now: u64) -> int {
    s.len() - fresh_entries(s, now).len()
}

/// The entries of `s` that are still fresh at `now`, in order.
pub open spec fn fresh_entries(s: Seq<EntryModel>, now: u64) -> Seq<EntryModel> {
    s.filter(|e: EntryModel| is_fresh(e, now))
}

/// `s` without its entry for `k` (and `s` itself when there is none);
/// meaningful only under `keys_unique`.
pub open spec fn remove_key(s: Seq<EntryModel>, k: CacheKey) -> Seq<EntryModel> {
    if contains_key(s, k) {
        s.remove(index_of_key(s, k))
    } else {
        s
    }
}

proof fn lemma_total_size_push(s: Seq<EntryModel>, e: EntryModel)
    ensures
        total_size(s.push(e)) == total_size(s) + e.payload.len(),
    decreases s.len(),
{
    if s.len() == 0 {
        assert(s.push(e)[0] == e);
        assert(s.push(e).drop_first() =~= Seq::<EntryModel>::empty());
        assert(total_size(s.push(e)) == e.payload.len() + total_size(
            Seq::<EntryModel>::empty(),
        ));
    } else {
        assert(s.push(e)[0] == s[0]);
        assert(s.push(e).drop_first() =~= s.drop_first().push(e));
        lemma_total_size_push(s.drop_first(), e);
        assert(total_size(s.push(e)) == s[0].payload.len() + total_size(
            s.drop_first().push(e),
        ));
    }
}

proof fn lemma_total_size_remove(s: Seq<EntryModel>, i: int)
    requires
        0 <= i < s.len(),
    ensures
        total_size(s.remove(i)) == total_size(s) - s[i].payload.len(),
    decreases s.len(),
{
    if i == 0 {
        assert(s.remove(0) =~= s.drop_first());
    } else {
        assert(s.remove(i).drop_first() =~= s.drop_first().remove(i - 1));
        lemma_total_size_remove(s.drop_first(), i - 1);
    }
}

proof fn lemma_total_size_update(s: Seq<EntryModel>, i: int, e: EntryModel)
    requires
        0 <= i < s.len(),
        e.payload.len() == s[i].payload.len(),
    ensures
        total_size(s.update(i, e)) == total_size(s),
    decreases s.len(),
{
    if i == 0 {
        assert(s.update(0, e).drop_first() =~= s.drop_first());
    } else {
        assert(s.update(i, e).drop_first() =~= s.drop_first().update(i - 1, e));
        assert(s.update(i, e)[0] == s[0]);
        lemma_total_size_update(s.drop_first(), i - 1, e);
    }
}

proof fn lemma_total_size_nonneg(s: Seq<EntryModel>)
    ensures
        total_size(s) >= 0,
    decreases s.len(),
{
    if s.len() > 0 {
        lemma_total_size_nonneg(s.drop_first());
    }
}

/// Under unique keys, an entry with key `k` at index `i` is the entry that
/// `index_of_key` denotes.
proof fn lemma_index_of_key(s: Seq<EntryModel>, k: CacheKey, i: int)
    requires
        keys_unique(s),
        0 <= i < s.len(),
        s[i].key == k,
    ensures
        contains_key(s, k),
        index_of_key(s, k) == i,
{
    assert(contains_key(s, k));
    let j = index_of_key(s, k);
    assert(0 <= j < s.len() && s[j].key == k);
    if i < j {
        assert(s[i].key != s[j].key);
    } else if j < i {
        assert(s[j].key != s[i].key);
    }
}

proof fn lemma_keys_unique_remove(s: Seq<EntryModel>, i: int)
    requires
        keys_unique(s),
        0 <= i < s.len(),
    ensures
        keys_unique(s.remove(i)),
{
    let t = s.remove(i);
    assert forall|m: int, n: int| 0 <= m < n < t.len() implies t[m].key != t[n].key by {
        let m0 = if m < i {
            m
        } else {
            m + 1
        };
        let n0 = if n < i {
            n
        } else {
            n + 1
        };
        assert(t[m] == s[m0] && t[n] == s[n0]);
        assert(s[m0].key != s[n0].key);
    }
}

/// The payload stored for a capture: a PNG data URL over the base64 of the
/// encoded bytes.
pub open spec fn png_data_url(bytes: Seq<u8>) -> Seq<char> {
    "data:image/png;base64,"@ + base64_of(bytes)
}

/// Encode grabbed PNG bytes as the payload this library stores and emits:
/// a `data:image/png;base64,` URL over the standard base64 of the bytes.
/// A grab too large for the encoder is rejected as an encoding failure.
pub fn encode_png_payload(bytes: &Vec<u8>) -> (r: Result<String, CaptureError>)
    ensures
        bytes@.len() <= MAX_ENCODABLE_BYTES ==> r is Ok && r->Ok_0@ == png_data_url(bytes@),
        bytes@.len() > MAX_ENCODABLE_BYTES ==> r matches Err(
            CaptureError::EncodingFailure { .. },
        ),
{
    if bytes.len() > MAX_ENCODABLE_BYTES {
        return Err(
            CaptureError::EncodingFailure {
                message: String::from_str("capture too large to encode"),
            },
        );
    }
    let b64 = base64_encode(bytes);
    let mut payload = String::from_str("data:image/png;base64,");
    payload.append(b64.as_str());
    Ok(payload)
}

/// Law (cache correctness): once a miss at `t1` has stored its payload as
/// the newest entry for `key`, the same request at any `t2` within the TTL
/// is a fresh hit with the identical payload — and `capture_or_fetch`
/// serves a fresh hit from the cache without touching the grab counter, so
/// two identical requests within the TTL invoke exactly one grab. The
/// requirements here are exactly what `capture_or_fetch`'s miss contract
/// exposes of the stored entry (key, payload, `created_at == now`, no other
/// entry under the key, unique keys), so the law composes across two calls
/// at any clock values inside the TTL window.
pub proof fn lemma_repeat_request_hits(s: Seq<EntryModel>, key: CacheKey, t1: u64, t2: u64)
    requires
        keys_unique(s),
        s.len() >= 1,
        s.last().key == key,
        s.last().created_at == t1,
        forall|j: int| 0 <= j < s.len() - 1 ==> #[trigger] s[j].key != key,
        t1 <= t2 <= t1 + SCREENSHOT_TTL_SECS,
    ensures
        has_fresh(s, key, t2),
        payload_of(s, key) == s.last().payload,
{
    lemma_index_of_key(s, key, s.len() - 1);
}

/// Law (TTL expiry): an entry whose age has passed the TTL is not fresh and
/// is absent from the fresh entries, whose count is what `stats` reports as
/// active — no explicit cleanup call is needed for it to stop counting.
pub proof fn lemma_ttl_expiry(s: Seq<EntryModel>, k: CacheKey, now: u64)
    requires
        contains_key(s, k),
        now > s[index_of_key(s, k)].created_at + SCREENSHOT_TTL_SECS,
    ensures
        !has_fresh(s, k, now),
        !fresh_entries(s, now).contains(s[index_of_key(s, k)]),
{
    let e = s[index_of_key(s, k)];
    let pred = |e2: EntryModel| is_fresh(e2, now);
    assert(!pred(e));
    if fresh_entries(s, now).contains(e) {
        let w = choose|w: int| 0 <= w < fresh_entries(s, now).len() && fresh_entries(s, now)[w]
            == e;
        s.lemma_filter_pred(pred, w);
    }
}

proof fn lemma_filter_push(s: Seq<EntryModel>, pred: spec_fn(EntryModel) -> bool, e: EntryModel)
    ensures
        s.push(e).filter(pred) == if pred(e) {
            s.filter(pred).push(e)
        } else {
            s.filter(pred)
        },
{
    reveal(Seq::filter);
    assert(s.push(e).drop_last() =~= s);
    assert(s.push(e).last() == e);
}

/// The size-bounded, TTL-expiring screenshot cache.
///
/// Entries are keyed by `(screen_id, clamped bounds)`. Before every
/// insertion, and on an explicit cleanup, expired entries are swept out and
/// the least-recently-accessed entries are evicted until the total payload
/// size fits the byte budget again.
pub struct ScreenshotCache {
    entries: Vec<CacheEntry>,
    budget_bytes: usize,
    total_bytes: u128,
    grab_calls: u64,
}

impl View for ScreenshotCache {
    type V = Seq<EntryModel>;

    closed spec fn view(&self) -> Seq<EntryModel> {
        self.entries@.map_values(|e: CacheEntry| e@)
    }
}

impl ScreenshotCache {
    /// The configured byte budget.
    pub closed spec fn budget(&self) -> usize {
        self.budget_bytes
    }

    /// How many times this cache has invoked the underlying screen grab.
    pub closed spec fn grabs(&self) -> u64 {
        self.grab_calls
    }

    /// Internal consistency: unique keys, recorded sizes match the payloads,
    /// and the running total matches the entries.
    pub closed spec fn wf(&self) -> bool {
        &&& keys_unique(self@)
        &&& forall|i: int|
            0 <= i < self.entries.len() ==> #[trigger] self.entries[i].size_bytes
                == self.entries[i].payload@.len()
        &&& self.total_bytes as int == total_size(self@)
    }

    pub fn new() -> (c: Self)
        ensures
            c.wf(),
            keys_unique(c@),
            c@ == Seq::<EntryModel>::empty(),
            c.budget() == DEFAULT_CACHE_BUDGET_BYTES,
            c.grabs() == 0,
    {
        let c = ScreenshotCache {
            entries: Vec::new(),
            budget_bytes: DEFAULT_CACHE_BUDGET_BYTES,
            total_bytes: 0,
            grab_calls: 0,
        };
        assert(c@ =~= Seq::<EntryModel>::empty());
        c
    }

    /// Index of the entry with key `key`, if one is stored.
    fn find_index(&self, key: CacheKey) -> (r: Option<usize>)
        ensures
            match r {
                Some(i) => 0 <= i < self@.len() && self@[i as int].key == key,
                None => !contains_key(self@, key),
            },
    {
        let mut i: usize = 0;
        while i < self.entries.len()
            invariant
                0 <= i <= self.entries.len(),
                self@.len() == self.entries.len(),
                forall|j: int| 0 <= j < i ==> self@[j].key != key,
            decreases self.entries.len() - i,
        {
            if self.entries[i].key == key {
                assert(self@[i as int].key == key);
                return Some(i);
            }
            i = i + 1;
        }
        None
    }

    /// Look the key up; a hit within the TTL returns the cached payload and
    /// bumps `last_accessed` (it does not re-derive the size). A stale or
    /// missing entry is a miss that changes nothing.
    pub fn lookup(&mut self, key: CacheKey, now: u64) -> (r: Option<String>)
        requires
            old(self).wf(),
        ensures
            final(self).wf(),
            keys_unique(final(self)@),
            final(self).budget() == old(self).budget(),
            final(self).grabs() == old(self).grabs(),
            match r {
                Some(p) => {
                    &&& has_fresh(old(self)@, key, now)
                    &&& p@ == payload_of(old(self)@, key)
                    &&& final(self)@ == old(self)@.update(
                        index_of_key(old(self)@, key),
                        (EntryModel { last_accessed: now, ..old(self)@[index_of_key(old(self)@, key)] }),
                    )
                },
                None => {
                    &&& !has_fresh(old(self)@, key, now)
                    &&& final(self)@ == old(self)@
                },
            },
    {
        let idx = match self.find_index(key) {
            Some(i) => i,
            None => {
                return None;
            },
        };
        proof {
            lemma_index_of_key(self@, key, idx as int);
        }
        if !((now as u128) <= (self.entries[idx].created_at as u128) + (
        SCREENSHOT_TTL_SECS as u128)) {
            return None;
        }
        let ghost old_view = self@;
        let mut e = self.entries.remove(idx);
        e.last_accessed = now;
        let p = String::from_str(e.payload.as_str());
        self.entries.insert(idx, e);
        proof {
            let i = idx as int;
            let bumped = EntryModel { last_accessed: now, ..old_view[i] };
            assert(self@ =~= old_view.update(i, bumped));
            lemma_total_size_update(old_view, i, bumped);
            assert forall|m: int, n: int| 0 <= m < n < self@.len() implies self@[m].key
                != self@[n].key by {
                assert(old_view[m].key == self@[m].key && old_view[n].key == self@[n].key);
            }
        }
        Some(p)
    }

    /// Entry count, total payload bytes, and how many entries have expired,
    /// as of `now`. Read-only.
    pub fn stats(&self, now: u64) -> (r: (usize, u128, usize))
        requires
            self.wf(),
        ensures
            r.0 == self@.len(),
            r.1 as int == total_size(self@),
            r.2 as int == expired_count(self@, now),
    {
        let mut expired: usize = 0;
        let mut i: usize = 0;
        while i < self.entries.len()
            invariant
                self.wf(),
                0 <= i <= self.entries.len(),
                self@.len() == self.entries.len(),
                expired as int == expired_count(self@.subrange(0, i as int), now),
                expired <= i,
            decreases self.entries.len() - i,
        {
            let ghost prefix = self@.subrange(0, i as int);
            let fresh = (now as u128) <= (self.entries[i].created_at as u128) + (
            SCREENSHOT_TTL_SECS as u128);
            if !fresh {
                expired = expired + 1;
            }
            proof {
                assert(self@.subrange(0, i + 1) =~= prefix.push(self@[i as int]));
                lemma_filter_push(
                    prefix,
                    |e: EntryModel| is_fresh(e, now),
                    self@[i as int],
                );
            }
            i = i + 1;
        }
        proof {
            assert(self@.subrange(0, self@.len() as int) =~= self@);
        }
        (self.entries.len(), self.total_bytes, expired)
    }

    /// TTL sweep: remove every entry whose age has passed the TTL,
    /// keeping the order of the rest.
    #[verifier::loop_isolation(false)]
    fn sweep_expired(&mut self, now: u64)
        requires
            old(self).wf(),
        ensures
            final(self).wf(),
            final(self).budget() == old(self).budget(),
            final(self).grabs() == old(self).grabs(),
            final(self)@ == fresh_entries(old(self)@, now),
    {
        let ghost orig = self@;
        let ghost pred = |e: EntryModel| is_fresh(e, now);
        let mut i: usize = 0;
        let ghost mut k: int = 0;
        while i < self.entries.len()
            invariant
                self.wf(),
                self.budget_bytes == old(self).budget_bytes,
                self.grab_calls == old(self).grab_calls,
                0 <= k <= orig.len(),
                i as int == orig.subrange(0, k).filter(pred).len(),
                self@ == orig.subrange(0, k).filter(pred) + orig.subrange(k, orig.len() as int),
            decreases orig.len() - k,
        {
            let ghost prev = self@;
            let ghost cur = orig[k];
            proof {
                assert(prev[i as int] == cur);
                assert(orig.subrange(0, k + 1) =~= orig.subrange(0, k).push(cur));
                lemma_filter_push(orig.subrange(0, k), pred, cur);
            }
            let fresh = (now as u128) <= (self.entries[i].created_at as u128) + (
            SCREENSHOT_TTL_SECS as u128);
            if fresh {
                i = i + 1;
                proof {
                    k = k + 1;
                    assert(self@ =~= orig.subrange(0, k).filter(pred) + orig.subrange(
                        k,
                        orig.len() as int,
                    ));
                }
            } else {
                let victim = self.entries.remove(i);
                proof {
                    assert(self@ =~= prev.remove(i as int));
                    lemma_total_size_remove(prev, i as int);
                    lemma_total_size_nonneg(self@);
                    lemma_keys_unique_remove(prev, i as int);
                    assert(victim@ == prev[i as int]);
                }
                self.total_bytes = self.total_bytes - (victim.size_bytes as u128);
                proof {
                    k = k + 1;
                    assert(self@ =~= orig.subrange(0, k).filter(pred) + orig.subrange(
                        k,
                        orig.len() as int,
                    ));
                }
            }
        }
        proof {
            assert(orig.subrange(0, orig.len() as int) =~= orig);
            assert(self@ =~= orig.filter(pred));
        }
    }

    /// Budget eviction: while the total payload size exceeds the byte
    /// budget, remove the entry with the smallest `last_accessed`.
    #[verifier::loop_isolation(false)]
    fn evict_to_budget(&mut self)
        requires
            old(self).wf(),
        ensures
            final(self).wf(),
            final(self).budget() == old(self).budget(),
            final(self).grabs() == old(self).grabs(),
            total_size(final(self)@) <= final(self).budget(),
            forall|j: int|
                0 <= j < final(self)@.len() ==> old(self)@.contains(#[trigger] final(self)@[j]),
            forall|e: EntryModel|
                #[trigger] old(self)@.contains(e) && !final(self)@.contains(e) ==> (forall|j: int|
                    0 <= j < final(self)@.len() ==> e.last_accessed <= #[trigger] final(self)@[j].last_accessed),
            total_size(old(self)@) <= old(self).budget() ==> final(self)@ == old(self)@,
    {
        let ghost kept0 = self@;
        while self.total_bytes > (self.budget_bytes as u128)
            invariant
                self.wf(),
                self.budget_bytes == old(self).budget_bytes,
                self.grab_calls == old(self).grab_calls,
                forall|j: int| 0 <= j < self@.len() ==> kept0.contains(#[trigger] self@[j]),
                forall|e: EntryModel|
                    #[trigger] kept0.contains(e) && !self@.contains(e) ==> (forall|j: int|
                        0 <= j < self@.len() ==> e.last_accessed <= #[trigger] self@[j].last_accessed),
                total_size(kept0) <= old(self).budget_bytes ==> self@ == kept0,
            decreases self.entries.len(),
        {
            proof {
                if self.entries.len() == 0 {
                    assert(self@ =~= Seq::<EntryModel>::empty());
                }
            }
            let mut best: usize = 0;
            let mut j: usize = 1;
            while j < self.entries.len()
                invariant
                    self.entries.len() > 0,
                    0 <= best < j <= self.entries.len(),
                    forall|m: int|
                        0 <= m < j ==> self@[best as int].last_accessed <= #[trigger] self@[m].last_accessed,
                decreases self.entries.len() - j,
            {
                if self.entries[j].last_accessed < self.entries[best].last_accessed {
                    best = j;
                }
                j = j + 1;
            }
            let ghost prev = self@;
            let victim = self.entries.remove(best);
            proof {
                assert(self@ =~= prev.remove(best as int));
                lemma_total_size_remove(prev, best as int);
                lemma_total_size_nonneg(self@);
                lemma_keys_unique_remove(prev, best as int);
                assert(victim@ == prev[best as int]);
            }
            self.total_bytes = self.total_bytes - (victim.size_bytes as u128);
            proof {
                assert forall|e: EntryModel|
                    #[trigger] kept0.contains(e) && !self@.contains(e) implies (forall|j2: int|
                    0 <= j2 < self@.len() ==> e.last_accessed
                        <= #[trigger] self@[j2].last_accessed) by {
                    if prev.contains(e) {
                        // only the evicted minimum itself just left the cache
                        let w = choose|w: int| 0 <= w < prev.len() && prev[w] == e;
                        if w != best {
                            let w2 = if w < best {
                                w
                            } else {
                                w - 1
                            };
                            assert(self@[w2] == e);
                            assert(self@.contains(e));
                        }
                        assert(e == prev[best as int]);
                        assert forall|j2: int| 0 <= j2 < self@.len() implies e.last_accessed
                            <= #[trigger] self@[j2].last_accessed by {
                            let j0 = if j2 < best {
                                j2
                            } else {
                                j2 + 1
                            };
                            assert(self@[j2] == prev[j0]);
                        }
                    } else {
                        assert forall|j2: int| 0 <= j2 < self@.len() implies e.last_accessed
                            <= #[trigger] self@[j2].last_accessed by {
                            let j0 = if j2 < best {
                                j2
                            } else {
                                j2 + 1
                            };
                            assert(self@[j2] == prev[j0]);
                            assert(e.last_accessed <= prev[j0].last_accessed);
                        }
                    }
                }
            }
        }
    }

    /// One eviction pass: sweep out every entry past the TTL, then evict by
    /// ascending `last_accessed` until the total fits the budget again.
    fn run_eviction(&mut self, now: u64)
        requires
            old(self).wf(),
        ensures
            final(self).wf(),
            final(self).budget() == old(self).budget(),
            final(self).grabs() == old(self).grabs(),
            total_size(final(self)@) <= final(self).budget(),
            forall|j: int|
                0 <= j < final(self)@.len() ==> fresh_entries(old(self)@, now).contains(
                    #[trigger] final(self)@[j],
                ) && is_fresh(final(self)@[j], now),
            forall|e: EntryModel|
                #[trigger] fresh_entries(old(self)@, now).contains(e) && !final(self)@.contains(e)
                    ==> (forall|j: int|
                    0 <= j < final(self)@.len() ==> e.last_accessed <= #[trigger] final(self)@[j].last_accessed),
            total_size(fresh_entries(old(self)@, now)) <= old(self).budget() ==> final(self)@
                == fresh_entries(old(self)@, now),
    {
        let ghost orig = self@;
        self.sweep_expired(now);
        self.evict_to_budget();
        proof {
            let kept0 = fresh_entries(orig, now);
            assert forall|j: int| 0 <= j < self@.len() implies is_fresh(
                #[trigger] self@[j],
                now,
            ) by {
                assert(kept0.contains(self@[j]));
                let w = choose|w: int| 0 <= w < kept0.len() && kept0[w] == self@[j];
                orig.lemma_filter_pred(|e: EntryModel| is_fresh(e, now), w);
            }
        }
    }

    /// Store `payload` under `key`. An eviction pass runs first, so the
    /// entries kept beside the new one always fit the budget; an older entry
    /// with the same key is replaced.
    pub fn insert(&mut self, key: CacheKey, payload: String, now: u64)
        requires
            old(self).wf(),
        ensures
            final(self).wf(),
            keys_unique(final(self)@),
            final(self).budget() == old(self).budget(),
            final(self).grabs() == old(self).grabs(),
            final(self)@.len() >= 1,
            final(self)@.last() == (EntryModel {
                key,
                payload: payload@,
                created_at: now,
                last_accessed: now,
            }),
            has_fresh(final(self)@, key, now),
            payload_of(final(self)@, key) == payload@,
            total_size(final(self)@) <= final(self).budget() + payload@.len(),
            forall|j: int|
                0 <= j < final(self)@.len() - 1 ==> fresh_entries(old(self)@, now).contains(
                    #[trigger] final(self)@[j],
                ) && final(self)@[j].key != key,
            forall|e: EntryModel|
                #[trigger] fresh_entries(old(self)@, now).contains(e) && e.key != key && !final(self)@.contains(e) ==> (forall|j: int|
                    0 <= j < final(self)@.len() - 1 ==> e.last_accessed <= #[trigger] final(self)@[j].last_accessed),
            total_size(fresh_entries(old(self)@, now)) <= old(self).budget() ==> final(self)@
                == remove_key(fresh_entries(old(self)@, now), key).push(
                EntryModel { key, payload: payload@, created_at: now, last_accessed: now },
            ),
    {
        let ghost orig = self@;
        self.run_eviction(now);
        let ghost evicted = self@;
        // replace a surviving entry with the same key, so keys stay unique
        match self.find_index(key) {
            Some(i) => {
                let ghost prev = self@;
                proof {
                    lemma_index_of_key(prev, key, i as int);
                }
                let victim = self.entries.remove(i);
                proof {
                    assert(self@ =~= prev.remove(i as int));
                    lemma_total_size_remove(prev, i as int);
                    lemma_total_size_nonneg(self@);
                    lemma_keys_unique_remove(prev, i as int);
                    assert(victim@ == prev[i as int]);
                    assert forall|j: int| 0 <= j < self@.len() implies #[trigger] self@[j].key
                        != key by {
                        let j0 = if j < i {
                            j
                        } else {
                            j + 1
                        };
                        assert(self@[j] == prev[j0]);
                        if j0 < i {
                            assert(prev[j0].key != prev[i as int].key);
                        } else if i < j0 {
                            assert(prev[i as int].key != prev[j0].key);
                        }
                    }
                }
                self.total_bytes = self.total_bytes - (victim.size_bytes as u128);
            },
            None => {
                proof {
                    assert forall|j: int| 0 <= j < self@.len() implies #[trigger] self@[j].key
                        != key by {
                        if self@[j].key == key {
                            assert(contains_key(self@, key));
                        }
                    }
                }
            },
        }
        let ghost base = self@;
        proof {
            lemma_total_size_nonneg(base);
            assert forall|j: int| 0 <= j < base.len() implies evicted.contains(
                #[trigger] base[j],
            ) by {
                if base.len() < evicted.len() {
                    // one entry was removed; indices shift by at most one
                    let i = index_of_key(evicted, key);
                    let j0 = if j < i {
                        j
                    } else {
                        j + 1
                    };
                    assert(base[j] == evicted[j0]);
                } else {
                    assert(base[j] == evicted[j]);
                }
            }
        }
        let size = payload.as_str().unicode_len();
        let entry = CacheEntry { key, payload, created_at: now, last_accessed: now, size_bytes: size };
        let ghost new_model = entry@;
        self.entries.push(entry);
        proof {
            assert(self@ =~= base.push(new_model));
            lemma_total_size_push(base, new_model);
        }
        self.total_bytes = self.total_bytes + (size as u128);
        proof {
            let fin = self@;
            let n = fin.len() - 1;
            assert forall|m: int, n2: int| 0 <= m < n2 < fin.len() implies fin[m].key
                != fin[n2].key by {
                if n2 < n {
                    assert(fin[m] == base[m] && fin[n2] == base[n2]);
                } else {
                    assert(fin[n2] == new_model && fin[m] == base[m]);
                }
            }
            lemma_index_of_key(fin, key, n);
            assert(is_fresh(new_model, now));
            assert forall|j: int| 0 <= j < n implies fresh_entries(orig, now).contains(
                #[trigger] fin[j],
            ) && fin[j].key != key by {
                assert(fin[j] == base[j]);
                assert(evicted.contains(base[j]));
                let w = choose|w: int| 0 <= w < evicted.len() && evicted[w] == base[j];
                assert(fresh_entries(orig, now).contains(evicted[w]));
            }
            assert forall|e: EntryModel|
                #[trigger] fresh_entries(orig, now).contains(e) && e.key != key && !fin.contains(
                    e,
                ) implies (forall|j: int|
                0 <= j < fin.len() - 1 ==> e.last_accessed <= #[trigger] fin[j].last_accessed) by {
                if evicted.contains(e) {
                    // e survived eviction; since its key differs it also survived
                    // the key replacement, so it is still in the cache
                    let w = choose|w: int| 0 <= w < evicted.len() && evicted[w] == e;
                    if base.len() < evicted.len() {
                        let i = index_of_key(evicted, key);
                        assert(evicted[i].key == key);
                        assert(w != i);
                        let w2 = if w < i {
                            w
                        } else {
                            w - 1
                        };
                        assert(base[w2] == e);
                        assert(fin[w2] == e);
                        assert(fin.contains(e));
                    } else {
                        assert(base[w] == e);
                        assert(fin[w] == e);
                        assert(fin.contains(e));
                    }
                } else {
                    assert forall|j: int| 0 <= j < fin.len() - 1 implies e.last_accessed
                        <= #[trigger] fin[j].last_accessed by {
                        assert(fin[j] == base[j]);
                        assert(evicted.contains(base[j]));
                        let w = choose|w: int| 0 <= w < evicted.len() && evicted[w] == base[j];
                        assert(e.last_accessed <= evicted[w].last_accessed);
                    }
                }
            }
            if total_size(fresh_entries(orig, now)) <= old(self).budget() {
                assert(evicted == fresh_entries(orig, now));
                assert(base == remove_key(evicted, key));
                assert(fin =~= remove_key(fresh_entries(orig, now), key).push(new_model));
            }
        }
    }

    /// Update the byte budget; when the new budget is smaller than the
    /// current usage this immediately triggers an eviction pass: the total
    /// always fits the new budget on return, the entries kept were fresh
    /// entries of the old cache, unaltered, and the least recently accessed
    /// ones left first.
    pub fn resize_buffer(&mut self, new_budget_bytes: usize, now: u64)
        requires
            old(self).wf(),
        ensures
            final(self).wf(),
            keys_unique(final(self)@),
            final(self).budget() == new_budget_bytes,
            final(self).grabs() == old(self).grabs(),
            total_size(final(self)@) <= new_budget_bytes,
            total_size(old(self)@) <= new_budget_bytes ==> final(self)@ == old(self)@,
            total_size(old(self)@) > new_budget_bytes ==> {
                &&& forall|j: int|
                    0 <= j < final(self)@.len() ==> fresh_entries(old(self)@, now).contains(
                        #[trigger] final(self)@[j],
                    ) && is_fresh(final(self)@[j], now)
                &&& forall|e: EntryModel|
                    #[trigger] fresh_entries(old(self)@, now).contains(e) && !final(self)@.contains(
                        e,
                    ) ==> (forall|j: int|
                        0 <= j < final(self)@.len() ==> e.last_accessed <= #[trigger] final(self)@[j].last_accessed)
                &&& total_size(fresh_entries(old(self)@, now)) <= new_budget_bytes ==> final(self)@
                    == fresh_entries(old(self)@, now)
            },
    {
        self.budget_bytes = new_budget_bytes;
        if self.total_bytes > (new_budget_bytes as u128) {
            self.run_eviction(now);
        }
    }

    /// Finish a cache miss with whatever the screen grab returned: encode
    /// and store on success, surface the grab's own failure — storing
    /// nothing — on a grab or codec error or an over-sized grab.
    pub fn resolve_miss(
        &mut self,
        key: CacheKey,
        now: u64,
        grabbed: Result<Vec<u8>, CaptureError>,
    ) -> (r: Result<String, CaptureError>)
        requires
            old(self).wf(),
        ensures
            final(self).wf(),
            keys_unique(final(self)@),
            final(self).budget() == old(self).budget(),
            final(self).grabs() == old(self).grabs(),
            match grabbed {
                Ok(bytes) => if bytes@.len() <= MAX_ENCODABLE_BYTES {
                    &&& r is Ok
                    &&& r->Ok_0@ == png_data_url(bytes@)
                    &&& has_fresh(final(self)@, key, now)
                    &&& payload_of(final(self)@, key) == png_data_url(bytes@)
                    &&& final(self)@.len() >= 1
                    &&& final(self)@.last() == (EntryModel {
                        key,
                        payload: png_data_url(bytes@),
                        created_at: now,
                        last_accessed: now,
                    })
                    &&& forall|j: int|
                        0 <= j < final(self)@.len() - 1 ==> #[trigger] final(self)@[j].key != key
                            && fresh_entries(old(self)@, now).contains(final(self)@[j])
                } else {
                    &&& r matches Err(CaptureError::EncodingFailure { .. })
                    &&& final(self)@ == old(self)@
                },
                Err(e) => {
                    &&& (r matches Err(e2) && e2 == e)
                    &&& final(self)@ == old(self)@
                },
            },
    {
        match grabbed {
            Ok(bytes) => {
                let payload = match encode_png_payload(&bytes) {
                    Ok(payload) => payload,
                    Err(e) => {
                        return Err(e);
                    },
                };
                let result = String::from_str(payload.as_str());
                self.insert(key, payload, now);
                Ok(result)
            },
            Err(e) => Err(e),
        }
    }

    /// The cached capture path. A fresh hit is served from the cache and
    /// leaves the grab counter alone; a miss grabs the screen (when one is
    /// at hand), encodes the pixels, stores the payload and returns it; on
    /// any failure the cache stores nothing and the failure is surfaced.
    /// The rectangle must already be clamped into the pixel range the
    /// platform's grab can address — a machine limit — which every output
    /// of `clamp_selection` on a real screen satisfies.
    pub fn capture_or_fetch(
        &mut self,
        screen: Option<&screenshots::Screen>,
        screen_id: u32,
        clamped: CaptureBounds,
        now: u64,
    ) -> (r: Result<String, CaptureError>)
        requires
            old(self).wf(),
            0 <= clamped.x,
            0 <= clamped.y,
            clamped.x + clamped.width <= MAX_GRAB_EXTENT,
            clamped.y + clamped.height <= MAX_GRAB_EXTENT,
        ensures
            final(self).wf(),
            keys_unique(final(self)@),
            final(self).budget() == old(self).budget(),
            has_fresh(old(self)@, key_of(screen_id, clamped), now) ==> {
                &&& r is Ok
                &&& r->Ok_0@ == payload_of(old(self)@, key_of(screen_id, clamped))
                &&& final(self).grabs() == old(self).grabs()
                &&& final(self)@ == old(self)@.update(
                    index_of_key(old(self)@, key_of(screen_id, clamped)),
                    (EntryModel {
                        last_accessed: now,
                        ..old(self)@[index_of_key(old(self)@, key_of(screen_id, clamped))]
                    }),
                )
            },
            !has_fresh(old(self)@, key_of(screen_id, clamped), now) && screen is None ==> {
                &&& (r matches Err(CaptureError::DeviceFailure { message }) && message@
                    == "no screens available for capture"@)
                &&& final(self)@ == old(self)@
                &&& final(self).grabs() == old(self).grabs()
            },
            !has_fresh(old(self)@, key_of(screen_id, clamped), now) && screen is Some && old(
                self,
            ).grabs() < u64::MAX ==> final(self).grabs() == old(self).grabs() + 1,
            r is Ok ==> has_fresh(final(self)@, key_of(screen_id, clamped), now) && payload_of(
                final(self)@,
                key_of(screen_id, clamped),
            ) == r->Ok_0@,
            !has_fresh(old(self)@, key_of(screen_id, clamped), now) && r is Ok ==> {
                &&& (exists|bytes: Seq<u8>| r->Ok_0@ == png_data_url(bytes))
                // the stored entry is exposed, so the repeat-request law
                // applies to any later request inside the TTL
                &&& final(self)@.len() >= 1
                &&& final(self)@.last() == (EntryModel {
                    key: key_of(screen_id, clamped),
                    payload: r->Ok_0@,
                    created_at: now,
                    last_accessed: now,
                })
                &&& forall|j: int|
                    0 <= j < final(self)@.len() - 1 ==> #[trigger] final(self)@[j].key != key_of(
                        screen_id,
                        clamped,
                    )
            },
            !has_fresh(old(self)@, key_of(screen_id, clamped), now) && r is Err ==> final(self)@
                == old(self)@,
    {
        let key = CacheKey::of_bounds(screen_id, clamped);
        match self.lookup(key, now) {
            Some(p) => {
                proof {
                    let i = index_of_key(old(self)@, key);
                    assert(self@[i].key == key);
                    lemma_index_of_key(self@, key, i);
                }
                Ok(p)
            },
            None => {
                match screen {
                    None => Err(
                        CaptureError::DeviceFailure {
                            message: String::from_str("no screens available for capture"),
                        },
                    ),
                    Some(s) => {
                        self.grab_calls = if self.grab_calls < u64::MAX {
                            self.grab_calls + 1
                        } else {
                            self.grab_calls
                        };
                        let grabbed = capture_area_png(
                            s,
                            clamped.x,
                            clamped.y,
                            clamped.width,
                            clamped.height,
                        );
                        let ghost grabbed_snapshot = grabbed;
                        let r = self.resolve_miss(key, now, grabbed);
                        proof {
                            if r is Ok {
                                match grabbed_snapshot {
                                    Ok(bytes) => {
                                        assert(r->Ok_0@ == png_data_url(bytes@));
                                    },
                                    Err(_) => {},
                                }
                            }
                        }
                        r
                    },
                }
            },
        }
    }

    /// Update the byte budget given in megabytes, as the resize command
    /// hands it over, saturating at the largest representable budget. A
    /// budget smaller than the current usage immediately triggers an
    /// eviction pass, exactly as `resize_buffer` states.
    pub fn resize_buffer_mb(&mut self, new_size_mb: usize, now: u64)
        requires
            old(self).wf(),
        ensures
            final(self).wf(),
            keys_unique(final(self)@),
            final(self).grabs() == old(self).grabs(),
            new_size_mb * 1024 * 1024 <= usize::MAX ==> final(self).budget() == new_size_mb * 1024
                * 1024,
            new_size_mb * 1024 * 1024 > usize::MAX ==> final(self).budget() == usize::MAX,
            total_size(final(self)@) <= final(self).budget(),
            total_size(old(self)@) <= final(self).budget() ==> final(self)@ == old(self)@,
            total_size(old(self)@) > final(self).budget() ==> {
                &&& forall|j: int|
                    0 <= j < final(self)@.len() ==> fresh_entries(old(self)@, now).contains(
                        #[trigger] final(self)@[j],
                    ) && is_fresh(final(self)@[j], now)
                &&& forall|e: EntryModel|
                    #[trigger] fresh_entries(old(self)@, now).contains(e) && !final(self)@.contains(
                        e,
                    ) ==> (forall|j: int|
                        0 <= j < final(self)@.len() ==> e.last_accessed <= #[trigger] final(self)@[j].last_accessed)
                &&& total_size(fresh_entries(old(self)@, now)) <= final(self).budget() ==> final(self)@ == fresh_entries(old(self)@, now)
            },
    {
        let budget = if new_size_mb <= usize::MAX / (1024 * 1024) {
            new_size_mb * 1024 * 1024
        } else {
            usize::MAX
        };
        self.resize_buffer(budget, now);
    }

    /// Sweep out expired entries and re-fit the cache to its byte budget.
    pub fn cleanup_expired(&mut self, now: u64)
        requires
            old(self).wf(),
        ensures
            final(self).wf(),
            final(self).budget() == old(self).budget(),
            final(self).grabs() == old(self).grabs(),
            total_size(final(self)@) <= final(self).budget(),
            forall|j: int|
                0 <= j < final(self)@.len() ==> fresh_entries(old(self)@, now).contains(
                    #[trigger] final(self)@[j],
                ) && is_fresh(final(self)@[j], now),
            forall|e: EntryModel|
                #[trigger] fresh_entries(old(self)@, now).contains(e) && !final(self)@.contains(e)
                    ==> (forall|j: int|
                    0 <= j < final(self)@.len() ==> e.last_accessed <= #[trigger] final(self)@[j].last_accessed),
            total_size(fresh_entries(old(self)@, now)) <= old(self).budget() ==> final(self)@
                == fresh_entries(old(self)@, now),
    {
        self.run_eviction(now);
    }

    /// Unconditional full wipe. The byte budget and the grab count stay.
    pub fn clear_cache(&mut self)
        ensures
            final(self).wf(),
            final(self)@ == Seq::<EntryModel>::empty(),
            final(self).budget() == old(self).budget(),
            final(self).grabs() == old(self).grabs(),
    {
        self.entries.clear();
        self.total_bytes = 0;
        assert(self@ =~= Seq::<EntryModel>::empty());
    }
}

} // verus!
