//! Time-bounded memoization of OS capability probes (screen recording,
//! accessibility), so repeated checks are cheap. The live OS query is a
//! collaborator: the application layer performs it and hands the outcome to
//! `apply_probe_result`.

use vstd::prelude::*;

verus! {

/// Seconds a successful permission probe stays trusted before a live OS
/// query is required again.
pub const PERMISSION_TTL_SECS: u64 = 30;

/// An OS-level capability grant the capture flow depends on.
#[derive(Clone, Copy, PartialEq, Eq, Structural, Debug)]
pub enum Permission {
    ScreenRecording,
    Accessibility,
}

/// One memoized probe result.
#[derive(Clone, Copy, PartialEq, Eq, Structural, Debug)]
pub struct PermissionEntry {
    pub permission: Permission,
    pub granted: bool,
    pub checked_at: u64,
}

/// An entry may be trusted only while `now - checked_at` is under the TTL.
pub open spec fn entry_valid(e: PermissionEntry, now: u64) -> bool {
    now - e.checked_at < PERMISSION_TTL_SECS
}

pub open spec fn perm_contains(s: Seq<PermissionEntry>, p: Permission) -> bool {
    exists|i: int| 0 <= i < s.len() && s[i].permission == p
}

/// The index of the entry for `p`; meaningful only under `perms_unique`.
pub open spec fn perm_index(s: Seq<PermissionEntry>, p: Permission) -> int {
    choose|i: int| 0 <= i < s.len() && s[i].permission == p
}

/// There is an entry for `p` that may still be trusted at `now`.
pub open spec fn has_valid(s: Seq<PermissionEntry>, p: Permission, now: u64) -> bool {
    perm_contains(s, p) && entry_valid(s[perm_index(s, p)], now)
}

pub open spec fn perms_unique(s: Seq<PermissionEntry>) -> bool {
    forall|i: int, j: int| 0 <= i < j < s.len() ==> s[i].permission != s[j].permission
}

/// How many entries of `s` have outlived the TTL at `now`.
pub open spec fn stale_count(s: Seq<PermissionEntry>, now: u64) -> int {
    s.len() - s.filter(|e: PermissionEntry| entry_valid(e, now)).len()
}

proof fn lemma_perm_index(s: Seq<PermissionEntry>, p: Permission, i: int)
    requires
        perms_unique(s),
        0 <= i < s.len(),
        s[i].permission == p,
    ensures
        perm_contains(s, p),
        perm_index(s, p) == i,
{
    let j = perm_index(s, p);
    assert(perm_contains(s, p));
    assert(0 <= j < s.len() && s[j].permission == p);
    if i < j {
        assert(s[i].permission != s[j].permission);
    } else if j < i {
        assert(s[j].permission != s[i].permission);
    }
}

proof fn lemma_perm_filter_push(
    s: Seq<PermissionEntry>,
    pred: spec_fn(PermissionEntry) -> bool,
    e: PermissionEntry,
)
    ensures
        s.push(e).filter(pred) == if pred(e) {
            s.filter(pred).push(e)
        } else {
            s.filter(pred)
        },
{
    reveal(Seq::filter);
    assert(s.push(e).drop_last() =~= s);
    assert(s.push(e).last() == e);
}

/// The permission probe cache: at most one memoized result per permission.
pub struct PermissionCache {
    entries: Vec<PermissionEntry>,
}

impl View for PermissionCache {
    type V = Seq<PermissionEntry>;

    closed spec fn view(&self) -> Seq<PermissionEntry> {
        self.entries@
    }
}

impl PermissionCache {
    /// Internal consistency: one entry per permission kind.
    pub closed spec fn wf(&self) -> bool {
        perms_unique(self@)
    }

    pub fn new() -> (c: Self)
        ensures
            c.wf(),
            c@ == Seq::<PermissionEntry>::empty(),
    {
        PermissionCache { entries: Vec::new() }
    }

    /// Index of the entry for `p`, if one is stored.
    fn find_index(&self, p: Permission) -> (r: Option<usize>)
        ensures
            match r {
                Some(i) => 0 <= i < self@.len() && self@[i as int].permission == p,
                None => !perm_contains(self@, p),
            },
    {
        let mut i: usize = 0;
        while i < self.entries.len()
            invariant
                0 <= i <= self.entries.len(),
                self@.len() == self.entries.len(),
                forall|j: int| 0 <= j < i ==> #[trigger] self@[j].permission != p,
            decreases self.entries.len() - i,
        {
            if self.entries[i].permission == p {
                return Some(i);
            }
            i = i + 1;
        }
        None
    }

    /// The memoized result for `p`, provided it is still within the TTL.
    /// `None` demands a live OS query before the value may be trusted.
    pub fn cached_result(&self, p: Permission, now: u64) -> (r: Option<bool>)
        requires
            self.wf(),
        ensures
            match r {
                Some(g) => has_valid(self@, p, now) && g == self@[perm_index(self@, p)].granted,
                None => !has_valid(self@, p, now),
            },
    {
        match self.find_index(p) {
            Some(i) => {
                proof {
                    lemma_perm_index(self@, p, i as int);
                }
                let e = self.entries[i];
                if (now as u128) < (e.checked_at as u128) + (PERMISSION_TTL_SECS as u128) {
                    Some(e.granted)
                } else {
                    None
                }
            },
            None => None,
        }
    }

    /// Memoize a probe result for `p`, replacing any earlier entry.
    pub fn record(&mut self, p: Permission, granted: bool, now: u64)
        requires
            old(self).wf(),
        ensures
            final(self).wf(),
            has_valid(final(self)@, p, now),
            final(self)@[perm_index(final(self)@, p)] == (PermissionEntry {
                permission: p,
                granted,
                checked_at: now,
            }),
            final(self)@.len() >= 1,
            final(self)@.last() == (PermissionEntry { permission: p, granted, checked_at: now }),
            forall|j: int|
                0 <= j < final(self)@.len() - 1 ==> #[trigger] final(self)@[j].permission != p
                    && old(self)@.contains(final(self)@[j]),
    {
        let ghost orig = self@;
        match self.find_index(p) {
            Some(i) => {
                proof {
                    lemma_perm_index(self@, p, i as int);
                }
                let ghost prev = self@;
                let _ = self.entries.remove(i);
                proof {
                    assert(self@ =~= prev.remove(i as int));
                    assert forall|j: int|
                        0 <= j < self@.len() implies #[trigger] self@[j].permission != p
                        && orig.contains(self@[j]) by {
                        let j0 = if j < i as int {
                            j
                        } else {
                            j + 1
                        };
                        assert(self@[j] == prev[j0]);
                        if j0 < i as int {
                            assert(prev[j0].permission != prev[i as int].permission);
                        } else if (i as int) < j0 {
                            assert(prev[i as int].permission != prev[j0].permission);
                        }
                    }
                }
            },
            None => {
                proof {
                    assert forall|j: int|
                        0 <= j < self@.len() implies #[trigger] self@[j].permission != p
                        && orig.contains(self@[j]) by {
                        if self@[j].permission == p {
                            assert(perm_contains(self@, p));
                        }
                    }
                }
            },
        }
        let ghost base = self@;
        let e = PermissionEntry { permission: p, granted, checked_at: now };
        self.entries.push(e);
        proof {
            assert(self@ =~= base.push(e));
            let n = self@.len() - 1;
            assert forall|m: int, n2: int| 0 <= m < n2 < self@.len() implies self@[m].permission
                != self@[n2].permission by {
                if n2 < n {
                    assert(self@[m] == base[m] && self@[n2] == base[n2]);
                } else {
                    assert(self@[n2] == e && self@[m] == base[m]);
                }
            }
            lemma_perm_index(self@, p, n);
        }
    }

    /// The verified half of a cached permission check: the application
    /// layer runs the live OS query on a cache miss and hands its outcome
    /// here. A successful probe is memoized and its grant returned; a
    /// failed probe is treated as not granted and is not memoized.
    pub fn apply_probe_result(&mut self, p: Permission, now: u64, probe: Result<bool, String>) -> (granted:
        bool)
        requires
            old(self).wf(),
        ensures
            final(self).wf(),
            match probe {
                Ok(g) => granted == g && has_valid(final(self)@, p, now) && final(self)@[perm_index(
                    final(self)@,
                    p,
                )].granted == g,
                Err(_) => !granted && final(self)@ == old(self)@,
            },
    {
        match probe {
            Ok(g) => {
                self.record(p, g, now);
                g
            },
            Err(_) => false,
        }
    }

    /// Forget every memoized result, forcing live OS queries.
    pub fn clear_cache(&mut self)
        ensures
            final(self).wf(),
            final(self)@ == Seq::<PermissionEntry>::empty(),
    {
        self.entries.clear();
    }

    /// Drop the entries that have outlived the TTL, keeping the order of
    /// the rest.
    #[verifier::loop_isolation(false)]
    pub fn cleanup_expired(&mut self, now: u64)
        requires
            old(self).wf(),
        ensures
            final(self).wf(),
            final(self)@ == old(self)@.filter(|e: PermissionEntry| entry_valid(e, now)),
    {
        let ghost orig = self@;
        let ghost pred = |e: PermissionEntry| entry_valid(e, now);
        let mut i: usize = 0;
        let ghost mut k: int = 0;
        while i < self.entries.len()
            invariant
                perms_unique(self@),
                0 <= k <= orig.len(),
                i as int == orig.subrange(0, k).filter(pred).len(),
                self@ == orig.subrange(0, k).filter(pred) + orig.subrange(k, orig.len() as int),
            decreases orig.len() - k,
        {
            let ghost prev = self@;
            let ghost cur = orig[k];
            proof {
                assert(prev[i as int] == cur);
                assert(orig.subrange(0, k + 1) =~= orig.subrange(0, k).push(cur));
                lemma_perm_filter_push(orig.subrange(0, k), pred, cur);
            }
            let valid = (now as u128) < (self.entries[i].checked_at as u128) + (
            PERMISSION_TTL_SECS as u128);
            if valid {
                i = i + 1;
                proof {
                    k = k + 1;
                    assert(self@ =~= orig.subrange(0, k).filter(pred) + orig.subrange(
                        k,
                        orig.len() as int,
                    ));
                }
            } else {
                let _ = self.entries.remove(i);
                proof {
                    assert(self@ =~= prev.remove(i as int));
                    assert forall|m: int, n: int| 0 <= m < n < self@.len() implies self@[m].permission
                        != self@[n].permission by {
                        let m0 = if m < i as int {
                            m
                        } else {
                            m + 1
                        };
                        let n0 = if n < i as int {
                            n
                        } else {
                            n + 1
                        };
                        assert(self@[m] == prev[m0] && self@[n] == prev[n0]);
                    }
                    k = k + 1;
                    assert(self@ =~= orig.subrange(0, k).filter(pred) + orig.subrange(
                        k,
                        orig.len() as int,
                    ));
                }
            }
        }
        proof {
            assert(orig.subrange(0, orig.len() as int) =~= orig);
            assert(self@ =~= orig.filter(pred));
        }
    }

    /// Total and stale entry counts as of `now`; active is their
    /// difference. Read-only.
    #[verifier::loop_isolation(false)]
    pub fn get_cache_stats(&self, now: u64) -> (r: (usize, usize))
        requires
            self.wf(),
        ensures
            r.0 == self@.len(),
            r.1 as int == stale_count(self@, now),
    {
        let mut stale: usize = 0;
        let mut i: usize = 0;
        while i < self.entries.len()
            invariant
                0 <= i <= self.entries.len(),
                stale as int == (i as int) - self@.subrange(0, i as int).filter(
                    |e: PermissionEntry| entry_valid(e, now),
                ).len(),
                stale <= i,
            decreases self.entries.len() - i,
        {
            let ghost prefix = self@.subrange(0, i as int);
            let valid = (now as u128) < (self.entries[i].checked_at as u128) + (
            PERMISSION_TTL_SECS as u128);
            if !valid {
                stale = stale + 1;
            }
            proof {
                assert(self@.subrange(0, i + 1) =~= prefix.push(self@[i as int]));
                lemma_perm_filter_push(
                    prefix,
                    |e: PermissionEntry| entry_valid(e, now),
                    self@[i as int],
                );
            }
            i = i + 1;
        }
        proof {
            assert(self@.subrange(0, self@.len() as int) =~= self@);
        }
        (self.entries.len(), stale)
    }
}

} // verus!
