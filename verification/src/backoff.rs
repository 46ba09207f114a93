//! The retry/backoff scheduler.
//!
//! A per-key failure count drives the delay before a failed key re-enters
//! the work queue: base times two to the number of consecutive failures,
//! capped. Success clears the count, so one recovered key pays no lasting
//! penalty; counts are independent across keys, so one failing App never
//! slows another.

use vstd::arithmetic::mul::lemma_mul_inequality;
use vstd::arithmetic::power2::lemma2_to64;
use vstd::arithmetic::power2::lemma_pow2_pos;
use vstd::arithmetic::power2::lemma_pow2_strictly_increases;
use vstd::arithmetic::power2::lemma_pow2_unfold;
use vstd::arithmetic::power2::pow2;
use vstd::prelude::*;

verus! {

/// Delay before the first retry, in milliseconds.
pub const BASE_DELAY_MS: u64 = 1000;

/// Ceiling on any scheduled delay, in milliseconds.
pub const MAX_DELAY_MS: u64 = 300000;

/// Consecutive failures past which a terminal failure — one retrying
/// cannot fix, such as an invalid spec — is no longer retried; the key is
/// left for an external edit to re-trigger work. Transient failures are
/// never subject to this ceiling.
pub const FAILURE_CEILING: u32 = 16;

/// One key's consecutive-failure count.
struct FailureEntry {
    key: String,
    failures: u32,
}

/// The delay, in milliseconds, scheduled after this many consecutive
/// recorded failures: base times two to the count, capped at the maximum.
pub open spec fn spec_delay(failures: nat) -> int {
    if BASE_DELAY_MS * pow2(failures) > MAX_DELAY_MS {
        MAX_DELAY_MS as int
    } else {
        (BASE_DELAY_MS * pow2(failures)) as int
    }
}

/// The failure count recorded for `k` in a run of entries; zero when absent.
spec fn seq_failures(s: Seq<FailureEntry>, k: Seq<char>) -> nat {
    if exists|i: int| 0 <= i < s.len() && s[i].key@ == k {
        let i = choose|i: int| 0 <= i < s.len() && s[i].key@ == k;
        s[i].failures as nat
    } else {
        0
    }
}

/// The keys of a run of entries, in order.
spec fn entry_keys(s: Seq<FailureEntry>) -> Seq<Seq<char>> {
    s.map_values(|e: FailureEntry| e.key@)
}

/// Per-key failure accounting for the backoff policy.
pub struct BackoffTracker {
    entries: Vec<FailureEntry>,
}

impl BackoffTracker {
    /// Representation invariant: one entry per key.
    pub closed spec fn wf(self) -> bool {
        entry_keys(self.entries@).no_duplicates()
    }

    /// The consecutive-failure count currently recorded for `k`.
    pub closed spec fn failures_of(self, k: Seq<char>) -> nat {
        seq_failures(self.entries@, k)
    }

    /// A tracker with no recorded failures.
    pub fn new() -> (b: BackoffTracker)
        ensures
            b.wf(),
            forall|k: Seq<char>| b.failures_of(k) == 0,
    {
        let b = BackoffTracker { entries: Vec::new() };
        proof {
            assert(entry_keys(b.entries@) =~= Seq::<Seq<char>>::empty());
        }
        b
    }

    /// The count for `k`, readable without recording anything.
    pub fn failures(&self, k: &String) -> (n: u32)
        requires
            self.wf(),
        ensures
            n == self.failures_of(k@),
    {
        match find_entry(&self.entries, k) {
            Some(i) => {
                let n = self.entries[i].failures;
                proof {
                    lemma_seq_failures_at(self.entries@, i as int);
                }
                n
            },
            None => {
                proof {
                    if exists|i: int|
                        0 <= i < self.entries@.len() && self.entries@[i].key@ == k@ {
                        let i = choose|i: int|
                            0 <= i < self.entries@.len() && self.entries@[i].key@ == k@;
                        assert(false);
                    }
                }
                0
            },
        }
    }

    /// Whether a terminal failure of `k` should still be retried, or the
    /// ceiling is reached and the key should be left to an external edit.
    /// Transient failures are retried regardless of this answer.
    pub fn should_retry(&self, k: &String) -> (r: bool)
        requires
            self.wf(),
        ensures
            r == (self.failures_of(k@) < FAILURE_CEILING),
    {
        self.failures(k) < FAILURE_CEILING
    }

    /// Record one failure of `k`: the returned delay is computed from the
    /// count before this failure, and the count grows by one, saturating at
    /// the ceiling. Other keys' counts are untouched.
    pub fn record_failure(&mut self, k: &String) -> (d: u64)
        requires
            old(self).wf(),
        ensures
            final(self).wf(),
            d == spec_delay(old(self).failures_of(k@)),
            final(self).failures_of(k@) == (if old(self).failures_of(k@) < FAILURE_CEILING {
                old(self).failures_of(k@) + 1
            } else {
                old(self).failures_of(k@)
            }),
            forall|j: Seq<char>|
                j != k@ ==> final(self).failures_of(j) == old(self).failures_of(j),
    {
        match find_entry(&self.entries, k) {
            Some(i) => {
                let f = self.entries[i].failures;
                proof {
                    lemma_seq_failures_at(self.entries@, i as int);
                }
                let d = delay_for(f);
                let nf = if f < FAILURE_CEILING {
                    f + 1
                } else {
                    f
                };
                let e = FailureEntry { key: k.clone(), failures: nf };
                proof {
                    lemma_update_entry(self.entries@, i as int, e);
                }
                self.entries[i] = e;
                d
            },
            None => {
                proof {
                    if exists|i: int|
                        0 <= i < self.entries@.len() && self.entries@[i].key@ == k@ {
                        let i = choose|i: int|
                            0 <= i < self.entries@.len() && self.entries@[i].key@ == k@;
                        assert(false);
                    }
                }
                let d = delay_for(0);
                let e = FailureEntry { key: k.clone(), failures: 1 };
                proof {
                    lemma_push_entry(self.entries@, e);
                }
                self.entries.push(e);
                d
            },
        }
    }

    /// Clear the count for `k` after a fully successful pass. Other keys'
    /// counts are untouched.
    pub fn forget(&mut self, k: &String)
        requires
            old(self).wf(),
        ensures
            final(self).wf(),
            final(self).failures_of(k@) == 0,
            forall|j: Seq<char>|
                j != k@ ==> final(self).failures_of(j) == old(self).failures_of(j),
    {
        match find_entry(&self.entries, k) {
            Some(i) => {
                proof {
                    lemma_remove_entry(self.entries@, i as int);
                }
                self.entries.remove(i);
            },
            None => {
                proof {
                    if exists|i: int|
                        0 <= i < self.entries@.len() && self.entries@[i].key@ == k@ {
                        let i = choose|i: int|
                            0 <= i < self.entries@.len() && self.entries@[i].key@ == k@;
                        assert(false);
                    }
                }
            },
        }
    }
}

/// The position of the entry for `k`, if one exists.
fn find_entry(v: &Vec<FailureEntry>, k: &String) -> (r: Option<usize>)
    ensures
        (match r {
            Some(i) => i < v@.len() && v@[i as int].key@ == k@,
            None => forall|i: int| 0 <= i < v@.len() ==> v@[i].key@ != k@,
        }),
{
    let mut i: usize = 0;
    while i < v.len()
        invariant
            0 <= i <= v@.len(),
            forall|j: int| 0 <= j < i ==> v@[j].key@ != k@,
        decreases v@.len() - i,
    {
        if v[i].key.eq(k) {
            return Some(i);
        }
        i += 1;
    }
    None
}

/// The capped exponential delay after this many consecutive failures.
pub fn delay_for(failures: u32) -> (d: u64)
    ensures
        d == spec_delay(failures as nat),
{
    let mut d: u64 = BASE_DELAY_MS;
    let mut i: u32 = 0;
    proof {
        lemma2_to64();
    }
    while i < failures && d < MAX_DELAY_MS
        invariant
            0 <= i <= failures,
            d as int == BASE_DELAY_MS * pow2(i as nat),
            d <= 2 * MAX_DELAY_MS,
        decreases failures - i,
    {
        proof {
            lemma_pow2_unfold((i + 1) as nat);
        }
        d = d * 2;
        i = i + 1;
    }
    if d >= MAX_DELAY_MS {
        proof {
            if i < failures {
                lemma_pow2_strictly_increases(i as nat, failures as nat);
                lemma_mul_inequality(
                    pow2(i as nat) as int,
                    pow2(failures as nat) as int,
                    BASE_DELAY_MS as int,
                );
            }
        }
        MAX_DELAY_MS
    } else {
        d
    }
}

/// Reading the entry at a position under the one-entry-per-key invariant
/// yields that key's recorded count.
proof fn lemma_seq_failures_at(s: Seq<FailureEntry>, i: int)
    requires
        entry_keys(s).no_duplicates(),
        0 <= i < s.len(),
    ensures
        seq_failures(s, s[i].key@) == s[i].failures as nat,
{
    let k = s[i].key@;
    assert(0 <= i < s.len() && s[i].key@ == k);
    assert forall|m: int| 0 <= m < s.len() && s[m].key@ == k implies m == i by {
        if m != i {
            assert(entry_keys(s)[i] == k);
            assert(entry_keys(s)[m] == k);
            if i < m {
                assert(entry_keys(s)[i] != entry_keys(s)[m]);
            } else {
                assert(entry_keys(s)[m] != entry_keys(s)[i]);
            }
        }
    }
}

/// Replacing a key's entry with another for the same key changes only that
/// key's count.
proof fn lemma_update_entry(s: Seq<FailureEntry>, i: int, e: FailureEntry)
    requires
        entry_keys(s).no_duplicates(),
        0 <= i < s.len(),
        e.key@ == s[i].key@,
    ensures
        entry_keys(s.update(i, e)).no_duplicates(),
        seq_failures(s.update(i, e), e.key@) == e.failures as nat,
        forall|j: Seq<char>| j != e.key@ ==> seq_failures(s.update(i, e), j) == seq_failures(s, j),
{
    let t = s.update(i, e);
    assert(entry_keys(t) =~= entry_keys(s));
    lemma_seq_failures_at(t, i);
    assert forall|j: Seq<char>| j != e.key@ implies seq_failures(t, j) == seq_failures(s, j) by {
        if exists|m: int| 0 <= m < s.len() && s[m].key@ == j {
            let m = choose|m: int| 0 <= m < s.len() && s[m].key@ == j;
            assert(m != i);
            assert(t[m].key@ == j);
            lemma_seq_failures_at(s, m);
            lemma_seq_failures_at(t, m);
        } else {
            if exists|m: int| 0 <= m < t.len() && t[m].key@ == j {
                let m = choose|m: int| 0 <= m < t.len() && t[m].key@ == j;
                assert(m != i);
                assert(s[m].key@ == j);
                assert(false);
            }
        }
    }
}

/// Appending an entry for a new key sets that key's count and changes no
/// other.
proof fn lemma_push_entry(s: Seq<FailureEntry>, e: FailureEntry)
    requires
        entry_keys(s).no_duplicates(),
        forall|i: int| 0 <= i < s.len() ==> s[i].key@ != e.key@,
    ensures
        entry_keys(s.push(e)).no_duplicates(),
        seq_failures(s.push(e), e.key@) == e.failures as nat,
        forall|j: Seq<char>| j != e.key@ ==> seq_failures(s.push(e), j) == seq_failures(s, j),
{
    let t = s.push(e);
    assert(entry_keys(t) =~= entry_keys(s).push(e.key@));
    assert forall|i: int, j: int| 0 <= i < j < entry_keys(t).len() implies entry_keys(t)[i]
        != entry_keys(t)[j] by {
        if j < s.len() {
            assert(entry_keys(s)[i] == entry_keys(t)[i]);
            assert(entry_keys(s)[j] == entry_keys(t)[j]);
        } else {
            assert(entry_keys(t)[j] == e.key@);
            assert(entry_keys(t)[i] == s[i].key@);
        }
    }
    assert(t[s.len() as int].key@ == e.key@);
    lemma_seq_failures_at(t, s.len() as int);
    assert forall|j: Seq<char>| j != e.key@ implies seq_failures(t, j) == seq_failures(s, j) by {
        if exists|m: int| 0 <= m < s.len() && s[m].key@ == j {
            let m = choose|m: int| 0 <= m < s.len() && s[m].key@ == j;
            assert(t[m].key@ == j);
            lemma_seq_failures_at(s, m);
            lemma_seq_failures_at(t, m);
        } else {
            if exists|m: int| 0 <= m < t.len() && t[m].key@ == j {
                let m = choose|m: int| 0 <= m < t.len() && t[m].key@ == j;
                assert(m != s.len());
                assert(s[m].key@ == j);
                assert(false);
            }
        }
    }
}

/// Removing a key's entry zeroes that key's count and changes no other.
proof fn lemma_remove_entry(s: Seq<FailureEntry>, i: int)
    requires
        entry_keys(s).no_duplicates(),
        0 <= i < s.len(),
    ensures
        entry_keys(s.remove(i)).no_duplicates(),
        seq_failures(s.remove(i), s[i].key@) == 0,
        forall|j: Seq<char>|
            j != s[i].key@ ==> seq_failures(s.remove(i), j) == seq_failures(s, j),
{
    let t = s.remove(i);
    let k = s[i].key@;
    assert(entry_keys(t) =~= entry_keys(s).remove(i));
    assert forall|a: int, b: int| 0 <= a < b < t.len() implies entry_keys(t)[a] != entry_keys(
        t,
    )[b] by {
        let sa = if a < i {
            a
        } else {
            a + 1
        };
        let sb = if b < i {
            b
        } else {
            b + 1
        };
        assert(t[a] == s[sa]);
        assert(t[b] == s[sb]);
        assert(entry_keys(s)[sa] != entry_keys(s)[sb]);
    }
    if exists|m: int| 0 <= m < t.len() && t[m].key@ == k {
        let m = choose|m: int| 0 <= m < t.len() && t[m].key@ == k;
        let sm = if m < i {
            m
        } else {
            m + 1
        };
        assert(t[m] == s[sm]);
        assert(entry_keys(s)[sm] == k);
        assert(entry_keys(s)[i] == k);
        if sm < i {
            assert(entry_keys(s)[sm] != entry_keys(s)[i]);
        } else {
            assert(entry_keys(s)[i] != entry_keys(s)[sm]);
        }
    }
    assert forall|j: Seq<char>| j != k implies seq_failures(t, j) == seq_failures(s, j) by {
        if exists|m: int| 0 <= m < s.len() && s[m].key@ == j {
            let m = choose|m: int| 0 <= m < s.len() && s[m].key@ == j;
            assert(m != i);
            let tm = if m < i {
                m
            } else {
                m - 1
            };
            assert(t[tm] == s[m]);
            lemma_seq_failures_at(s, m);
            lemma_seq_failures_at(t, tm);
        } else {
            if exists|m: int| 0 <= m < t.len() && t[m].key@ == j {
                let m = choose|m: int| 0 <= m < t.len() && t[m].key@ == j;
                let sm = if m < i {
                    m
                } else {
                    m + 1
                };
                assert(t[m] == s[sm]);
                assert(false);
            }
        }
    }
}

/// Law: retry delays start at the base, double with each consecutive
/// failure, never exceed the cap, never fall below the base, and never
/// shrink as failures accumulate. A cleared count starts over at the base.
pub proof fn lemma_backoff_schedule()
    ensures
        spec_delay(0) == BASE_DELAY_MS,
        spec_delay(1) == 2 * BASE_DELAY_MS,
        spec_delay(2) == 4 * BASE_DELAY_MS,
        forall|f: nat| #[trigger] spec_delay(f) <= MAX_DELAY_MS,
        forall|f: nat| BASE_DELAY_MS <= #[trigger] spec_delay(f),
        forall|f1: nat, f2: nat| f1 <= f2 ==> spec_delay(f1) <= spec_delay(f2),
{
    lemma2_to64();
    assert forall|f: nat| BASE_DELAY_MS <= #[trigger] spec_delay(f) by {
        lemma_pow2_pos(f);
        lemma_mul_inequality(1, pow2(f) as int, BASE_DELAY_MS as int);
    }
    assert forall|f1: nat, f2: nat| f1 <= f2 implies spec_delay(f1) <= spec_delay(f2) by {
        if f1 < f2 {
            lemma_pow2_strictly_increases(f1, f2);
            lemma_mul_inequality(pow2(f1) as int, pow2(f2) as int, BASE_DELAY_MS as int);
        }
    }
}

} // verus!
