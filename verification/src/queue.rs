//! The dedup work queue.
//!
//! Watch events enter here as App keys. The queue coalesces repeated
//! notices for one key into a single pending entry, hands keys to workers
//! one at a time, and guarantees that no key is ever held by two workers
//! at once. A key notified while a worker holds it is marked, and
//! re-enqueued exactly once when that worker reports done.

use vstd::prelude::*;

verus! {

/// The views of a run of keys, in order.
pub open spec fn key_views(s: Seq<String>) -> Seq<Seq<char>> {
    s.map_values(|k: String| k@)
}

/// The set of key views in a run of keys.
pub open spec fn key_set(s: Seq<String>) -> Set<Seq<char>> {
    key_views(s).to_set()
}

/// Abstract state of the queue.
pub ghost struct QueueModel {
    /// Claimable keys, first in first out.
    pub pending: Seq<Seq<char>>,
    /// Keys handed to a worker and not yet reported done.
    pub processing: Set<Seq<char>>,
    /// Keys whose latest notice has not yet begun processing.
    pub marked: Set<Seq<char>>,
}

impl QueueModel {
    /// The queue's invariant: pending keys are distinct, never concurrently
    /// held by a worker, and always marked; a marked key is accounted for
    /// either as pending or as held.
    pub open spec fn wf(self) -> bool {
        &&& self.pending.no_duplicates()
        &&& (forall|i: int|
            0 <= i < self.pending.len() ==> !self.processing.contains(#[trigger] self.pending[i]))
        &&& (forall|i: int|
            0 <= i < self.pending.len() ==> self.marked.contains(#[trigger] self.pending[i]))
        &&& (forall|k: Seq<char>|
            #[trigger] self.marked.contains(k) ==> self.pending.contains(k)
                || self.processing.contains(k))
    }

    /// One `add(k)`: a key with an outstanding notice is left alone; a key
    /// held by a worker is only marked; otherwise the key is marked and
    /// enqueued.
    pub open spec fn spec_add(self, k: Seq<char>) -> QueueModel {
        if self.marked.contains(k) {
            self
        } else if self.processing.contains(k) {
            QueueModel { pending: self.pending, processing: self.processing, marked: self.marked.insert(k) }
        } else {
            QueueModel {
                pending: self.pending.push(k),
                processing: self.processing,
                marked: self.marked.insert(k),
            }
        }
    }

    /// One `get()`: the oldest pending key, if any, moves to the workers'
    /// hands and its notice is consumed.
    pub open spec fn spec_get(self) -> (QueueModel, Option<Seq<char>>) {
        if self.pending.len() == 0 {
            (self, None)
        } else {
            let k = self.pending[0];
            (
                QueueModel {
                    pending: self.pending.drop_first(),
                    processing: self.processing.insert(k),
                    marked: self.marked.remove(k),
                },
                Some(k),
            )
        }
    }

    /// One `done(k)`: the worker releases the key; if a notice arrived
    /// meanwhile the key is re-enqueued, otherwise it leaves the queue.
    pub open spec fn spec_done(self, k: Seq<char>) -> QueueModel {
        if self.processing.contains(k) {
            if self.marked.contains(k) {
                QueueModel {
                    pending: self.pending.push(k),
                    processing: self.processing.remove(k),
                    marked: self.marked,
                }
            } else {
                QueueModel {
                    pending: self.pending,
                    processing: self.processing.remove(k),
                    marked: self.marked,
                }
            }
        } else {
            self
        }
    }
}

/// The dedup work queue over App keys.
pub struct DedupQueue {
    pending: Vec<String>,
    processing: Vec<String>,
    marked: Vec<String>,
}

impl View for DedupQueue {
    type V = QueueModel;

    closed spec fn view(&self) -> QueueModel {
        QueueModel {
            pending: key_views(self.pending@),
            processing: key_set(self.processing@),
            marked: key_set(self.marked@),
        }
    }
}

impl DedupQueue {
    /// Representation invariant: each backing run of keys is free of
    /// duplicates, and the abstract state is well formed.
    pub closed spec fn wf(self) -> bool {
        &&& key_views(self.pending@).no_duplicates()
        &&& key_views(self.processing@).no_duplicates()
        &&& key_views(self.marked@).no_duplicates()
        &&& self@.wf()
    }

    /// An empty queue.
    pub fn new() -> (q: DedupQueue)
        ensures
            q.wf(),
            q@.wf(),
            q@.pending == Seq::<Seq<char>>::empty(),
            q@.processing == Set::<Seq<char>>::empty(),
            q@.marked == Set::<Seq<char>>::empty(),
    {
        let q = DedupQueue { pending: Vec::new(), processing: Vec::new(), marked: Vec::new() };
        proof {
            assert(key_views(q.pending@) =~= Seq::<Seq<char>>::empty());
            assert(key_views(q.processing@) =~= Seq::<Seq<char>>::empty());
            assert(key_views(q.marked@) =~= Seq::<Seq<char>>::empty());
            assert(key_set(q.processing@) =~= Set::<Seq<char>>::empty());
            assert(key_set(q.marked@) =~= Set::<Seq<char>>::empty());
        }
        q
    }

    /// Number of keys waiting to be claimed.
    pub fn pending_len(&self) -> (n: usize)
        ensures
            n == self@.pending.len(),
    {
        self.pending.len()
    }

    /// Insert a key, coalescing repeated notices: a key already noticed or
    /// already held gains no second pending entry.
    pub fn add(&mut self, k: &String)
        requires
            old(self).wf(),
        ensures
            final(self).wf(),
            final(self)@.wf(),
            final(self)@ == old(self)@.spec_add(k@),
    {
        if contains_key(&self.marked, k) {
            return ;
        }
        proof {
            lemma_push_keeps_distinct(self.marked@, *k);
            lemma_add_preserves_wf(old(self)@, k@);
        }
        self.marked.push(k.clone());
        if contains_key(&self.processing, k) {
            return ;
        }
        proof {
            // A key outside `marked` is outside `pending` as well.
            if key_views(self.pending@).contains(k@) {
                let i = choose|i: int|
                    0 <= i < key_views(self.pending@).len() && key_views(self.pending@)[i] == k@;
                assert(old(self)@.marked.contains(k@));
            }
            lemma_push_keeps_distinct(self.pending@, *k);
        }
        self.pending.push(k.clone());
    }

    /// Claim the oldest pending key; `None` when nothing is claimable.
    /// A claimed key is held exclusively until `done` releases it.
    pub fn get(&mut self) -> (r: Option<String>)
        requires
            old(self).wf(),
        ensures
            final(self).wf(),
            final(self)@.wf(),
            final(self)@ == old(self)@.spec_get().0,
            (match (r, old(self)@.spec_get().1) {
                (Some(s), Some(v)) => s@ == v,
                (None, None) => true,
                _ => false,
            }),
    {
        if self.pending.len() == 0 {
            return None;
        }
        let k = self.pending.remove(0);
        proof {
            assert(key_views(old(self).pending@.remove(0)) =~= key_views(
                old(self).pending@,
            ).drop_first());
            lemma_drop_first_distinct(key_views(old(self).pending@));
            // The claimed key is not in any worker's hands.
            if key_set(self.processing@).contains(k@) {
                assert(old(self)@.processing.contains(old(self)@.pending[0]));
            }
            lemma_push_keeps_distinct(self.processing@, k);
            lemma_get_preserves_wf(old(self)@);
        }
        self.processing.push(k.clone());
        remove_key(&mut self.marked, &k);
        Some(k)
    }

    /// Release a held key. If a notice arrived while it was held, the key
    /// re-enters the pending run exactly once; otherwise it leaves the
    /// queue. Releasing a key that is not held does nothing.
    pub fn done(&mut self, k: &String)
        requires
            old(self).wf(),
        ensures
            final(self).wf(),
            final(self)@.wf(),
            final(self)@ == old(self)@.spec_done(k@),
    {
        if !contains_key(&self.processing, k) {
            return ;
        }
        proof {
            lemma_done_preserves_wf(old(self)@, k@);
        }
        remove_key(&mut self.processing, k);
        if contains_key(&self.marked, k) {
            proof {
                // A held key is never pending, so the push keeps keys distinct.
                if key_set(self.pending@).contains(k@) {
                    let i = choose|i: int|
                        0 <= i < key_views(self.pending@).len() && key_views(self.pending@)[i]
                            == k@;
                    assert(old(self)@.processing.contains(old(self)@.pending[i]));
                }
                lemma_push_keeps_distinct(self.pending@, *k);
            }
            self.pending.push(k.clone());
        }
    }
}

/// Whether the run holds a key with this view.
fn contains_key(v: &Vec<String>, k: &String) -> (b: bool)
    ensures
        b == key_set(v@).contains(k@),
{
    let mut i: usize = 0;
    while i < v.len()
        invariant
            0 <= i <= v@.len(),
            forall|j: int| 0 <= j < i ==> key_views(v@)[j] != k@,
        decreases v@.len() - i,
    {
        if v[i].eq(k) {
            proof {
                assert(key_views(v@)[i as int] == k@);
            }
            return true;
        }
        i += 1;
    }
    proof {
        if key_views(v@).contains(k@) {
            let j = choose|j: int| 0 <= j < key_views(v@).len() && key_views(v@)[j] == k@;
            assert(false);
        }
    }
    false
}

/// Remove the key with this view, if present. The backing run must be free
/// of duplicates, so at most one entry can match.
fn remove_key(v: &mut Vec<String>, k: &String) -> (removed: bool)
    requires
        key_views(old(v)@).no_duplicates(),
    ensures
        key_views(final(v)@).no_duplicates(),
        key_set(final(v)@) == key_set(old(v)@).remove(k@),
        removed == key_set(old(v)@).contains(k@),
{
    let mut i: usize = 0;
    while i < v.len()
        invariant
            0 <= i <= v@.len(),
            forall|j: int| 0 <= j < i ==> key_views(v@)[j] != k@,
            key_views(v@).no_duplicates(),
            v@ == old(v)@,
        decreases v@.len() - i,
    {
        if v[i].eq(k) {
            proof {
                assert(key_views(v@)[i as int] == k@);
                assert(key_set(v@).contains(k@));
            }
            v.remove(i);
            proof {
                lemma_remove_at(old(v)@, i as int, k@);
            }
            return true;
        }
        i += 1;
    }
    proof {
        if key_views(v@).contains(k@) {
            let j = choose|j: int| 0 <= j < key_views(v@).len() && key_views(v@)[j] == k@;
            assert(false);
        }
        assert(key_set(v@) =~= key_set(v@).remove(k@));
    }
    false
}

/// Pushing a key absent from a duplicate-free run keeps it duplicate-free.
proof fn lemma_push_keeps_distinct(s: Seq<String>, x: String)
    requires
        key_views(s).no_duplicates(),
        !key_set(s).contains(x@),
    ensures
        key_views(s.push(x)).no_duplicates(),
        key_views(s.push(x)) == key_views(s).push(x@),
        key_set(s.push(x)) == key_set(s).insert(x@),
{
    assert(key_views(s.push(x)) =~= key_views(s).push(x@));
    if key_views(s).contains(x@) {
        assert(key_set(s).contains(x@));
    }
    lemma_push_set(s, x);
}

/// Pushing a key adds exactly its view to the key set.
proof fn lemma_push_set(s: Seq<String>, x: String)
    ensures
        key_views(s.push(x)) == key_views(s).push(x@),
        key_set(s.push(x)) == key_set(s).insert(x@),
{
    assert(key_views(s.push(x)) =~= key_views(s).push(x@));
    assert forall|y: Seq<char>| key_set(s.push(x)).contains(y) implies key_set(s).insert(
        x@,
    ).contains(y) by {
        let i = choose|i: int|
            0 <= i < key_views(s.push(x)).len() && key_views(s.push(x))[i] == y;
        if i < s.len() {
            assert(key_views(s)[i] == y);
        }
    }
    assert forall|y: Seq<char>| key_set(s).insert(x@).contains(y) implies key_set(
        s.push(x),
    ).contains(y) by {
        if key_set(s).contains(y) {
            let i = choose|i: int| 0 <= i < key_views(s).len() && key_views(s)[i] == y;
            assert(key_views(s.push(x))[i] == y);
        } else {
            assert(key_views(s.push(x))[s.len() as int] == x@);
        }
    }
    assert(key_set(s.push(x)) =~= key_set(s).insert(x@));
}

/// Removing the one entry whose view is `k` removes exactly `k` from the
/// key set.
proof fn lemma_remove_at(s: Seq<String>, i: int, k: Seq<char>)
    requires
        0 <= i < s.len(),
        key_views(s).no_duplicates(),
        s[i]@ == k,
    ensures
        key_views(s.remove(i)).no_duplicates(),
        key_set(s.remove(i)) == key_set(s).remove(k),
{
    assert(key_views(s.remove(i)) =~= key_views(s).remove(i));
    assert forall|y: Seq<char>| key_set(s.remove(i)).contains(y) implies key_set(s).remove(
        k,
    ).contains(y) by {
        let j = choose|j: int|
            0 <= j < key_views(s.remove(i)).len() && key_views(s.remove(i))[j] == y;
        if j < i {
            assert(key_views(s)[j] == y);
            if y == k {
                assert(key_views(s)[i] == k);
            }
        } else {
            assert(key_views(s)[j + 1] == y);
            if y == k {
                assert(key_views(s)[i] == k);
            }
        }
    }
    assert forall|y: Seq<char>| key_set(s).remove(k).contains(y) implies key_set(
        s.remove(i),
    ).contains(y) by {
        let j = choose|j: int| 0 <= j < key_views(s).len() && key_views(s)[j] == y;
        if j < i {
            assert(key_views(s.remove(i))[j] == y);
        } else {
            assert(j != i);
            assert(key_views(s.remove(i))[j - 1] == y);
        }
    }
    assert(key_set(s.remove(i)) =~= key_set(s).remove(k));
}

/// Law: adding a key is idempotent. However many notices for one key are
/// coalesced, the queue is as if a single one arrived.
pub proof fn lemma_add_coalesces(q: QueueModel, k: Seq<char>)
    ensures
        q.spec_add(k).spec_add(k) == q.spec_add(k),
{
}

/// Law: adds for a key a worker currently holds create no second pending
/// entry, and once the worker reports done, the key re-enters the pending
/// run exactly once, however many adds were coalesced.
pub proof fn lemma_dedup_requeue_once(q: QueueModel, k: Seq<char>)
    requires
        q.wf(),
        q.processing.contains(k),
    ensures
        !q.pending.contains(k),
        q.spec_add(k).pending == q.pending,
        q.spec_add(k).spec_add(k) == q.spec_add(k),
        q.spec_add(k).spec_done(k).pending == q.pending.push(k),
        q.spec_add(k).spec_done(k).pending.no_duplicates(),
{
    if q.pending.contains(k) {
        let i = choose|i: int| 0 <= i < q.pending.len() && q.pending[i] == k;
        assert(!q.processing.contains(q.pending[i]));
    }
    assert(q.spec_add(k).marked.contains(k));
}

/// Law: a key a worker holds and that gathered no notice leaves the queue
/// entirely when the worker reports done: no further processing occurs.
pub proof fn lemma_done_without_notice(q: QueueModel, k: Seq<char>)
    requires
        q.wf(),
        q.processing.contains(k),
        !q.marked.contains(k),
    ensures
        q.spec_done(k).pending == q.pending,
        !q.spec_done(k).processing.contains(k),
        !q.spec_done(k).marked.contains(k),
{
}

/// Law: a claimed key was in no worker's hands before the claim, is in the
/// workers' hands after it, and is no longer claimable: between `get` and
/// `done`, exactly one worker holds it.
pub proof fn lemma_get_exclusive(q: QueueModel)
    requires
        q.wf(),
        q.spec_get().1 is Some,
    ensures
        !q.processing.contains(q.spec_get().1.unwrap()),
        q.spec_get().0.processing.contains(q.spec_get().1.unwrap()),
        !q.spec_get().0.pending.contains(q.spec_get().1.unwrap()),
        q.spec_get().0.wf(),
{
    let k = q.pending[0];
    if q.spec_get().0.pending.contains(k) {
        let i = choose|i: int|
            0 <= i < q.pending.drop_first().len() && q.pending.drop_first()[i] == k;
        assert(q.pending[i + 1] == k);
        assert(q.pending[0] == k);
    }
    lemma_get_preserves_wf(q);
}

/// `add` preserves the queue invariant.
pub proof fn lemma_add_preserves_wf(q: QueueModel, k: Seq<char>)
    requires
        q.wf(),
    ensures
        q.spec_add(k).wf(),
{
    if !q.marked.contains(k) && !q.processing.contains(k) {
        if q.pending.contains(k) {
            let i = choose|i: int| 0 <= i < q.pending.len() && q.pending[i] == k;
            assert(q.marked.contains(q.pending[i]));
        }
        let p = q.pending.push(k);
        assert forall|i: int| 0 <= i < p.len() implies !q.processing.contains(#[trigger] p[i])
            && q.marked.insert(k).contains(p[i]) by {
            if i < q.pending.len() {
                assert(p[i] == q.pending[i]);
            } else {
                assert(p[i] == k);
            }
        }
        assert forall|i: int, j: int| 0 <= i < j < p.len() implies p[i] != p[j] by {
            if j < q.pending.len() {
                assert(p[i] == q.pending[i] && p[j] == q.pending[j]);
            } else {
                assert(p[i] == q.pending[i] && p[j] == k);
                if q.pending[i] == k {
                    assert(q.pending.contains(k));
                }
            }
        }
        assert forall|m: Seq<char>| #[trigger] q.marked.insert(k).contains(m) implies p.contains(m)
            || q.processing.contains(m) by {
            if m == k {
                assert(p[q.pending.len() as int] == k);
                assert(p.contains(k));
            } else if q.pending.contains(m) {
                let i = choose|i: int| 0 <= i < q.pending.len() && q.pending[i] == m;
                assert(p[i] == m);
                assert(p.contains(m));
            }
        }
    }
}

/// `get` preserves the queue invariant.
pub proof fn lemma_get_preserves_wf(q: QueueModel)
    requires
        q.wf(),
    ensures
        q.spec_get().0.wf(),
{
    if q.pending.len() > 0 {
        let k = q.pending[0];
        let p = q.pending.drop_first();
        lemma_drop_first_distinct(q.pending);
        assert forall|i: int| 0 <= i < p.len() implies !q.processing.insert(k).contains(
            #[trigger] p[i],
        ) by {
            assert(p[i] == q.pending[i + 1]);
            assert(!q.processing.contains(q.pending[i + 1]));
            assert(q.pending[i + 1] != k);
        }
        assert forall|i: int| 0 <= i < p.len() implies q.marked.remove(k).contains(
            #[trigger] p[i],
        ) by {
            assert(p[i] == q.pending[i + 1]);
            assert(q.marked.contains(q.pending[i + 1]));
        }
        assert forall|m: Seq<char>| #[trigger] q.marked.remove(k).contains(m) implies p.contains(m)
            || q.processing.insert(k).contains(m) by {
            if q.pending.contains(m) {
                let i = choose|i: int| 0 <= i < q.pending.len() && q.pending[i] == m;
                assert(i != 0);
                assert(p[i - 1] == m);
                assert(p.contains(m));
            }
        }
    }
}

/// Dropping the head of a duplicate-free run keeps it duplicate-free.
proof fn lemma_drop_first_distinct(s: Seq<Seq<char>>)
    requires
        s.len() > 0,
        s.no_duplicates(),
    ensures
        s.drop_first().no_duplicates(),
{
    let d = s.drop_first();
    assert forall|i: int, j: int| 0 <= i < j < d.len() implies d[i] != d[j] by {
        assert(d[i] == s[i + 1]);
        assert(d[j] == s[j + 1]);
    }
}

/// `done` preserves the queue invariant.
pub proof fn lemma_done_preserves_wf(q: QueueModel, k: Seq<char>)
    requires
        q.wf(),
    ensures
        q.spec_done(k).wf(),
{
    if q.processing.contains(k) {
        if q.pending.contains(k) {
            let i = choose|i: int| 0 <= i < q.pending.len() && q.pending[i] == k;
            assert(!q.processing.contains(q.pending[i]));
        }
        if q.marked.contains(k) {
            let p = q.pending.push(k);
            assert forall|i: int| 0 <= i < p.len() implies !q.processing.remove(k).contains(
                #[trigger] p[i],
            ) && q.marked.contains(#[trigger] p[i]) by {
                if i < q.pending.len() {
                    assert(p[i] == q.pending[i]);
                } else {
                    assert(p[i] == k);
                }
            }
            assert forall|i: int, j: int| 0 <= i < j < p.len() implies p[i] != p[j] by {
                if j < q.pending.len() {
                    assert(p[i] == q.pending[i] && p[j] == q.pending[j]);
                } else {
                    assert(p[i] == q.pending[i] && p[j] == k);
                }
            }
            assert forall|m: Seq<char>| #[trigger] q.marked.contains(m) implies p.contains(m)
                || q.processing.remove(k).contains(m) by {
                if m == k {
                    assert(p[q.pending.len() as int] == k);
                    assert(p.contains(k));
                } else if q.pending.contains(m) {
                    let i = choose|i: int| 0 <= i < q.pending.len() && q.pending[i] == m;
                    assert(p[i] == m);
                    assert(p.contains(m));
                }
            }
        }
    }
}

} // verus!
