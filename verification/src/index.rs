//! The ownership index.
//!
//! Watch events for owned Deployments carry only the owner reference's
//! uid; reconciliation is keyed by the owning App's key. This index is the
//! reverse mapping, uid to key, maintained from App watch events. It is a
//! rebuildable in-memory cache for routing only: authoritative state always
//! comes from a fresh fetch inside the reconciler.

use vstd::prelude::*;

verus! {

/// One known App: its stable uid and its key.
struct IndexEntry {
    uid: String,
    key: String,
}

/// The uids of a run of entries, in order.
spec fn entry_uids(s: Seq<IndexEntry>) -> Seq<Seq<char>> {
    s.map_values(|e: IndexEntry| e.uid@)
}

/// The key recorded for `uid` in a run of entries, if any.
spec fn seq_key_of(s: Seq<IndexEntry>, uid: Seq<char>) -> Option<Seq<char>> {
    if exists|i: int| 0 <= i < s.len() && s[i].uid@ == uid {
        let i = choose|i: int| 0 <= i < s.len() && s[i].uid@ == uid;
        Some(s[i].key@)
    } else {
        None
    }
}

/// Reverse mapping from an owner reference's uid to the owning App's key.
pub struct OwnerIndex {
    entries: Vec<IndexEntry>,
}

impl OwnerIndex {
    /// Representation invariant: one entry per uid.
    pub closed spec fn wf(self) -> bool {
        entry_uids(self.entries@).no_duplicates()
    }

    /// The key this index resolves `uid` to, if the App is known.
    pub closed spec fn key_of(self, uid: Seq<char>) -> Option<Seq<char>> {
        seq_key_of(self.entries@, uid)
    }

    /// An empty index.
    pub fn new() -> (x: OwnerIndex)
        ensures
            x.wf(),
            forall|u: Seq<char>| x.key_of(u) is None,
    {
        OwnerIndex { entries: Vec::new() }
    }

    /// Record, from an App watch event, that the App with this uid lives
    /// under this key, replacing any earlier record for the uid. Other uids
    /// resolve as before.
    pub fn insert(&mut self, uid: &String, key: &String)
        requires
            old(self).wf(),
        ensures
            final(self).wf(),
            final(self).key_of(uid@) == Some(key@),
            forall|u: Seq<char>| u != uid@ ==> final(self).key_of(u) == old(self).key_of(u),
    {
        let e = IndexEntry { uid: uid.clone(), key: key.clone() };
        match find_uid(&self.entries, uid) {
            Some(i) => {
                proof {
                    lemma_update_entry(self.entries@, i as int, e);
                }
                self.entries[i] = e;
            },
            None => {
                proof {
                    lemma_push_entry(self.entries@, e);
                }
                self.entries.push(e);
            },
        }
    }

    /// Drop the record for this uid, if any, on deletion of the App. Other
    /// uids resolve as before.
    pub fn remove(&mut self, uid: &String)
        requires
            old(self).wf(),
        ensures
            final(self).wf(),
            final(self).key_of(uid@) is None,
            forall|u: Seq<char>| u != uid@ ==> final(self).key_of(u) == old(self).key_of(u),
    {
        match find_uid(&self.entries, uid) {
            Some(i) => {
                proof {
                    lemma_remove_entry(self.entries@, i as int);
                }
                self.entries.remove(i);
            },
            None => {
                proof {
                    lemma_absent(self.entries@, uid@);
                }
            },
        }
    }

    /// Resolve an owner uid to the owning App's key. `None` means the App
    /// is not yet known here — the caller retries the event after a short
    /// delay rather than dropping it, so a child event observed before its
    /// parent self-heals.
    pub fn lookup(&self, uid: &String) -> (r: Option<String>)
        requires
            self.wf(),
        ensures
            (match r {
                Some(k) => self.key_of(uid@) == Some(k@),
                None => self.key_of(uid@) is None,
            }),
    {
        match find_uid(&self.entries, uid) {
            Some(i) => {
                proof {
                    lemma_seq_key_at(self.entries@, i as int);
                }
                Some(self.entries[i].key.clone())
            },
            None => {
                proof {
                    lemma_absent(self.entries@, uid@);
                }
                None
            },
        }
    }
}

/// The change a normalized watch event reports.
#[derive(PartialEq, Eq, Structural, Clone, Copy, Debug)]
pub enum EventType {
    /// The object appeared.
    Added,
    /// The object changed, or is re-announced after a stream resume.
    Modified,
    /// The object is gone.
    Deleted,
}

/// A normalized watch event for an App resource.
pub struct AppEvent {
    /// The App's key, namespace and name.
    pub key: String,
    /// The App's stable uid.
    pub uid: String,
    /// What happened.
    pub event_type: EventType,
}

/// A normalized watch event for an owned Deployment.
pub struct DeploymentEvent {
    /// The uid in the child's owner reference.
    pub owner_uid: String,
    /// What happened.
    pub event_type: EventType,
}

impl OwnerIndex {
    /// Digest one App event: its uid's binding is recorded, or dropped on
    /// deletion, and the App's own key is what reconciles next.
    pub fn on_app_event(&mut self, ev: &AppEvent) -> (k: String)
        requires
            old(self).wf(),
        ensures
            final(self).wf(),
            k@ == ev.key@,
            (match ev.event_type {
                EventType::Deleted => final(self).key_of(ev.uid@) is None,
                _ => final(self).key_of(ev.uid@) == Some(ev.key@),
            }),
            forall|u: Seq<char>|
                u != ev.uid@ ==> final(self).key_of(u) == old(self).key_of(u),
    {
        match ev.event_type {
            EventType::Deleted => self.remove(&ev.uid),
            _ => self.insert(&ev.uid, &ev.key),
        }
        ev.key.clone()
    }

    /// Digest one Deployment event: the owner reference resolves to the
    /// owning App's key. `None` means the child's event raced ahead of its
    /// parent's; the caller retries it after a short delay rather than
    /// dropping it.
    pub fn on_deployment_event(&self, ev: &DeploymentEvent) -> (r: Option<String>)
        requires
            self.wf(),
        ensures
            (match r {
                Some(k) => self.key_of(ev.owner_uid@) == Some(k@),
                None => self.key_of(ev.owner_uid@) is None,
            }),
    {
        self.lookup(&ev.owner_uid)
    }
}

/// The position of the entry for `uid`, if one exists.
fn find_uid(v: &Vec<IndexEntry>, uid: &String) -> (r: Option<usize>)
    ensures
        (match r {
            Some(i) => i < v@.len() && v@[i as int].uid@ == uid@,
            None => forall|i: int| 0 <= i < v@.len() ==> v@[i].uid@ != uid@,
        }),
{
    let mut i: usize = 0;
    while i < v.len()
        invariant
            0 <= i <= v@.len(),
            forall|j: int| 0 <= j < i ==> v@[j].uid@ != uid@,
        decreases v@.len() - i,
    {
        if v[i].uid.eq(uid) {
            return Some(i);
        }
        i += 1;
    }
    None
}

/// A uid none of the entries carries resolves to nothing.
proof fn lemma_absent(s: Seq<IndexEntry>, uid: Seq<char>)
    requires
        forall|i: int| 0 <= i < s.len() ==> s[i].uid@ != uid,
    ensures
        seq_key_of(s, uid) is None,
{
    if exists|i: int| 0 <= i < s.len() && s[i].uid@ == uid {
        let i = choose|i: int| 0 <= i < s.len() && s[i].uid@ == uid;
        assert(false);
    }
}

/// Reading the entry at a position under the one-entry-per-uid invariant
/// yields that uid's recorded key.
proof fn lemma_seq_key_at(s: Seq<IndexEntry>, i: int)
    requires
        entry_uids(s).no_duplicates(),
        0 <= i < s.len(),
    ensures
        seq_key_of(s, s[i].uid@) == Some(s[i].key@),
{
    let u = s[i].uid@;
    assert(0 <= i < s.len() && s[i].uid@ == u);
    assert forall|m: int| 0 <= m < s.len() && s[m].uid@ == u implies m == i by {
        if m != i {
            assert(entry_uids(s)[i] == u);
            assert(entry_uids(s)[m] == u);
            if i < m {
                assert(entry_uids(s)[i] != entry_uids(s)[m]);
            } else {
                assert(entry_uids(s)[m] != entry_uids(s)[i]);
            }
        }
    }
}

/// Replacing a uid's entry with another for the same uid rebinds only that
/// uid.
proof fn lemma_update_entry(s: Seq<IndexEntry>, i: int, e: IndexEntry)
    requires
        entry_uids(s).no_duplicates(),
        0 <= i < s.len(),
        e.uid@ == s[i].uid@,
    ensures
        entry_uids(s.update(i, e)).no_duplicates(),
        seq_key_of(s.update(i, e), e.uid@) == Some(e.key@),
        forall|u: Seq<char>| u != e.uid@ ==> seq_key_of(s.update(i, e), u) == seq_key_of(s, u),
{
    let t = s.update(i, e);
    assert(entry_uids(t) =~= entry_uids(s));
    lemma_seq_key_at(t, i);
    assert forall|u: Seq<char>| u != e.uid@ implies seq_key_of(t, u) == seq_key_of(s, u) by {
        if exists|m: int| 0 <= m < s.len() && s[m].uid@ == u {
            let m = choose|m: int| 0 <= m < s.len() && s[m].uid@ == u;
            assert(m != i);
            assert(t[m].uid@ == u);
            lemma_seq_key_at(s, m);
            lemma_seq_key_at(t, m);
        } else {
            if exists|m: int| 0 <= m < t.len() && t[m].uid@ == u {
                let m = choose|m: int| 0 <= m < t.len() && t[m].uid@ == u;
                assert(m != i);
                assert(s[m].uid@ == u);
                assert(false);
            }
        }
    }
}

/// Appending an entry for a new uid binds that uid and rebinds no other.
proof fn lemma_push_entry(s: Seq<IndexEntry>, e: IndexEntry)
    requires
        entry_uids(s).no_duplicates(),
        forall|i: int| 0 <= i < s.len() ==> s[i].uid@ != e.uid@,
    ensures
        entry_uids(s.push(e)).no_duplicates(),
        seq_key_of(s.push(e), e.uid@) == Some(e.key@),
        forall|u: Seq<char>| u != e.uid@ ==> seq_key_of(s.push(e), u) == seq_key_of(s, u),
{
    let t = s.push(e);
    assert(entry_uids(t) =~= entry_uids(s).push(e.uid@));
    assert forall|i: int, j: int| 0 <= i < j < entry_uids(t).len() implies entry_uids(t)[i]
        != entry_uids(t)[j] by {
        if j < s.len() {
            assert(entry_uids(s)[i] == entry_uids(t)[i]);
            assert(entry_uids(s)[j] == entry_uids(t)[j]);
        } else {
            assert(entry_uids(t)[j] == e.uid@);
            assert(entry_uids(t)[i] == s[i].uid@);
        }
    }
    assert(t[s.len() as int].uid@ == e.uid@);
    lemma_seq_key_at(t, s.len() as int);
    assert forall|u: Seq<char>| u != e.uid@ implies seq_key_of(t, u) == seq_key_of(s, u) by {
        if exists|m: int| 0 <= m < s.len() && s[m].uid@ == u {
            let m = choose|m: int| 0 <= m < s.len() && s[m].uid@ == u;
            assert(t[m].uid@ == u);
            lemma_seq_key_at(s, m);
            lemma_seq_key_at(t, m);
        } else {
            if exists|m: int| 0 <= m < t.len() && t[m].uid@ == u {
                let m = choose|m: int| 0 <= m < t.len() && t[m].uid@ == u;
                assert(m != s.len());
                assert(s[m].uid@ == u);
                assert(false);
            }
        }
    }
}

/// Removing a uid's entry unbinds that uid and rebinds no other.
proof fn lemma_remove_entry(s: Seq<IndexEntry>, i: int)
    requires
        entry_uids(s).no_duplicates(),
        0 <= i < s.len(),
    ensures
        entry_uids(s.remove(i)).no_duplicates(),
        seq_key_of(s.remove(i), s[i].uid@) is None,
        forall|u: Seq<char>| u != s[i].uid@ ==> seq_key_of(s.remove(i), u) == seq_key_of(s, u),
{
    let t = s.remove(i);
    let k = s[i].uid@;
    assert(entry_uids(t) =~= entry_uids(s).remove(i));
    assert forall|a: int, b: int| 0 <= a < b < t.len() implies entry_uids(t)[a] != entry_uids(
        t,
    )[b] by {
        let sa = if a < i {
            a
        } else {
            a + 1
        };
        let sb = if b < i {
            b
        } else {
            b + 1
        };
        assert(t[a] == s[sa]);
        assert(t[b] == s[sb]);
        assert(entry_uids(s)[sa] != entry_uids(s)[sb]);
    }
    if exists|m: int| 0 <= m < t.len() && t[m].uid@ == k {
        let m = choose|m: int| 0 <= m < t.len() && t[m].uid@ == k;
        let sm = if m < i {
            m
        } else {
            m + 1
        };
        assert(t[m] == s[sm]);
        assert(entry_uids(s)[sm] == k);
        assert(entry_uids(s)[i] == k);
        if sm < i {
            assert(entry_uids(s)[sm] != entry_uids(s)[i]);
        } else {
            assert(entry_uids(s)[i] != entry_uids(s)[sm]);
        }
    }
    assert forall|u: Seq<char>| u != k implies seq_key_of(t, u) == seq_key_of(s, u) by {
        if exists|m: int| 0 <= m < s.len() && s[m].uid@ == u {
            let m = choose|m: int| 0 <= m < s.len() && s[m].uid@ == u;
            assert(m != i);
            let tm = if m < i {
                m
            } else {
                m - 1
            };
            assert(t[tm] == s[m]);
            lemma_seq_key_at(s, m);
            lemma_seq_key_at(t, tm);
        } else {
            if exists|m: int| 0 <= m < t.len() && t[m].uid@ == u {
                let m = choose|m: int| 0 <= m < t.len() && t[m].uid@ == u;
                let sm = if m < i {
                    m
                } else {
                    m + 1
                };
                assert(t[m] == s[sm]);
                assert(false);
            }
        }
    }
}

} // verus!
