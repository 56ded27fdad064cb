//! Debouncing and coalescing of raw filesystem events.
//!
//! Events arriving within the debounce window merge into one pending batch:
//! deduplicated by path, last kind wins.  When the timer fires, the batch is
//! taken whole and the window is cleared atomically, so any number of events
//! on one path within a window yields one batch entry for that path.

use vstd::prelude::*;

use crate::bytes::bytes_eq;

verus! {

/// What happened to a watched path.
#[derive(Clone, Copy, Debug, PartialEq, Eq, Structural)]
pub enum FileEventKind {
    Modify,
    Create,
    Remove,
}

/// One coalesced pending event.
#[derive(Clone, Debug)]
pub struct PendingItem {
    pub path: Vec<u8>,
    pub kind: FileEventKind,
}

/// Model of one pending event.
#[verifier::ext_equal]
pub ghost struct PendView {
    pub path: Seq<u8>,
    pub kind: FileEventKind,
}

impl View for PendingItem {
    type V = PendView;

    open spec fn view(&self) -> PendView {
        PendView { path: self.path@, kind: self.kind }
    }
}

/// The views of a pending batch.
pub open spec fn pend_view(v: Seq<PendingItem>) -> Seq<PendView> {
    v.map_values(|it: PendingItem| it@)
}

/// The first batch position holding `p`, or `-1`.
pub open spec fn pend_index(s: Seq<PendView>, p: Seq<u8>) -> int
    decreases s.len(),
{
    if s.len() == 0 {
        -1
    } else if s[0].path == p {
        0
    } else {
        let r = pend_index(s.drop_first(), p);
        if r < 0 {
            -1
        } else {
            r + 1
        }
    }
}

/// One event arriving at the window: a path already pending keeps its single
/// entry and takes the new kind; a new path joins the batch.
pub open spec fn record_spec(s: Seq<PendView>, p: Seq<u8>, k: FileEventKind) -> Seq<PendView> {
    let i = pend_index(s, p);
    if i < 0 {
        s.push(PendView { path: p, kind: k })
    } else {
        s.update(i, PendView { path: p, kind: k })
    }
}

/// [`pend_index`] is `-1` or a valid position holding `p`, with no earlier
/// position holding it.
pub proof fn lemma_pend_index_props(s: Seq<PendView>, p: Seq<u8>)
    ensures
        ({
            let i = pend_index(s, p);
            if i < 0 {
                forall|k: int| 0 <= k < s.len() ==> s[k].path != p
            } else {
                &&& 0 <= i < s.len()
                &&& s[i].path == p
                &&& forall|k: int| 0 <= k < i ==> s[k].path != p
            }
        }),
    decreases s.len(),
{
    if s.len() > 0 && s[0].path != p {
        lemma_pend_index_props(s.drop_first(), p);
        assert forall|k: int| 1 <= k < s.len() implies s[k] == s.drop_first()[k - 1] by {};
    }
}

/// A position holding `p` with no earlier one is what [`pend_index`] finds.
pub proof fn lemma_pend_index_is(s: Seq<PendView>, p: Seq<u8>, j: int)
    requires
        0 <= j < s.len(),
        s[j].path == p,
        forall|k: int| 0 <= k < j ==> s[k].path != p,
    ensures
        pend_index(s, p) == j,
    decreases j,
{
    if j > 0 {
        assert forall|k: int| 0 <= k < j - 1 implies s.drop_first()[k].path != p by {
            assert(s.drop_first()[k] == s[k + 1]);
        };
        assert(s.drop_first()[j - 1] == s[j]);
        lemma_pend_index_is(s.drop_first(), p, j - 1);
    }
}

/// The debounce window's pending batch.
#[derive(Debug)]
pub struct DebounceWindow {
    items: Vec<PendingItem>,
}

impl DebounceWindow {
    /// The coalesced batch, in first-arrival order.
    pub closed spec fn batch(self) -> Seq<PendView> {
        pend_view(self.items@)
    }

    /// Paths are unique: each path is referenced at most once per batch.
    pub open spec fn wf(self) -> bool {
        forall|i: int, j: int|
            0 <= i < j < self.batch().len() ==> self.batch()[i].path != self.batch()[j].path
    }

    /// An empty window.
    pub fn new() -> (r: DebounceWindow)
        ensures
            r.wf(),
            r.batch() == Seq::<PendView>::empty(),
    {
        let r = DebounceWindow { items: Vec::new() };
        proof {
            assert(r.batch() =~= Seq::<PendView>::empty());
        }
        r
    }

    /// How many paths are pending.
    pub fn len(&self) -> (r: usize)
        ensures
            r == self.batch().len(),
    {
        self.items.len()
    }

    /// Record one filesystem event into the window.
    pub fn record(&mut self, path: &[u8], kind: FileEventKind)
        requires
            old(self).wf(),
        ensures
            final(self).wf(),
            final(self).batch() == record_spec(old(self).batch(), path@, kind),
    {
        let ghost pre = self.items@;
        let mut i: usize = 0;
        while i < self.items.len()
            invariant
                self.items@ == pre,
                pre == old(self).items@,
                old(self).wf(),
                i <= self.items@.len(),
                forall|k: int| 0 <= k < i ==> pend_view(pre)[k].path != path@,
            decreases self.items@.len() - i,
        {
            if bytes_eq(self.items[i].path.as_slice(), path) {
                let item = PendingItem { path: crate::bytes::copy_range(path, 0, path.len()), kind };
                self.items.set(i, item);
                proof {
                    let prev = pend_view(pre);
                    let cur = self.batch();
                    assert(prev[i as int].path == path@);
                    lemma_pend_index_is(prev, path@, i as int);
                    assert(cur =~~= record_spec(prev, path@, kind));
                    assert forall|k: int| 0 <= k < cur.len() implies cur[k].path == prev[k].path by {};
                    assert forall|a: int, b: int|
                        0 <= a < b < cur.len() implies cur[a].path != cur[b].path by {
                        assert(prev[a].path != prev[b].path);
                    };
                }
                return ;
            }
            i = i + 1;
        }
        let item = PendingItem { path: crate::bytes::copy_range(path, 0, path.len()), kind };
        self.items.push(item);
        proof {
            let prev = pend_view(pre);
            let cur = self.batch();
            let n = prev.len();
            lemma_pend_index_props(prev, path@);
            if pend_index(prev, path@) >= 0 {
                assert(prev[pend_index(prev, path@)].path == path@);
            }
            assert(cur =~~= record_spec(prev, path@, kind));
            assert forall|a: int, b: int|
                0 <= a < b < cur.len() implies cur[a].path != cur[b].path by {
                if b < n {
                    assert(prev[a].path != prev[b].path);
                } else {
                    assert(cur[b].path == path@);
                    assert(cur[a].path == prev[a].path);
                }
            };
        }
    }

    /// The timer fired: take the whole batch and clear the window
    /// atomically.
    pub fn fire(&mut self) -> (r: Vec<PendingItem>)
        requires
            old(self).wf(),
        ensures
            final(self).wf(),
            pend_view(r@) == old(self).batch(),
            final(self).batch() == Seq::<PendView>::empty(),
    {
        let mut out: Vec<PendingItem> = Vec::new();
        core::mem::swap(&mut self.items, &mut out);
        proof {
            assert(self.batch() =~= Seq::<PendView>::empty());
        }
        out
    }
}

/// Debounce coalescing: a second event on the same path within the window
/// replaces the first outright, so any run of events on one path collapses
/// to its last event — the batch holds the path once, with the final kind.
pub proof fn lemma_debounce_coalesce(
    s: Seq<PendView>,
    p: Seq<u8>,
    k1: FileEventKind,
    k2: FileEventKind,
)
    ensures
        record_spec(record_spec(s, p, k1), p, k2) == record_spec(s, p, k2),
{
    let i = pend_index(s, p);
    lemma_pend_index_props(s, p);
    if i < 0 {
        let s1 = s.push(PendView { path: p, kind: k1 });
        assert forall|k: int| 0 <= k < s.len() implies s1[k].path != p by {
            assert(s1[k] == s[k]);
        };
        assert(s1[s.len() as int].path == p);
        lemma_pend_index_is(s1, p, s.len() as int);
        assert(record_spec(s1, p, k2) =~~= record_spec(s, p, k2));
    } else {
        let s1 = s.update(i, PendView { path: p, kind: k1 });
        assert forall|k: int| 0 <= k < i implies s1[k].path != p by {
            assert(s1[k] == s[k]);
        };
        assert(s1[i].path == p);
        lemma_pend_index_is(s1, p, i);
        assert(record_spec(s1, p, k2) =~~= record_spec(s, p, k2));
    }
}

} // verus!
