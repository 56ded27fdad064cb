//! Incremental marker search inside an unbounded byte stream.
//!
//! An [`IncrementalReader`] is fed the raw output of the REPL subprocess chunk
//! by chunk and hands back everything that accumulated since the previous
//! marker (prompt) occurrence, stopping as soon as some prefix of the stream
//! ends with one of the configured markers.  Already-examined positions are
//! never examined again: the reader keeps a scanned-so-far offset and only
//! looks at new tail positions, so the total search cost stays linear in the
//! bytes processed no matter how finely the stream is chunked.

use vstd::prelude::*;

verus! {

/// Where a marker counts as a match inside the stream.
///
/// A genuine prompt is guaranteed by the protocol to appear at column zero, so
/// ordinary exchanges search with `LineStart`.  The very first wait after
/// subprocess start uses `Anywhere`, because banner text precedes the first
/// prompt and no line-start guarantee exists yet.
#[derive(Clone, Copy, Debug, PartialEq, Eq, Structural)]
pub enum FindAt {
    /// The marker must immediately follow a line break or the stream start.
    LineStart,
    /// The marker may terminate the scanned prefix from any position.
    Anywhere,
}

/// One marker ends the stream prefix `buf[..end]`: the prefix's tail equals
/// the marker, and in `LineStart` mode the marker starts the stream or stands
/// right after a line feed.  An empty marker never matches.
pub open spec fn marker_matches_at(buf: Seq<u8>, marker: Seq<u8>, end: int, find: FindAt) -> bool {
    &&& 0 < marker.len() <= end <= buf.len()
    &&& buf.subrange(end - marker.len(), end) == marker
    &&& match find {
        FindAt::LineStart => end == marker.len() || buf[end - marker.len() - 1] == 10u8,
        FindAt::Anywhere => true,
    }
}

/// Some marker of the set matches at `end`.
pub open spec fn match_at(buf: Seq<u8>, markers: Seq<Seq<u8>>, end: int, find: FindAt) -> bool {
    exists|i: int| 0 <= i < markers.len() && marker_matches_at(buf, markers[i], end, find)
}

/// The least end position `>= from` where some marker matches, or `-1`.
pub open spec fn first_match_end_from(
    buf: Seq<u8>,
    markers: Seq<Seq<u8>>,
    find: FindAt,
    from: int,
) -> int
    decreases buf.len() - from + 1,
{
    if from > buf.len() {
        -1
    } else if match_at(buf, markers, from, find) {
        from
    } else {
        first_match_end_from(buf, markers, find, from + 1)
    }
}

/// The least end position where some marker matches, or `-1` when no marker
/// matches anywhere in the stream seen so far.
pub open spec fn first_match_end(buf: Seq<u8>, markers: Seq<Seq<u8>>, find: FindAt) -> int {
    first_match_end_from(buf, markers, find, 1)
}

/// The least marker index `>= from` matching at `end`, or `-1`.
pub open spec fn first_marker_at_from(
    buf: Seq<u8>,
    markers: Seq<Seq<u8>>,
    end: int,
    find: FindAt,
    from: int,
) -> int
    decreases markers.len() - from + 1,
{
    if from >= markers.len() {
        -1
    } else if marker_matches_at(buf, markers[from], end, find) {
        from
    } else {
        first_marker_at_from(buf, markers, end, find, from + 1)
    }
}

/// The first marker of the set matching at `end`, or `-1`.
pub open spec fn first_marker_at(buf: Seq<u8>, markers: Seq<Seq<u8>>, end: int, find: FindAt) -> int {
    first_marker_at_from(buf, markers, end, find, 0)
}

/// The bytes that the reader hands back when the stream seen so far contains
/// a match: everything before the first matching marker occurrence.
pub open spec fn match_content(buf: Seq<u8>, markers: Seq<Seq<u8>>, find: FindAt) -> Seq<u8> {
    let e = first_match_end(buf, markers, find);
    let i = first_marker_at(buf, markers, e, find);
    buf.subrange(0, e - markers[i].len())
}

/// The bytes left in the reader after a match: everything after the marker.
pub open spec fn match_rest(buf: Seq<u8>, markers: Seq<Seq<u8>>, find: FindAt) -> Seq<u8> {
    let e = first_match_end(buf, markers, find);
    buf.subrange(e, buf.len() as int)
}

/// The views of an executable marker set.
pub open spec fn markers_view(markers: Seq<Vec<u8>>) -> Seq<Seq<u8>> {
    markers.map_values(|m: Vec<u8>| m@)
}

/// Incremental stream reader: accumulates chunks and searches for markers
/// without rescanning.
pub struct IncrementalReader {
    /// Bytes fed but not yet consumed by a match.
    buffer: Vec<u8>,
    /// Every end position `1..=scanned` of `buffer` has been examined against
    /// `markers` and holds no match.
    scanned: usize,
    /// The marker set of the current search.
    markers: Vec<Vec<u8>>,
    /// The search discipline of the current search.
    find: FindAt,
    /// How many end positions have ever been examined.
    examined: Ghost<nat>,
    /// Scan budget: total bytes fed, plus the residue length at each point
    /// where the search was re-armed with new markers (those bytes may
    /// lawfully be examined once more).
    budget: Ghost<nat>,
}

impl IncrementalReader {
    /// The bytes fed but not yet consumed by a match.
    pub closed spec fn residue(self) -> Seq<u8> {
        self.buffer@
    }

    /// The marker set of the current search.
    pub closed spec fn search_markers(self) -> Seq<Seq<u8>> {
        markers_view(self.markers@)
    }

    /// The search discipline of the current search.
    pub closed spec fn search_find(self) -> FindAt {
        self.find
    }

    /// How many end positions the reader has ever examined: the whole search
    /// cost, up to a constant factor per position.
    pub closed spec fn work(self) -> nat {
        self.examined@
    }

    /// The scan budget: bytes fed so far, plus the residue length at each
    /// re-arming of the search.  [`lemma_scan_work_linear`] bounds the work
    /// by this budget.
    pub closed spec fn scan_budget(self) -> nat {
        self.budget@
    }

    /// Internal consistency: the scanned prefix really holds no match, and
    /// the examined-positions counter stays within budget.
    pub closed spec fn wf(self) -> bool {
        &&& self.scanned <= self.buffer@.len()
        &&& forall|e: int|
            1 <= e <= self.scanned ==> !match_at(self.buffer@, self.search_markers(), e, self.find)
        &&& self.examined@ + self.buffer@.len() <= self.budget@ + self.scanned
    }

    /// A fresh reader searching for `markers` with discipline `find`.
    pub fn new(markers: Vec<Vec<u8>>, find: FindAt) -> (r: IncrementalReader)
        ensures
            r.wf(),
            r.residue() == Seq::<u8>::empty(),
            r.search_markers() == markers_view(markers@),
            r.search_find() == find,
            r.work() == 0,
            r.scan_budget() == 0,
    {
        let r = IncrementalReader {
            buffer: Vec::new(),
            scanned: 0,
            markers,
            find,
            examined: Ghost(0),
            budget: Ghost(0),
        };
        proof {
            assert(r.buffer@ =~= Seq::<u8>::empty());
        }
        r
    }

    /// Append a freshly read chunk.  Nothing is scanned here; scanning
    /// happens in [`Self::next_match`].
    pub fn push_chunk(&mut self, chunk: &[u8])
        requires
            old(self).wf(),
        ensures
            final(self).wf(),
            final(self).residue() == old(self).residue() + chunk@,
            final(self).search_markers() == old(self).search_markers(),
            final(self).search_find() == old(self).search_find(),
            final(self).work() == old(self).work(),
            final(self).scan_budget() == old(self).scan_budget() + chunk@.len(),
    {
        let ghost old_buf = self.buffer@;
        let mut j: usize = 0;
        while j < chunk.len()
            invariant
                j <= chunk.len(),
                self.buffer@ == old_buf + chunk@.subrange(0, j as int),
                self.scanned == old(self).scanned,
                self.markers == old(self).markers,
                self.find == old(self).find,
                self.examined == old(self).examined,
                self.budget == old(self).budget,
            decreases chunk.len() - j,
        {
            let b = chunk[j];
            self.buffer.push(b);
            proof {
                assert(self.buffer@ =~= old_buf + chunk@.subrange(0, j + 1 as int));
            }
            j = j + 1;
        }
        self.budget = Ghost(self.budget@ + chunk@.len());
        proof {
            assert(chunk@.subrange(0, chunk@.len() as int) =~= chunk@);
            assert(self.buffer@ == old_buf + chunk@);
            assert forall|e: int|
                1 <= e <= self.scanned implies !match_at(
                self.buffer@,
                self.search_markers(),
                e,
                self.find,
            ) by {
                assert(self.search_markers() == old(self).search_markers());
                assert(old(self).scanned <= old_buf.len());
                assert(!match_at(old_buf, old(self).search_markers(), e, old(self).find));
                lemma_match_at_extend(old_buf, chunk@, self.search_markers(), e, self.find);
            };
        }
    }

    /// Re-arm the search with a new marker set or discipline.  The residue is
    /// kept; its positions may be examined once more, which the scan budget
    /// accounts for.
    pub fn set_search(&mut self, markers: Vec<Vec<u8>>, find: FindAt)
        requires
            old(self).wf(),
        ensures
            final(self).wf(),
            final(self).residue() == old(self).residue(),
            final(self).search_markers() == markers_view(markers@),
            final(self).search_find() == find,
            final(self).work() == old(self).work(),
            final(self).scan_budget() == old(self).scan_budget() + old(self).residue().len(),
    {
        self.markers = markers;
        self.find = find;
        self.scanned = 0;
        self.budget = Ghost(self.budget@ + self.buffer@.len());
    }

    /// Scan the not-yet-examined tail positions for the first marker match.
    ///
    /// On a match, everything before the marker is handed back, the marker is
    /// consumed, and whatever followed it stays in the reader.  Otherwise the
    /// whole residue stands scanned and the caller should feed more input (or
    /// treat end-of-stream via [`Self::take_residue`]).
    ///
    /// The result is a pure function of the residue, the markers and the
    /// discipline alone — never of how the stream was cut into chunks.
    pub fn next_match(&mut self) -> (r: Option<Vec<u8>>)
        requires
            old(self).wf(),
        ensures
            final(self).wf(),
            final(self).search_markers() == old(self).search_markers(),
            final(self).search_find() == old(self).search_find(),
            final(self).scan_budget() == old(self).scan_budget(),
            ({
                let buf = old(self).residue();
                let ms = old(self).search_markers();
                let f = old(self).search_find();
                let e = first_match_end(buf, ms, f);
                if e < 0 {
                    &&& r is None
                    &&& final(self).residue() == buf
                    &&& final(self).work() <= old(self).work() + buf.len()
                } else {
                    &&& r matches Some(content) && content@ == match_content(buf, ms, f)
                    &&& final(self).residue() == match_rest(buf, ms, f)
                    &&& final(self).work() <= old(self).work() + e
                }
            }),
    {
        let ghost buf0 = self.buffer@;
        let ghost ms = self.search_markers();
        let ghost f0 = self.find;
        let n = self.buffer.len();
        let mut pos: usize = self.scanned;
        let mut found_end: usize = 0;
        let mut found_idx: usize = 0;
        let mut have: bool = false;
        while pos < n && !have
            invariant
                self.buffer == old(self).buffer,
                self.scanned == old(self).scanned,
                self.markers == old(self).markers,
                self.find == old(self).find,
                self.budget == old(self).budget,
                old(self).wf(),
                buf0 == self.buffer@,
                ms == self.search_markers(),
                f0 == self.find,
                n == self.buffer@.len(),
                old(self).scanned <= pos <= n,
                // One increment per end position examined: the scan never
                // returns to a position it has already looked at.
                self.examined@ == old(self).examined@ + (pos - old(self).scanned) + (if have {
                    1int
                } else {
                    0int
                }),
                forall|d: int| 1 <= d <= pos ==> !match_at(buf0, ms, d, f0),
                have ==> {
                    &&& pos < n
                    &&& found_end == pos + 1
                    &&& match_at(buf0, ms, found_end as int, f0)
                    &&& 0 <= found_idx < ms.len()
                    &&& marker_matches_at(buf0, ms[found_idx as int], found_end as int, f0)
                    &&& forall|j: int|
                        0 <= j < found_idx ==> !marker_matches_at(buf0, ms[j], found_end as int, f0)
                },
            decreases n - pos + (if have { 0int } else { 1int }),
        {
            let e = pos + 1;
            self.examined = Ghost((self.examined@ + 1) as nat);
            match self.find_marker_at(e) {
                Some(i) => {
                    found_end = e;
                    found_idx = i;
                    have = true;
                }
                None => {
                    pos = e;
                }
            }
        }
        if have {
            let e = found_end;
            proof {
                lemma_first_match_end_is(buf0, ms, f0, e as int);
                lemma_first_marker_at_is(buf0, ms, e as int, f0, found_idx as int);
            }
            let mlen = self.markers[found_idx].len();
            let rest = self.buffer.split_off(e);
            self.buffer.truncate(e - mlen);
            let mut content = rest;
            core::mem::swap(&mut self.buffer, &mut content);
            self.scanned = 0;
            proof {
                assert(content@ == buf0.subrange(0, e - mlen));
                assert(self.buffer@ == buf0.subrange(e as int, buf0.len() as int));
                assert(ms[found_idx as int] == self.markers@[found_idx as int]@);
            }
            Some(content)
        } else {
            proof {
                lemma_first_match_end_is_none(buf0, ms, f0);
            }
            self.scanned = n;
            None
        }
    }

    /// Hand back whatever accumulated, for the end-of-stream case: the stream
    /// closed before any marker matched, and the partial data is still made
    /// available to the caller for diagnostics.
    pub fn take_residue(&mut self) -> (r: Vec<u8>)
        requires
            old(self).wf(),
        ensures
            final(self).wf(),
            r@ == old(self).residue(),
            final(self).residue() == Seq::<u8>::empty(),
            final(self).search_markers() == old(self).search_markers(),
            final(self).search_find() == old(self).search_find(),
            final(self).work() == old(self).work(),
            final(self).scan_budget() == old(self).scan_budget(),
    {
        let mut r: Vec<u8> = Vec::new();
        core::mem::swap(&mut self.buffer, &mut r);
        self.scanned = 0;
        proof {
            assert(self.buffer@ =~= Seq::<u8>::empty());
        }
        r
    }

    /// The bytes fed but not yet consumed by a match, for inspection.
    pub fn residue_ref(&self) -> (r: &Vec<u8>)
        ensures
            r@ == self.residue(),
    {
        &self.buffer
    }

    /// First marker index matching at end position `e`, scanning markers in
    /// the order given.
    fn find_marker_at(&self, e: usize) -> (r: Option<usize>)
        requires
            1 <= e <= self.buffer@.len(),
        ensures
            match r {
                Some(i) => {
                    &&& 0 <= i < self.search_markers().len()
                    &&& marker_matches_at(
                        self.buffer@,
                        self.search_markers()[i as int],
                        e as int,
                        self.find,
                    )
                    &&& forall|j: int|
                        0 <= j < i ==> !marker_matches_at(
                            self.buffer@,
                            self.search_markers()[j],
                            e as int,
                            self.find,
                        )
                },
                None => !match_at(self.buffer@, self.search_markers(), e as int, self.find),
            },
    {
        let ghost ms = self.search_markers();
        let mut i: usize = 0;
        while i < self.markers.len()
            invariant
                i <= self.markers@.len(),
                ms == self.search_markers(),
                forall|j: int| 0 <= j < i ==> !marker_matches_at(self.buffer@, ms[j], e as int, self.find),
                1 <= e <= self.buffer@.len(),
            decreases self.markers@.len() - i,
        {
            if self.marker_check(i, e) {
                return Some(i);
            }
            i = i + 1;
        }
        proof {
            assert(!match_at(self.buffer@, ms, e as int, self.find));
        }
        None
    }

    /// Whether marker `i` matches at end position `e`.
    fn marker_check(&self, i: usize, e: usize) -> (r: bool)
        requires
            0 <= i < self.markers@.len(),
            1 <= e <= self.buffer@.len(),
        ensures
            r == marker_matches_at(
                self.buffer@,
                self.search_markers()[i as int],
                e as int,
                self.find,
            ),
    {
        let ghost m = self.search_markers()[i as int];
        proof {
            assert(m == self.markers@[i as int]@);
        }
        let mlen = self.markers[i].len();
        if mlen == 0 || mlen > e {
            return false;
        }
        let st = e - mlen;
        let pos_ok = match self.find {
            FindAt::Anywhere => true,
            FindAt::LineStart => st == 0 || self.buffer[st - 1] == 10u8,
        };
        if !pos_ok {
            return false;
        }
        let mut j: usize = 0;
        while j < mlen
            invariant
                j <= mlen,
                mlen == m.len(),
                m == self.search_markers()[i as int],
                m == self.markers@[i as int]@,
                st == e - mlen,
                1 <= e <= self.buffer@.len(),
                0 <= i < self.markers@.len(),
                forall|k: int| 0 <= k < j ==> self.buffer@[st + k] == m[k],
            decreases mlen - j,
        {
            if self.buffer[st + j] != self.markers[i][j] {
                proof {
                    assert(self.buffer@.subrange(st as int, e as int)[j as int] == self.buffer@[st + j]);
                }
                return false;
            }
            j = j + 1;
        }
        proof {
            assert(self.buffer@.subrange(st as int, e as int) =~= m);
        }
        true
    }
}

/// Appending bytes to the stream neither creates nor destroys matches at end
/// positions inside the old prefix: a match at `e` only reads `buf[..e]`.
pub proof fn lemma_match_at_extend(
    small: Seq<u8>,
    ext: Seq<u8>,
    markers: Seq<Seq<u8>>,
    e: int,
    find: FindAt,
)
    requires
        1 <= e <= small.len(),
    ensures
        match_at(small + ext, markers, e, find) == match_at(small, markers, e, find),
{
    let big = small + ext;
    assert forall|i: int|
        0 <= i < markers.len() implies (marker_matches_at(big, markers[i], e, find)
        == marker_matches_at(small, markers[i], e, find)) by {
        let m = markers[i];
        if 0 < m.len() <= e {
            assert(big.subrange(e - m.len(), e) =~= small.subrange(e - m.len(), e));
            if e > m.len() {
                assert(big[e - m.len() - 1] == small[e - m.len() - 1]);
            }
        }
    };
    if match_at(big, markers, e, find) {
        let i = choose|i: int| 0 <= i < markers.len() && marker_matches_at(big, markers[i], e, find);
        assert(marker_matches_at(small, markers[i], e, find));
    }
    if match_at(small, markers, e, find) {
        let i = choose|i: int|
            0 <= i < markers.len() && marker_matches_at(small, markers[i], e, find);
        assert(marker_matches_at(big, markers[i], e, find));
    }
}

/// The recursive first-match scan, started at or before `e`, lands on `e`
/// when nothing earlier matches and `e` does.
proof fn lemma_first_match_end_from_is(
    buf: Seq<u8>,
    markers: Seq<Seq<u8>>,
    find: FindAt,
    from: int,
    e: int,
)
    requires
        1 <= from <= e <= buf.len(),
        match_at(buf, markers, e, find),
        forall|d: int| from <= d < e ==> !match_at(buf, markers, d, find),
    ensures
        first_match_end_from(buf, markers, find, from) == e,
    decreases e - from,
{
    if from < e {
        lemma_first_match_end_from_is(buf, markers, find, from + 1, e);
    }
}

/// Characterization of [`first_match_end`]: the least matching end position.
pub proof fn lemma_first_match_end_is(buf: Seq<u8>, markers: Seq<Seq<u8>>, find: FindAt, e: int)
    requires
        1 <= e <= buf.len(),
        match_at(buf, markers, e, find),
        forall|d: int| 1 <= d < e ==> !match_at(buf, markers, d, find),
    ensures
        first_match_end(buf, markers, find) == e,
{
    lemma_first_match_end_from_is(buf, markers, find, 1, e);
}

proof fn lemma_first_match_end_from_is_none(
    buf: Seq<u8>,
    markers: Seq<Seq<u8>>,
    find: FindAt,
    from: int,
)
    requires
        1 <= from,
        forall|d: int| from <= d <= buf.len() ==> !match_at(buf, markers, d, find),
    ensures
        first_match_end_from(buf, markers, find, from) == -1,
    decreases buf.len() - from + 1,
{
    if from <= buf.len() {
        lemma_first_match_end_from_is_none(buf, markers, find, from + 1);
    }
}

/// When no end position matches, [`first_match_end`] is `-1`.
pub proof fn lemma_first_match_end_is_none(buf: Seq<u8>, markers: Seq<Seq<u8>>, find: FindAt)
    requires
        forall|d: int| 1 <= d <= buf.len() ==> !match_at(buf, markers, d, find),
    ensures
        first_match_end(buf, markers, find) == -1,
{
    lemma_first_match_end_from_is_none(buf, markers, find, 1);
}

proof fn lemma_first_marker_at_from_is(
    buf: Seq<u8>,
    markers: Seq<Seq<u8>>,
    e: int,
    find: FindAt,
    from: int,
    i: int,
)
    requires
        0 <= from <= i < markers.len(),
        marker_matches_at(buf, markers[i], e, find),
        forall|j: int| from <= j < i ==> !marker_matches_at(buf, markers[j], e, find),
    ensures
        first_marker_at_from(buf, markers, e, find, from) == i,
    decreases i - from,
{
    if from < i {
        lemma_first_marker_at_from_is(buf, markers, e, find, from + 1, i);
    }
}

/// Characterization of [`first_marker_at`]: the first matching marker in the
/// set's order.
pub proof fn lemma_first_marker_at_is(
    buf: Seq<u8>,
    markers: Seq<Seq<u8>>,
    e: int,
    find: FindAt,
    i: int,
)
    requires
        0 <= i < markers.len(),
        marker_matches_at(buf, markers[i], e, find),
        forall|j: int| 0 <= j < i ==> !marker_matches_at(buf, markers[j], e, find),
    ensures
        first_marker_at(buf, markers, e, find) == i,
{
    lemma_first_marker_at_from_is(buf, markers, e, find, 0, i);
}

proof fn lemma_first_match_end_from_props(
    buf: Seq<u8>,
    markers: Seq<Seq<u8>>,
    find: FindAt,
    from: int,
)
    requires
        1 <= from,
    ensures
        ({
            let e = first_match_end_from(buf, markers, find, from);
            if e == -1 {
                forall|d: int| from <= d <= buf.len() ==> !match_at(buf, markers, d, find)
            } else {
                &&& from <= e <= buf.len()
                &&& match_at(buf, markers, e, find)
                &&& forall|d: int| from <= d < e ==> !match_at(buf, markers, d, find)
            }
        }),
    decreases buf.len() - from + 1,
{
    if from <= buf.len() && !match_at(buf, markers, from, find) {
        lemma_first_match_end_from_props(buf, markers, find, from + 1);
    }
}

/// What [`first_match_end`] returns: the least matching end position, or
/// `-1` when no prefix of the stream ends with a marker.
pub proof fn lemma_first_match_end_props(buf: Seq<u8>, markers: Seq<Seq<u8>>, find: FindAt)
    ensures
        ({
            let e = first_match_end(buf, markers, find);
            if e == -1 {
                forall|d: int| 1 <= d <= buf.len() ==> !match_at(buf, markers, d, find)
            } else {
                &&& 1 <= e <= buf.len()
                &&& match_at(buf, markers, e, find)
                &&& forall|d: int| 1 <= d < e ==> !match_at(buf, markers, d, find)
            }
        }),
{
    lemma_first_match_end_from_props(buf, markers, find, 1);
}

/// Incremental correctness: what a reader hands back is a pure function of
/// the concatenation of the chunks fed to it ([`IncrementalReader::next_match`]'s
/// contract speaks of the residue alone), and concatenation does not depend
/// on where the stream was cut.  So feeding a stream in arbitrarily small
/// chunks yields the same split points as feeding it whole.
pub proof fn lemma_chunk_size_independence(
    base: Seq<u8>,
    a: Seq<u8>,
    b: Seq<u8>,
    markers: Seq<Seq<u8>>,
    find: FindAt,
)
    ensures
        (base + a) + b == base + (a + b),
        first_match_end((base + a) + b, markers, find) == first_match_end(
            base + (a + b),
            markers,
            find,
        ),
{
    assert((base + a) + b =~= base + (a + b));
}

/// No rescanning: the number of end positions a reader has ever examined
/// never exceeds its scan budget — the total bytes fed, plus the residue
/// length at each re-arming of the search.  With a fixed search this is
/// exactly the bytes fed: the search cost is linear in the stream length
/// (times the constant marker-set cost per position), independent of how
/// finely the stream was chunked.
pub proof fn lemma_scan_work_linear(r: IncrementalReader)
    requires
        r.wf(),
    ensures
        r.work() <= r.scan_budget(),
{
}

} // verus!
