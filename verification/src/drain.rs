//! One drain cycle: reading subprocess output up to the next prompt.
//!
//! A [`DrainCycle`] owns an [`IncrementalReader`] splitting the output into
//! lines, feeds every complete line to the streaming diagnostic classifier,
//! and finishes when the unterminated tail of the stream is the prompt (at
//! line start for ordinary exchanges, anywhere for the very first wait after
//! subprocess start, where banner text precedes the prompt).  A
//! [`QueryDrain`] is the same machine collecting raw lines instead, for the
//! specialized query responses.

use vstd::prelude::*;

use crate::bytes::bytes_eq;
use crate::bytes::copy_range;
use crate::bytes::ends_with;
use crate::bytes::find_byte;
use crate::bytes::lemma_find_byte_is;
use crate::bytes::lemma_find_byte_none;
use crate::diagnostics::log_empty;
use crate::diagnostics::log_step;
use crate::diagnostics::CompilationLog;
use crate::diagnostics::LogModel;
use crate::reader::first_match_end;
use crate::reader::lemma_first_marker_at_is;
use crate::reader::lemma_first_match_end_props;
use crate::reader::marker_matches_at;
use crate::reader::match_at;
use crate::reader::match_content;
use crate::reader::match_rest;
use crate::reader::FindAt;
use crate::reader::IncrementalReader;

verus! {

/// The single-newline marker set that splits a stream into lines.
pub open spec fn newline_markers() -> Seq<Seq<u8>> {
    seq![seq![10u8]]
}

/// A prefix of the stream ends with the newline marker exactly when its last
/// byte is a line feed.
pub proof fn lemma_newline_match_at(res: Seq<u8>, e: int)
    ensures
        match_at(res, newline_markers(), e, FindAt::Anywhere) <==> (1 <= e <= res.len() && res[e
            - 1] == 10),
{
    let ms = newline_markers();
    if 1 <= e <= res.len() && res[e - 1] == 10 {
        assert(res.subrange(e - 1, e) =~= seq![10u8]);
        assert(marker_matches_at(res, ms[0], e, FindAt::Anywhere));
    }
    if match_at(res, ms, e, FindAt::Anywhere) {
        let i = choose|i: int|
            0 <= i < ms.len() && marker_matches_at(res, ms[i], e, FindAt::Anywhere);
        assert(res.subrange(e - 1, e)[0] == res[e - 1]);
    }
}

/// Splitting off the first line: the reader's first newline match hands back
/// the bytes before the first line feed and keeps the bytes after it.
pub proof fn lemma_newline_first_match(res: Seq<u8>)
    ensures
        ({
            let e = first_match_end(res, newline_markers(), FindAt::Anywhere);
            let j = find_byte(res, 10, 0);
            &&& (e == -1 || e >= 1)
            &&& (e == -1 ==> j == -1)
            &&& (e >= 0 ==> {
                &&& j == e - 1
                &&& 0 <= j < res.len()
                &&& match_content(res, newline_markers(), FindAt::Anywhere) == res.subrange(0, j)
                &&& match_rest(res, newline_markers(), FindAt::Anywhere) == res.subrange(
                    j + 1,
                    res.len() as int,
                )
            })
        }),
{
    let ms = newline_markers();
    lemma_first_match_end_props(res, ms, FindAt::Anywhere);
    let e = first_match_end(res, ms, FindAt::Anywhere);
    if e == -1 {
        assert forall|k: int| 0 <= k < res.len() implies res[k] != 10 by {
            lemma_newline_match_at(res, k + 1);
        };
        lemma_find_byte_none(res, 10, 0);
    } else {
        lemma_newline_match_at(res, e);
        assert forall|k: int| 0 <= k < e - 1 implies res[k] != 10 by {
            lemma_newline_match_at(res, k + 1);
        };
        lemma_find_byte_is(res, 10, 0, e - 1);
        assert(marker_matches_at(res, ms[0], e, FindAt::Anywhere));
        lemma_first_marker_at_is(res, ms, e, FindAt::Anywhere, 0);
        assert(ms[0].len() == 1);
    }
}

/// Classify every complete line of `s` into the log; the trailing bytes
/// after the last line feed stay pending.
pub open spec fn process_stream(lm: LogModel, s: Seq<u8>) -> (LogModel, Seq<u8>)
    decreases s.len(),
{
    let j = find_byte(s, 10, 0);
    if j < 0 || j >= s.len() {
        (lm, s)
    } else {
        process_stream(log_step(lm, s.subrange(0, j)), s.subrange(j + 1, s.len() as int))
    }
}

/// Collect every complete line of `s`; the trailing bytes stay pending.
pub open spec fn collect_stream(acc: Seq<Seq<u8>>, s: Seq<u8>) -> (Seq<Seq<u8>>, Seq<u8>)
    decreases s.len(),
{
    let j = find_byte(s, 10, 0);
    if j < 0 || j >= s.len() {
        (acc, s)
    } else {
        collect_stream(acc.push(s.subrange(0, j)), s.subrange(j + 1, s.len() as int))
    }
}

/// Mathematical model of a [`DrainCycle`].
#[verifier::ext_equal]
pub ghost struct DrainModel {
    /// The log accumulated so far.
    pub logm: LogModel,
    /// The unterminated tail of the stream.
    pub pending: Seq<u8>,
    /// Whether the terminating prompt was seen.
    pub done: bool,
}

/// After the lines of a chunk are classified, test the unterminated tail for
/// the prompt.  At line start the tail must be exactly the prompt; anywhere,
/// the tail must end with it, and whatever preceded it on the line is handed
/// to the classifier as a final unterminated line.
pub open spec fn drain_prompt_check(st: DrainModel, prompt: Seq<u8>, find: FindAt) -> DrainModel {
    if st.done {
        st
    } else {
        match find {
            FindAt::LineStart => if prompt.len() > 0 && st.pending == prompt {
                DrainModel { logm: st.logm, pending: Seq::empty(), done: true }
            } else {
                st
            },
            FindAt::Anywhere => if prompt.len() > 0 && prompt.is_suffix_of(st.pending) {
                let pre = st.pending.subrange(0, st.pending.len() - prompt.len());
                let lm = if pre.len() > 0 {
                    log_step(st.logm, pre)
                } else {
                    st.logm
                };
                DrainModel { logm: lm, pending: Seq::empty(), done: true }
            } else {
                st
            },
        }
    }
}

/// One chunk of subprocess output arriving at the drain.
pub open spec fn drain_feed(st: DrainModel, prompt: Seq<u8>, find: FindAt, chunk: Seq<u8>) -> DrainModel {
    if st.done {
        st
    } else {
        let r = process_stream(st.logm, st.pending + chunk);
        drain_prompt_check(DrainModel { logm: r.0, pending: r.1, done: false }, prompt, find)
    }
}

/// One write-command-then-read-until-prompt exchange, output side: drains
/// subprocess output up to the next prompt, classifying diagnostics while
/// the output streams.
pub struct DrainCycle {
    lines: IncrementalReader,
    log: CompilationLog,
    prompt: Vec<u8>,
    find: FindAt,
    done: bool,
}

impl DrainCycle {
    /// The drain's abstract state.
    pub closed spec fn model(self) -> DrainModel {
        DrainModel { logm: self.log@, pending: self.lines.residue(), done: self.done }
    }

    /// The prompt this drain is waiting for.
    pub closed spec fn prompt_view(self) -> Seq<u8> {
        self.prompt@
    }

    /// Where the prompt counts as a match.
    pub closed spec fn find_mode(self) -> FindAt {
        self.find
    }

    /// Internal consistency of the line splitter.
    pub closed spec fn wf(self) -> bool {
        &&& self.lines.wf()
        &&& self.lines.search_markers() == newline_markers()
        &&& self.lines.search_find() == FindAt::Anywhere
    }

    /// A fresh drain cycle waiting for `prompt` with discipline `find`.
    pub fn new(prompt: Vec<u8>, find: FindAt) -> (r: DrainCycle)
        ensures
            r.wf(),
            r.model() == (DrainModel { logm: log_empty(), pending: Seq::<u8>::empty(), done: false }),
            r.prompt_view() == prompt@,
            r.find_mode() == find,
    {
        let markers: Vec<Vec<u8>> = vec![vec![10u8]];
        proof {
            assert(markers@.map_values(|m: Vec<u8>| m@) =~~= newline_markers());
        }
        let r = DrainCycle {
            lines: IncrementalReader::new(markers, FindAt::Anywhere),
            log: CompilationLog::new(),
            prompt,
            find,
            done: false,
        };
        proof {
            assert(r.model() =~~= (DrainModel {
                logm: log_empty(),
                pending: Seq::<u8>::empty(),
                done: false,
            }));
        }
        r
    }

    /// Whether the terminating prompt has been seen.
    pub fn is_done(&self) -> (r: bool)
        ensures
            r == self.model().done,
    {
        self.done
    }

    /// Feed one chunk of subprocess output; returns whether the terminating
    /// prompt was reached.
    pub fn feed_chunk(&mut self, chunk: &[u8]) -> (done: bool)
        requires
            old(self).wf(),
        ensures
            final(self).wf(),
            final(self).prompt_view() == old(self).prompt_view(),
            final(self).find_mode() == old(self).find_mode(),
            final(self).model() == drain_feed(
                old(self).model(),
                old(self).prompt_view(),
                old(self).find_mode(),
                chunk@,
            ),
            done == final(self).model().done,
    {
        if self.done {
            return true;
        }
        let ghost lm0 = self.log@;
        let ghost r0 = self.lines.residue() + chunk@;
        self.lines.push_chunk(chunk);
        let mut scanning: bool = true;
        while scanning
            invariant
                self.lines.wf(),
                self.lines.search_markers() == newline_markers(),
                self.lines.search_find() == FindAt::Anywhere,
                self.prompt == old(self).prompt,
                self.find == old(self).find,
                self.done == false,
                process_stream(lm0, r0) == process_stream(self.log@, self.lines.residue()),
                !scanning ==> find_byte(self.lines.residue(), 10, 0) == -1,
            decreases self.lines.residue().len() + (if scanning {
                1int
            } else {
                0int
            }),
        {
            let ghost lm_pre = self.log@;
            let ghost res_pre = self.lines.residue();
            match self.lines.next_match() {
                Some(line) => {
                    proof {
                        lemma_newline_first_match(res_pre);
                    }
                    self.log.process_line(line.as_slice());
                }
                None => {
                    proof {
                        lemma_newline_first_match(res_pre);
                    }
                    scanning = false;
                }
            }
        }
        let plen = self.prompt.len();
        let mut matched: bool = false;
        let mut pre_line: Option<Vec<u8>> = None;
        match self.find {
            FindAt::LineStart => {
                let pend = self.lines.residue_ref();
                matched = plen > 0 && bytes_eq(pend.as_slice(), self.prompt.as_slice());
            }
            FindAt::Anywhere => {
                let pend = self.lines.residue_ref();
                if plen > 0 && ends_with(pend.as_slice(), self.prompt.as_slice()) {
                    matched = true;
                    pre_line = Some(copy_range(pend.as_slice(), 0, pend.len() - plen));
                }
            }
        }
        if matched {
            match pre_line {
                Some(pre) => {
                    if pre.len() > 0 {
                        self.log.process_line(pre.as_slice());
                    }
                }
                None => {}
            }
            let _consumed = self.lines.take_residue();
            self.done = true;
        }
        proof {
            assert(final(self).model() =~~= drain_feed(
                old(self).model(),
                old(self).prompt_view(),
                old(self).find_mode(),
                chunk@,
            ));
        }
        self.done
    }

    /// Hand the finalized log to the caller once the prompt was reached.
    pub fn finish(self) -> (r: CompilationLog)
        ensures
            r@ == self.model().logm,
    {
        self.log
    }

    /// The stream closed before the prompt: hand back the partial log and
    /// the unterminated tail, for diagnostics.
    pub fn stream_ended(self) -> (r: (CompilationLog, Vec<u8>))
        requires
            self.wf(),
        ensures
            r.0@ == self.model().logm,
            r.1@ == self.model().pending,
    {
        let DrainCycle { lines, log, prompt: _, find: _, done: _ } = self;
        let mut lines = lines;
        let pend = lines.take_residue();
        (log, pend)
    }
}

/// Mathematical model of a [`QueryDrain`].
#[verifier::ext_equal]
pub ghost struct QueryModel {
    /// Complete response lines collected so far.
    pub lines: Seq<Seq<u8>>,
    /// The unterminated tail of the stream.
    pub pending: Seq<u8>,
    /// Whether the terminating prompt was seen.
    pub done: bool,
}

/// Prompt test for a query drain: the response ends when the unterminated
/// tail is exactly the prompt at line start.
pub open spec fn query_prompt_check(st: QueryModel, prompt: Seq<u8>) -> QueryModel {
    if !st.done && prompt.len() > 0 && st.pending == prompt {
        QueryModel { lines: st.lines, pending: Seq::empty(), done: true }
    } else {
        st
    }
}

/// One chunk of subprocess output arriving at a query drain.
pub open spec fn query_feed(st: QueryModel, prompt: Seq<u8>, chunk: Seq<u8>) -> QueryModel {
    if st.done {
        st
    } else {
        let r = collect_stream(st.lines, st.pending + chunk);
        query_prompt_check(QueryModel { lines: r.0, pending: r.1, done: false }, prompt)
    }
}

/// A drain cycle that collects raw response lines instead of classifying
/// them, for the specialized single-shot queries (`show paths`,
/// `show targets`, `show modules`).  Queries always run after
/// initialization, so the prompt is expected at line start.
pub struct QueryDrain {
    lines: IncrementalReader,
    collected: Vec<Vec<u8>>,
    prompt: Vec<u8>,
    done: bool,
}

impl QueryDrain {
    /// The drain's abstract state.
    pub closed spec fn model(self) -> QueryModel {
        QueryModel {
            lines: self.collected@.map_values(|l: Vec<u8>| l@),
            pending: self.lines.residue(),
            done: self.done,
        }
    }

    /// The prompt this drain is waiting for.
    pub closed spec fn prompt_view(self) -> Seq<u8> {
        self.prompt@
    }

    /// Internal consistency of the line splitter.
    pub closed spec fn wf(self) -> bool {
        &&& self.lines.wf()
        &&& self.lines.search_markers() == newline_markers()
        &&& self.lines.search_find() == FindAt::Anywhere
    }

    /// A fresh query drain waiting for `prompt`.
    pub fn new(prompt: Vec<u8>) -> (r: QueryDrain)
        ensures
            r.wf(),
            r.model() == (QueryModel {
                lines: Seq::<Seq<u8>>::empty(),
                pending: Seq::<u8>::empty(),
                done: false,
            }),
            r.prompt_view() == prompt@,
    {
        let markers: Vec<Vec<u8>> = vec![vec![10u8]];
        proof {
            assert(markers@.map_values(|m: Vec<u8>| m@) =~~= newline_markers());
        }
        let r = QueryDrain {
            lines: IncrementalReader::new(markers, FindAt::Anywhere),
            collected: Vec::new(),
            prompt,
            done: false,
        };
        proof {
            assert(r.model() =~~= (QueryModel {
                lines: Seq::<Seq<u8>>::empty(),
                pending: Seq::<u8>::empty(),
                done: false,
            }));
        }
        r
    }

    /// Feed one chunk of subprocess output; returns whether the terminating
    /// prompt was reached.
    pub fn feed_chunk(&mut self, chunk: &[u8]) -> (done: bool)
        requires
            old(self).wf(),
        ensures
            final(self).wf(),
            final(self).prompt_view() == old(self).prompt_view(),
            final(self).model() == query_feed(old(self).model(), old(self).prompt_view(), chunk@),
            done == final(self).model().done,
    {
        if self.done {
            return true;
        }
        let ghost acc0 = self.collected@.map_values(|l: Vec<u8>| l@);
        let ghost r0 = self.lines.residue() + chunk@;
        self.lines.push_chunk(chunk);
        let mut scanning: bool = true;
        while scanning
            invariant
                self.lines.wf(),
                self.lines.search_markers() == newline_markers(),
                self.lines.search_find() == FindAt::Anywhere,
                self.prompt == old(self).prompt,
                self.done == false,
                collect_stream(acc0, r0) == collect_stream(
                    self.collected@.map_values(|l: Vec<u8>| l@),
                    self.lines.residue(),
                ),
                !scanning ==> find_byte(self.lines.residue(), 10, 0) == -1,
            decreases self.lines.residue().len() + (if scanning {
                1int
            } else {
                0int
            }),
        {
            let ghost res_pre = self.lines.residue();
            let ghost coll_pre = self.collected@;
            match self.lines.next_match() {
                Some(line) => {
                    proof {
                        lemma_newline_first_match(res_pre);
                    }
                    self.collected.push(line);
                    proof {
                        assert(self.collected@.map_values(|l: Vec<u8>| l@) =~~= coll_pre.map_values(
                            |l: Vec<u8>| l@,
                        ).push(res_pre.subrange(0, find_byte(res_pre, 10, 0))));
                    }
                }
                None => {
                    proof {
                        lemma_newline_first_match(res_pre);
                    }
                    scanning = false;
                }
            }
        }
        let plen = self.prompt.len();
        let mut matched: bool = false;
        {
            let pend = self.lines.residue_ref();
            matched = plen > 0 && bytes_eq(pend.as_slice(), self.prompt.as_slice());
        }
        if matched {
            let _consumed = self.lines.take_residue();
            self.done = true;
        }
        proof {
            assert(final(self).model() =~~= query_feed(
                old(self).model(),
                old(self).prompt_view(),
                chunk@,
            ));
        }
        self.done
    }

    /// Hand the collected response lines to the caller.
    pub fn finish(self) -> (r: Vec<Vec<u8>>)
        ensures
            r@.map_values(|l: Vec<u8>| l@) == self.model().lines,
    {
        self.collected
    }
}

} // verus!
