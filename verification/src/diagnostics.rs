//! Streaming classification of compiler output into structured diagnostics.
//!
//! Each output line (after ANSI stripping, see [`crate::ansi`]) is classified
//! in priority order: a line matching the compiler's message-start grammar
//! `file:line:col(-col)?: (error|warning|note):` opens a new diagnostic and
//! becomes its first context line; a line whose first non-blank byte is a
//! pipe or caret is appended to the open diagnostic's context; a progress
//! line `[k of n] Compiling …` updates the module counters; a blank line
//! terminates the open context; any other line is appended to the open
//! diagnostic's context, or discarded from structured output when none is
//! open.

use vstd::prelude::*;

use crate::ansi::strip_ansi;
use crate::ansi::strip_ansi_spec;
use crate::bytes::bytes_eq;
use crate::bytes::copy_range;
use crate::bytes::find_byte;
use crate::bytes::find_byte_from;
use crate::bytes::find_byte_in;
use crate::bytes::lemma_find_byte_is;
use crate::bytes::lemma_find_byte_none;
use crate::bytes::lemma_find_byte_props;
use crate::bytes::parse_number;
use crate::bytes::parse_number_range;

verus! {

/// Severity of one compiler diagnostic.
#[derive(Clone, Copy, Debug, PartialEq, Eq, Structural)]
pub enum Severity {
    Error,
    Warning,
    Note,
}

/// Whether a compile cycle succeeded: `Passed` when no error-severity
/// diagnostic was recorded during the cycle, else `Failed`.
#[derive(Clone, Copy, Debug, PartialEq, Eq, Structural)]
pub enum Verdict {
    Passed,
    Failed,
}

/// One structured diagnostic.
#[derive(Clone, Debug)]
pub struct Diagnostic {
    pub severity: Severity,
    /// Source file named by the message-start line.
    pub file: Vec<u8>,
    /// Line number named by the message-start line.
    pub line: usize,
    /// Column (or start of the column range).
    pub column: usize,
    /// End of the column range, when one was given.
    pub column_end: Option<usize>,
    /// What followed the severity keyword on the message-start line.
    pub message: Vec<u8>,
    /// All lines of the diagnostic, message-start line first, de-colored.
    pub context_lines: Vec<Vec<u8>>,
}

/// Mathematical model of a [`Diagnostic`].
#[verifier::ext_equal]
pub ghost struct DiagModel {
    pub severity: Severity,
    pub file: Seq<u8>,
    pub line: nat,
    pub column: nat,
    pub column_end: Option<nat>,
    pub message: Seq<u8>,
    pub context: Seq<Seq<u8>>,
}

impl View for Diagnostic {
    type V = DiagModel;

    open spec fn view(&self) -> DiagModel {
        DiagModel {
            severity: self.severity,
            file: self.file@,
            line: self.line as nat,
            column: self.column as nat,
            column_end: match self.column_end {
                Some(x) => Some(x as nat),
                None => None,
            },
            message: self.message@,
            context: self.context_lines@.map_values(|l: Vec<u8>| l@),
        }
    }
}

/// Mathematical model of a [`CompilationLog`].
#[verifier::ext_equal]
pub ghost struct LogModel {
    /// Diagnostics recorded so far, in order of their message-start lines.
    pub diags: Seq<DiagModel>,
    /// Whether the last diagnostic still accepts context lines.
    pub open: bool,
    /// The module compile counters from the last progress line.
    pub progress: Option<(nat, nat)>,
}

/// The model of a freshly created log.
pub open spec fn log_empty() -> LogModel {
    LogModel { diags: Seq::empty(), open: false, progress: None }
}

/// Accumulator for one drain cycle: created fresh per command cycle,
/// finalized when the terminating prompt is detected, never reused.
#[derive(Debug)]
pub struct CompilationLog {
    pub diagnostics: Vec<Diagnostic>,
    pub open: bool,
    pub progress: Option<(usize, usize)>,
}

impl View for CompilationLog {
    type V = LogModel;

    open spec fn view(&self) -> LogModel {
        LogModel {
            diags: self.diagnostics@.map_values(|d: Diagnostic| d@),
            open: self.open,
            progress: match self.progress {
                Some((k, n)) => Some((k as nat, n as nat)),
                None => None,
            },
        }
    }
}

/// Result of parsing a message-start line.
#[verifier::ext_equal]
pub ghost struct MsgStart {
    pub severity: Severity,
    pub file: Seq<u8>,
    pub line: nat,
    pub column: nat,
    pub column_end: Option<nat>,
    pub message: Seq<u8>,
}

/// The severity keyword of the message-start grammar: `error`, `warning` or
/// `note`.
pub open spec fn severity_of_word(w: Seq<u8>) -> Option<Severity> {
    if w == seq![101u8, 114u8, 114u8, 111u8, 114u8] {
        Some(Severity::Error)
    } else if w == seq![119u8, 97u8, 114u8, 110u8, 105u8, 110u8, 103u8] {
        Some(Severity::Warning)
    } else if w == seq![110u8, 111u8, 116u8, 101u8] {
        Some(Severity::Note)
    } else {
        None
    }
}

/// The message-start grammar `file:line:col(-col)?: (error|warning|note):`,
/// parsed off a de-colored line: the file is everything before the first
/// colon (nonempty), then a line number, then a column or column range, then
/// a single space, the severity keyword, a colon, and the message.
pub open spec fn msg_start_spec(s: Seq<u8>) -> Option<MsgStart> {
    let c1 = find_byte(s, 58, 0);
    if c1 <= 0 {
        None
    } else {
        let c2 = find_byte(s, 58, c1 + 1);
        if c2 < 0 {
            None
        } else {
            match parse_number(s.subrange(c1 + 1, c2)) {
                None => None,
                Some(ln) => {
                    let c3 = find_byte(s, 58, c2 + 1);
                    if c3 < 0 {
                        None
                    } else {
                        let colpart = s.subrange(c2 + 1, c3);
                        let dash = find_byte(colpart, 45, 0);
                        let colseq = if dash < 0 {
                            colpart
                        } else {
                            colpart.subrange(0, dash)
                        };
                        match parse_number(colseq) {
                            None => None,
                            Some(col) => {
                                let ce = if dash < 0 {
                                    Some(None)
                                } else {
                                    match parse_number(
                                        colpart.subrange(dash + 1, colpart.len() as int),
                                    ) {
                                        None => None,
                                        Some(x) => Some(Some(x)),
                                    }
                                };
                                match ce {
                                    None => None,
                                    Some(column_end) => {
                                        if c3 + 1 >= s.len() || s[c3 + 1] != 32 {
                                            None
                                        } else {
                                            let c4 = find_byte(s, 58, c3 + 2);
                                            if c4 < 0 {
                                                None
                                            } else {
                                                match severity_of_word(s.subrange(c3 + 2, c4)) {
                                                    None => None,
                                                    Some(sev) => Some(
                                                        MsgStart {
                                                            severity: sev,
                                                            file: s.subrange(0, c1),
                                                            line: ln,
                                                            column: col,
                                                            column_end,
                                                            message: s.subrange(
                                                                c4 + 1,
                                                                s.len() as int,
                                                            ),
                                                        },
                                                    ),
                                                }
                                            }
                                        }
                                    }
                                }
                            }
                        }
                    }
                }
            }
        }
    }
}

/// First index of `s` holding neither space nor tab (or the length).
pub open spec fn skip_ws(s: Seq<u8>, i: int) -> int
    decreases s.len() - i + 1,
{
    if i < 0 || i >= s.len() {
        s.len() as int
    } else if s[i] == 32 || s[i] == 9 {
        skip_ws(s, i + 1)
    } else {
        i
    }
}

/// A line whose first non-blank byte is a pipe or caret: part of the code
/// excerpt under the open diagnostic.
pub open spec fn is_context_start(s: Seq<u8>) -> bool {
    let j = skip_ws(s, 0);
    j < s.len() && (s[j] == 124 || s[j] == 94)
}

/// A line of only spaces and tabs (or nothing at all).
pub open spec fn is_blank(s: Seq<u8>) -> bool {
    skip_ws(s, 0) == s.len()
}

/// The keyword `Compiling` of the progress grammar.
pub open spec fn compiling_tag() -> Seq<u8> {
    seq![67u8, 111u8, 109u8, 112u8, 105u8, 108u8, 105u8, 110u8, 103u8]
}

/// The progress grammar `[k of n] Compiling …`.
pub open spec fn progress_spec(s: Seq<u8>) -> Option<(nat, nat)> {
    if s.len() == 0 || s[0] != 91 {
        None
    } else {
        let sp = find_byte(s, 32, 1);
        if sp < 0 {
            None
        } else {
            match parse_number(s.subrange(1, sp)) {
                None => None,
                Some(k) => {
                    if sp + 4 > s.len() || s[sp + 1] != 111 || s[sp + 2] != 102 || s[sp + 3]
                        != 32 {
                        None
                    } else {
                        let br = find_byte(s, 93, sp + 4);
                        if br < 0 {
                            None
                        } else {
                            match parse_number(s.subrange(sp + 4, br)) {
                                None => None,
                                Some(n) => {
                                    if br + 11 > s.len() || s[br + 1] != 32 {
                                        None
                                    } else if s.subrange(br + 2, br + 11) == compiling_tag() {
                                        Some((k, n))
                                    } else {
                                        None
                                    }
                                }
                            }
                        }
                    }
                }
            }
        }
    }
}

/// One step of the streaming classifier, on the raw bytes of one line.
pub open spec fn log_step(m: LogModel, raw: Seq<u8>) -> LogModel {
    let s = strip_ansi_spec(raw);
    match msg_start_spec(s) {
        Some(ms) => LogModel {
            diags: m.diags.push(
                DiagModel {
                    severity: ms.severity,
                    file: ms.file,
                    line: ms.line,
                    column: ms.column,
                    column_end: ms.column_end,
                    message: ms.message,
                    context: seq![s],
                },
            ),
            open: true,
            progress: m.progress,
        },
        None => if is_context_start(s) {
            log_append_context(m, s)
        } else {
            match progress_spec(s) {
                Some(kn) => LogModel { diags: m.diags, open: m.open, progress: Some(kn) },
                None => if is_blank(s) {
                    LogModel { diags: m.diags, open: false, progress: m.progress }
                } else {
                    log_append_context(m, s)
                },
            }
        },
    }
}

/// Append `s` to the open diagnostic's context, or drop it when none is open.
pub open spec fn log_append_context(m: LogModel, s: Seq<u8>) -> LogModel {
    if m.open && m.diags.len() > 0 {
        let last = m.diags[m.diags.len() - 1];
        LogModel {
            diags: m.diags.update(
                m.diags.len() - 1,
                DiagModel { context: last.context.push(s), ..last },
            ),
            open: m.open,
            progress: m.progress,
        }
    } else {
        m
    }
}

/// How many diagnostics of severity `sev` were recorded.
pub open spec fn count_sev(diags: Seq<DiagModel>, sev: Severity) -> nat
    decreases diags.len(),
{
    if diags.len() == 0 {
        0
    } else {
        count_sev(diags.drop_last(), sev) + if diags.last().severity == sev {
            1nat
        } else {
            0nat
        }
    }
}

/// The verdict of a cycle: `Failed` exactly when an error was recorded.
pub open spec fn verdict_of(m: LogModel) -> Verdict {
    if count_sev(m.diags, Severity::Error) == 0 {
        Verdict::Passed
    } else {
        Verdict::Failed
    }
}

/// Parse one line against the message-start grammar.
pub fn parse_msg_start(s: &[u8]) -> (r: Option<Diagnostic>)
    ensures
        match r {
            Some(d) => {
                &&& msg_start_spec(s@) matches Some(ms)
                &&& d@.severity == ms.severity
                &&& d@.file == ms.file
                &&& d@.line == ms.line
                &&& d@.column == ms.column
                &&& d@.column_end == ms.column_end
                &&& d@.message == ms.message
                &&& d@.context == seq![s@]
            },
            None => msg_start_spec(s@) is None,
        },
{
    let n = s.len();
    let c1 = match find_byte_from(s, 58, 0) {
        Some(i) => i,
        None => {
            return None;
        }
    };
    proof {
        lemma_find_byte_props(s@, 58, 0);
    }
    if c1 == 0 {
        return None;
    }
    let c2 = match find_byte_from(s, 58, c1 + 1) {
        Some(i) => i,
        None => {
            return None;
        }
    };
    proof {
        lemma_find_byte_props(s@, 58, c1 + 1);
    }
    let ln = match parse_number_range(s, c1 + 1, c2) {
        Some(x) => x,
        None => {
            return None;
        }
    };
    let c3 = match find_byte_from(s, 58, c2 + 1) {
        Some(i) => i,
        None => {
            return None;
        }
    };
    proof {
        lemma_find_byte_props(s@, 58, c2 + 1);
    }
    let ghost colpart = s@.subrange(c2 + 1, c3 as int);
    let dash = find_byte_in(s, 45, c2 + 1, c3);
    proof {
        match dash {
            Some(d) => {
                assert(colpart[d - (c2 + 1)] == s@[d as int]);
                lemma_find_byte_is(colpart, 45, 0, d - (c2 + 1));
            }
            None => {
                lemma_find_byte_none(colpart, 45, 0);
            }
        }
    }
    let (col, ce): (usize, Option<usize>) = match dash {
        Some(d) => {
            let c = match parse_number_range(s, c2 + 1, d) {
                Some(x) => x,
                None => {
                    proof {
                        assert(colpart.subrange(0, d - (c2 + 1)) =~= s@.subrange(
                            c2 + 1,
                            d as int,
                        ));
                    }
                    return None;
                }
            };
            let e = match parse_number_range(s, d + 1, c3) {
                Some(x) => x,
                None => {
                    proof {
                        assert(colpart.subrange(0, d - (c2 + 1)) =~= s@.subrange(
                            c2 + 1,
                            d as int,
                        ));
                        assert(colpart.subrange(d - (c2 + 1) + 1, colpart.len() as int)
                            =~= s@.subrange(d + 1, c3 as int));
                    }
                    return None;
                }
            };
            proof {
                assert(colpart.subrange(0, d - (c2 + 1)) =~= s@.subrange(c2 + 1, d as int));
                assert(colpart.subrange(d - (c2 + 1) + 1, colpart.len() as int) =~= s@.subrange(
                    d + 1,
                    c3 as int,
                ));
            }
            (c, Some(e))
        }
        None => {
            let c = match parse_number_range(s, c2 + 1, c3) {
                Some(x) => x,
                None => {
                    return None;
                }
            };
            (c, None)
        }
    };
    if c3 + 1 >= s.len() {
        return None;
    }
    if s[c3 + 1] != 32 {
        return None;
    }
    let c4 = match find_byte_from(s, 58, c3 + 2) {
        Some(i) => i,
        None => {
            return None;
        }
    };
    proof {
        lemma_find_byte_props(s@, 58, c3 + 2);
    }
    let word = copy_range(s, c3 + 2, c4);
    let tag_error: Vec<u8> = vec![101u8, 114u8, 114u8, 111u8, 114u8];
    let tag_warning: Vec<u8> = vec![119u8, 97u8, 114u8, 110u8, 105u8, 110u8, 103u8];
    let tag_note: Vec<u8> = vec![110u8, 111u8, 116u8, 101u8];
    proof {
        assert(tag_error@ =~= seq![101u8, 114u8, 114u8, 111u8, 114u8]);
        assert(tag_warning@ =~= seq![119u8, 97u8, 114u8, 110u8, 105u8, 110u8, 103u8]);
        assert(tag_note@ =~= seq![110u8, 111u8, 116u8, 101u8]);
    }
    let severity = if bytes_eq(word.as_slice(), tag_error.as_slice()) {
        Severity::Error
    } else if bytes_eq(word.as_slice(), tag_warning.as_slice()) {
        Severity::Warning
    } else if bytes_eq(word.as_slice(), tag_note.as_slice()) {
        Severity::Note
    } else {
        return None;
    };
    let file = copy_range(s, 0, c1);
    let message = copy_range(s, c4 + 1, s.len());
    let context_line = copy_range(s, 0, s.len());
    proof {
        assert(context_line@ =~= s@);
    }
    let d = Diagnostic {
        severity,
        file,
        line: ln,
        column: col,
        column_end: ce,
        message,
        context_lines: vec![context_line],
    };
    proof {
        assert(d.context_lines@.map_values(|l: Vec<u8>| l@) =~= seq![s@]);
    }
    Some(d)
}

/// First non-blank position of a line.
pub fn first_non_ws(s: &[u8]) -> (r: usize)
    ensures
        r == skip_ws(s@, 0),
        r <= s@.len(),
{
    let mut i: usize = 0;
    while i < s.len()
        invariant
            i <= s@.len(),
            skip_ws(s@, 0) == skip_ws(s@, i as int),
        decreases s@.len() - i,
    {
        let b = s[i];
        if b != 32 && b != 9 {
            return i;
        }
        i = i + 1;
    }
    i
}

/// First non-blank position of a line at or after `from`.
pub fn first_non_ws_from(s: &[u8], from: usize) -> (r: usize)
    requires
        from <= s@.len(),
    ensures
        r == skip_ws(s@, from as int),
        from <= r <= s@.len(),
{
    let mut i: usize = from;
    while i < s.len()
        invariant
            from <= i <= s@.len(),
            skip_ws(s@, from as int) == skip_ws(s@, i as int),
        decreases s@.len() - i,
    {
        let b = s[i];
        if b != 32 && b != 9 {
            return i;
        }
        i = i + 1;
    }
    i
}

/// Parse one line against the progress grammar `[k of n] Compiling …`.
pub fn parse_progress(s: &[u8]) -> (r: Option<(usize, usize)>)
    ensures
        match r {
            Some((k, n)) => progress_spec(s@) == Some((k as nat, n as nat)),
            None => progress_spec(s@) is None,
        },
{
    if s.len() == 0 {
        return None;
    }
    if s[0] != 91 {
        return None;
    }
    let sp = match find_byte_from(s, 32, 1) {
        Some(i) => i,
        None => {
            return None;
        }
    };
    proof {
        lemma_find_byte_props(s@, 32, 1);
    }
    let k = match parse_number_range(s, 1, sp) {
        Some(x) => x,
        None => {
            return None;
        }
    };
    let slen = s.len();
    if slen < 4 || sp > slen - 4 {
        return None;
    }
    if s[sp + 1] != 111 || s[sp + 2] != 102 || s[sp + 3] != 32 {
        return None;
    }
    let br = match find_byte_from(s, 93, sp + 4) {
        Some(i) => i,
        None => {
            return None;
        }
    };
    proof {
        lemma_find_byte_props(s@, 93, sp + 4);
    }
    let n = match parse_number_range(s, sp + 4, br) {
        Some(x) => x,
        None => {
            return None;
        }
    };
    if slen < 11 || br > slen - 11 {
        return None;
    }
    if s[br + 1] != 32 {
        return None;
    }
    let word = copy_range(s, br + 2, br + 11);
    let tag: Vec<u8> = vec![67u8, 111u8, 109u8, 112u8, 105u8, 108u8, 105u8, 110u8, 103u8];
    proof {
        assert(tag@ =~= compiling_tag());
    }
    if bytes_eq(word.as_slice(), tag.as_slice()) {
        Some((k, n))
    } else {
        None
    }
}

impl CompilationLog {
    /// A fresh, empty log for one drain cycle.
    pub fn new() -> (r: CompilationLog)
        ensures
            r@ == log_empty(),
    {
        let r = CompilationLog { diagnostics: Vec::new(), open: false, progress: None };
        proof {
            assert(r@ =~~= log_empty());
        }
        r
    }

    /// Classify one raw output line into the log.
    pub fn process_line(&mut self, raw: &[u8])
        ensures
            final(self)@ == log_step(old(self)@, raw@),
    {
        let stripped = strip_ansi(raw);
        let ghost s = strip_ansi_spec(raw@);
        match parse_msg_start(stripped.as_slice()) {
            Some(d) => {
                let ghost pre = self.diagnostics@;
                self.diagnostics.push(d);
                self.open = true;
                proof {
                    lemma_map_push(pre, d);
                    assert(self@ =~~= log_step(old(self)@, raw@));
                }
            }
            None => {
                let j = first_non_ws(stripped.as_slice());
                let is_ctx = j < stripped.len() && (stripped[j] == 124 || stripped[j] == 94);
                if is_ctx {
                    self.append_context(stripped);
                    proof {
                        assert(self@ =~~= log_step(old(self)@, raw@));
                    }
                } else {
                    match parse_progress(stripped.as_slice()) {
                        Some((k, n)) => {
                            self.progress = Some((k, n));
                            proof {
                                assert(self@ =~~= log_step(old(self)@, raw@));
                            }
                        }
                        None => {
                            if j == stripped.len() {
                                self.open = false;
                                proof {
                                    assert(self@ =~~= log_step(old(self)@, raw@));
                                }
                            } else {
                                self.append_context(stripped);
                                proof {
                                    assert(self@ =~~= log_step(old(self)@, raw@));
                                }
                            }
                        }
                    }
                }
            }
        }
    }

    /// Append one de-colored line to the open diagnostic's context.
    fn append_context(&mut self, line: Vec<u8>)
        ensures
            final(self)@ == log_append_context(old(self)@, line@),
    {
        if !self.open {
            proof {
                assert(self@ =~~= log_append_context(old(self)@, line@));
            }
            return ;
        }
        let ghost pre = self.diagnostics@;
        match self.diagnostics.pop() {
            Some(mut d) => {
                let ghost dpre = d;
                d.context_lines.push(line);
                proof {
                    assert(d@.context =~= dpre@.context.push(line@));
                }
                self.diagnostics.push(d);
                proof {
                    lemma_map_push(pre.drop_last(), d);
                    assert(pre.drop_last().push(d) =~= pre.update(pre.len() - 1, d));
                    lemma_map_update_last(pre, d);
                    assert(self@ =~~= log_append_context(old(self)@, line@));
                }
            }
            None => {
                proof {
                    assert(self@ =~~= log_append_context(old(self)@, line@));
                }
            }
        }
    }

    /// How many recorded diagnostics carry severity `sev`.
    pub fn count_severity(&self, sev: Severity) -> (r: usize)
        ensures
            r == count_sev(self@.diags, sev),
    {
        let ghost diags = self@.diags;
        let mut cnt: usize = 0;
        let mut i: usize = 0;
        while i < self.diagnostics.len()
            invariant
                i <= self.diagnostics@.len(),
                diags == self@.diags,
                diags.len() == self.diagnostics@.len(),
                cnt == count_sev(diags.subrange(0, i as int), sev),
                cnt <= i,
            decreases self.diagnostics@.len() - i,
        {
            let hit = self.diagnostics[i].severity == sev;
            proof {
                assert(diags.subrange(0, i + 1 as int).drop_last() =~= diags.subrange(0, i as int));
                assert(diags.subrange(0, i + 1 as int).last() == diags[i as int]);
                assert(diags[i as int] == self.diagnostics@[i as int]@);
            }
            if hit {
                cnt = cnt + 1;
            }
            i = i + 1;
        }
        proof {
            assert(diags.subrange(0, diags.len() as int) =~= diags);
        }
        cnt
    }

    /// The verdict of this cycle, computed strictly from the severities
    /// classified during the cycle.
    pub fn verdict(&self) -> (v: Verdict)
        ensures
            v == verdict_of(self@),
    {
        if self.count_severity(Severity::Error) == 0 {
            Verdict::Passed
        } else {
            Verdict::Failed
        }
    }
}

proof fn lemma_map_push(v: Seq<Diagnostic>, d: Diagnostic)
    ensures
        v.push(d).map_values(|x: Diagnostic| x@) =~= v.map_values(|x: Diagnostic| x@).push(d@),
{
}

proof fn lemma_map_update_last(v: Seq<Diagnostic>, d: Diagnostic)
    requires
        v.len() > 0,
    ensures
        v.update(v.len() - 1, d).map_values(|x: Diagnostic| x@) =~= v.map_values(
            |x: Diagnostic| x@,
        ).update(v.len() - 1, d@),
{
}

/// The log after classifying a whole sequence of raw lines, oldest first.
pub open spec fn run_log(lines: Seq<Seq<u8>>) -> LogModel
    decreases lines.len(),
{
    if lines.len() == 0 {
        log_empty()
    } else {
        log_step(run_log(lines.drop_last()), lines.last())
    }
}

/// How many lines of the corpus open a diagnostic of severity `sev`.
pub open spec fn opener_count(lines: Seq<Seq<u8>>, sev: Severity) -> nat
    decreases lines.len(),
{
    if lines.len() == 0 {
        0
    } else {
        opener_count(lines.drop_last(), sev) + match msg_start_spec(
            strip_ansi_spec(lines.last()),
        ) {
            Some(ms) => if ms.severity == sev {
                1nat
            } else {
                0nat
            },
            None => 0,
        }
    }
}

proof fn lemma_count_sev_update_last(diags: Seq<DiagModel>, d: DiagModel, sev: Severity)
    requires
        diags.len() > 0,
        d.severity == diags.last().severity,
    ensures
        count_sev(diags.update(diags.len() - 1, d), sev) == count_sev(diags, sev),
{
    let upd = diags.update(diags.len() - 1, d);
    assert(upd.drop_last() =~= diags.drop_last());
    assert(upd.last() == d);
}

/// One classification step changes the severity counts exactly when the line
/// opens a diagnostic of that severity.
proof fn lemma_log_step_counts(m: LogModel, raw: Seq<u8>, sev: Severity)
    ensures
        count_sev(log_step(m, raw).diags, sev) == count_sev(m.diags, sev) + match msg_start_spec(
            strip_ansi_spec(raw),
        ) {
            Some(ms) => if ms.severity == sev {
                1nat
            } else {
                0nat
            },
            None => 0,
        },
{
    let s = strip_ansi_spec(raw);
    match msg_start_spec(s) {
        Some(ms) => {
            let stepped = log_step(m, raw);
            assert(stepped.diags.drop_last() =~= m.diags);
        }
        None => {
            if is_context_start(s) || (progress_spec(s) is None && !is_blank(s)) {
                if m.open && m.diags.len() > 0 {
                    let last = m.diags[m.diags.len() - 1];
                    let d = DiagModel { context: last.context.push(s), ..last };
                    lemma_count_sev_update_last(m.diags, d, sev);
                }
            }
        }
    }
}

/// Diagnostic classification round-trip: for any corpus of output lines, the
/// resulting log reports exactly as many diagnostics of a severity as the
/// corpus holds message-start lines of that severity — progress lines,
/// context lines and blanks interleaved anywhere never change the counts.
pub proof fn lemma_diag_round_trip(lines: Seq<Seq<u8>>, sev: Severity)
    ensures
        count_sev(run_log(lines).diags, sev) == opener_count(lines, sev),
    decreases lines.len(),
{
    if lines.len() > 0 {
        lemma_diag_round_trip(lines.drop_last(), sev);
        lemma_log_step_counts(run_log(lines.drop_last()), lines.last(), sev);
    }
}

/// The verdict is `Failed` exactly when the corpus holds at least one
/// error-severity message-start line.
pub proof fn lemma_verdict_round_trip(lines: Seq<Seq<u8>>)
    ensures
        verdict_of(run_log(lines)) == Verdict::Failed <==> opener_count(lines, Severity::Error)
            > 0,
{
    lemma_diag_round_trip(lines, Severity::Error);
}

} // verus!
