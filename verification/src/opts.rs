//! Configuration surface: watch options, logging options, TUI options and
//! user-defined TUI actions.
//!
//! These are the immutable inputs the core receives from the command-line
//! layer: prompt and debounce settings, glob lists, and the TUI's action
//! table.  Argument parsing itself lives outside the library; what is here
//! is the logic behind it — the `LABEL:COMMAND` action grammar, the default
//! actions, the action-table assembly, and the glob compilation.

use vstd::prelude::*;

use crate::glob::entry_of_glob;
use crate::glob::glob_valid;
use crate::glob::GlobError;
use crate::glob::GlobMatcher;
use vstd::utf8::encode_utf8;

verus! {

/// The command a TUI action runs.
#[derive(Debug)]
pub enum TuiActionCommand {
    /// A shell command to execute.
    Shell(String),
    /// An internal supervisor command.
    Internal(String),
}

/// A user-configurable action shown in the TUI and triggered by number
/// keys.
#[derive(Debug)]
pub struct TuiAction {
    /// The label to display.
    pub label: String,
    /// The command to execute.
    pub command: TuiActionCommand,
}

/// Model of one action: its label, whether the command is internal, and the
/// command text.
#[verifier::ext_equal]
pub ghost struct ActionView {
    pub label: Seq<char>,
    pub internal: bool,
    pub command: Seq<char>,
}

impl View for TuiAction {
    type V = ActionView;

    open spec fn view(&self) -> ActionView {
        match self.command {
            TuiActionCommand::Shell(ref c) => ActionView {
                label: self.label@,
                internal: false,
                command: c@,
            },
            TuiActionCommand::Internal(ref c) => ActionView {
                label: self.label@,
                internal: true,
                command: c@,
            },
        }
    }
}

/// The views of an action list.
pub open spec fn actions_view(v: Seq<TuiAction>) -> Seq<ActionView> {
    v.map_values(|a: TuiAction| a@)
}

/// The first position of `c` in `s` at or after `from`, or `-1`.
pub open spec fn find_char(s: Seq<char>, c: char, from: int) -> int
    decreases s.len() - from + 1,
{
    if from < 0 || from >= s.len() {
        -1
    } else if s[from] == c {
        from
    } else {
        find_char(s, c, from + 1)
    }
}

/// A blank character for trimming.
pub open spec fn is_blank_char(c: char) -> bool {
    c == ' ' || c == '\t'
}

/// First non-blank position at or after `i`.
pub open spec fn ltrim_idx(s: Seq<char>, i: int) -> int
    decreases s.len() - i + 1,
{
    if i < 0 || i >= s.len() {
        s.len() as int
    } else if is_blank_char(s[i]) {
        ltrim_idx(s, i + 1)
    } else {
        i
    }
}

/// End of `s[a..b]` after trailing blanks are dropped.
pub open spec fn rtrim_idx(s: Seq<char>, a: int, b: int) -> int
    decreases b - a,
{
    if b <= a {
        a
    } else if is_blank_char(s[b - 1]) {
        rtrim_idx(s, a, b - 1)
    } else {
        b
    }
}

/// `s` with leading and trailing blanks dropped.
pub open spec fn trim_chars(s: Seq<char>) -> Seq<char> {
    let a = ltrim_idx(s, 0);
    s.subrange(a, rtrim_idx(s, a, s.len() as int))
}

/// The `LABEL:COMMAND` grammar: everything before the first colon is the
/// label, everything after it the command, both trimmed; a command starting
/// with `@` names an internal command.
pub open spec fn parse_action_spec(s: Seq<char>) -> Option<ActionView> {
    let c = find_char(s, ':', 0);
    if c < 0 {
        None
    } else {
        let label = trim_chars(s.take(c));
        let cmd = trim_chars(s.skip(c + 1));
        if cmd.len() > 0 && cmd[0] == '@' {
            Some(ActionView { label, internal: true, command: cmd.skip(1) })
        } else {
            Some(ActionView { label, internal: false, command: cmd })
        }
    }
}

/// The message reported for a malformed action string.
pub open spec fn action_err_msg(s: Seq<char>) -> Seq<char> {
    "Invalid TUI action format '"@ + s
        + "'. Expected 'LABEL:COMMAND' or 'LABEL:@INTERNAL_COMMAND'"@
}

/// First non-blank position in `s` at or after `i`, before `b`.
pub open spec fn ltrim_idx_upto(s: Seq<char>, i: int, b: int) -> int
    decreases b - i + 1,
{
    if i < 0 || i >= b {
        b
    } else if is_blank_char(s[i]) {
        ltrim_idx_upto(s, i + 1, b)
    } else {
        i
    }
}

proof fn lemma_ltrim_shift(s: Seq<char>, a: int, b: int, i: int)
    requires
        0 <= a <= i <= b <= s.len(),
    ensures
        ltrim_idx(s.subrange(a, b), i - a) == ltrim_idx_upto(s, i, b) - a,
    decreases b - i,
{
    let t = s.subrange(a, b);
    if i < b {
        assert(t[i - a] == s[i]);
        if is_blank_char(s[i]) {
            lemma_ltrim_shift(s, a, b, i + 1);
        }
    }
}

proof fn lemma_rtrim_shift(s: Seq<char>, a: int, lo: int, b: int)
    requires
        0 <= a <= lo <= b <= s.len(),
    ensures
        rtrim_idx(s.subrange(a, b), lo - a, b - a) == rtrim_idx(s, lo, b) - a,
{
    lemma_rtrim_shift_upto(s, a, lo, b, b);
}

proof fn lemma_rtrim_shift_upto(s: Seq<char>, a: int, lo: int, b: int, e: int)
    requires
        0 <= a <= lo <= e <= b <= s.len(),
    ensures
        rtrim_idx(s.subrange(a, b), lo - a, e - a) == rtrim_idx(s, lo, e) - a,
    decreases e - lo,
{
    let t = s.subrange(a, b);
    if e > lo {
        assert(t[e - 1 - a] == s[e - 1]);
        if is_blank_char(s[e - 1]) {
            lemma_rtrim_shift_upto(s, a, lo, b, e - 1);
        }
    }
}

/// First occurrence of `c` in `s` at or after `from`.
fn find_char_exec(s: &str, c: char, from: usize) -> (r: Option<usize>)
    requires
        from <= s@.len(),
    ensures
        match r {
            Some(i) => find_char(s@, c, from as int) == i && from <= i < s@.len(),
            None => find_char(s@, c, from as int) == -1,
        },
{
    let n = s.unicode_len();
    let mut i: usize = from;
    while i < n
        invariant
            from <= i <= n,
            n == s@.len(),
            find_char(s@, c, from as int) == find_char(s@, c, i as int),
        decreases n - i,
    {
        if s.get_char(i) == c {
            return Some(i);
        }
        i = i + 1;
    }
    None
}

/// Trim blanks off both ends of the segment `[a, b)` of `s`, returning the
/// trimmed bounds.
fn trim_range(s: &str, a: usize, b: usize) -> (r: (usize, usize))
    requires
        a <= b <= s@.len(),
    ensures
        r.0 == ltrim_idx_upto(s@, a as int, b as int),
        r.1 == rtrim_idx(s@, r.0 as int, b as int),
        a <= r.0 <= r.1 <= b,
{
    let lo = ltrim_exec(s, a, b);
    proof {
        lemma_rtrim_range(s@, lo as int, b as int);
    }
    let hi = rtrim_char_exec(s, lo, b);
    (lo, hi)
}

/// First non-blank position in `[a, b)`, or `b`.
fn ltrim_exec(s: &str, a: usize, b: usize) -> (r: usize)
    requires
        a <= b <= s@.len(),
    ensures
        r == ltrim_idx_upto(s@, a as int, b as int),
        a <= r <= b,
{
    let mut lo: usize = a;
    while lo < b
        invariant
            a <= lo <= b <= s@.len(),
            ltrim_idx_upto(s@, a as int, b as int) == ltrim_idx_upto(s@, lo as int, b as int),
        decreases b - lo,
    {
        let ch = s.get_char(lo);
        if ch != ' ' && ch != '\t' {
            return lo;
        }
        lo = lo + 1;
    }
    lo
}

/// End of `[a, b)` after trailing blanks are dropped.
fn rtrim_char_exec(s: &str, a: usize, b: usize) -> (r: usize)
    requires
        a <= b <= s@.len(),
    ensures
        r == rtrim_idx(s@, a as int, b as int),
        a <= r <= b,
{
    let mut hi: usize = b;
    while hi > a
        invariant
            a <= hi <= b <= s@.len(),
            rtrim_idx(s@, a as int, b as int) == rtrim_idx(s@, a as int, hi as int),
        decreases hi,
    {
        let ch = s.get_char(hi - 1);
        if ch != ' ' && ch != '\t' {
            return hi;
        }
        hi = hi - 1;
    }
    hi
}

proof fn lemma_rtrim_range(s: Seq<char>, a: int, b: int)
    requires
        0 <= a <= b <= s.len(),
    ensures
        a <= rtrim_idx(s, a, b) <= b,
    decreases b - a,
{
    if b > a && is_blank_char(s[b - 1]) {
        lemma_rtrim_range(s, a, b - 1);
    }
}

impl TuiAction {
    /// Parse a `LABEL:COMMAND` (or `LABEL:@INTERNAL_COMMAND`) action string.
    pub fn from_str(s: &str) -> (r: Result<TuiAction, String>)
        ensures
            match r {
                Ok(a) => parse_action_spec(s@) == Some(a@),
                Err(e) => parse_action_spec(s@) is None && e@ == action_err_msg(s@),
            },
    {
        let n = s.unicode_len();
        let c = match find_char_exec(s, ':', 0) {
            Some(i) => i,
            None => {
                let mut msg = String::from_str("Invalid TUI action format '");
                msg.append(s);
                msg.append("'. Expected 'LABEL:COMMAND' or 'LABEL:@INTERNAL_COMMAND'");
                return Err(msg);
            }
        };
        let (la, lb) = trim_range(s, 0, c);
        let ghost label_spec = trim_chars(s@.take(c as int));
        proof {
            assert(s@.take(c as int) =~= s@.subrange(0, c as int));
            lemma_ltrim_shift(s@, 0, c as int, 0);
            lemma_rtrim_shift(s@, 0, la as int, c as int);
            assert(label_spec =~= s@.subrange(la as int, lb as int));
        }
        let label_str = s.substring_char(la, lb);
        let label = String::from_str(label_str);
        let (ca, cb) = trim_range(s, c + 1, n);
        let ghost cmd_spec = trim_chars(s@.skip(c + 1 as int));
        proof {
            assert(s@.skip(c + 1 as int) =~= s@.subrange(c + 1, n as int));
            lemma_ltrim_shift(s@, c + 1, n as int, c + 1);
            lemma_rtrim_shift(s@, c + 1, ca as int, n as int);
            assert(cmd_spec =~= s@.subrange(ca as int, cb as int));
        }
        let command = if ca < cb && s.get_char(ca) == '@' {
            let cmd_str = s.substring_char(ca + 1, cb);
            proof {
                assert(cmd_spec[0] == s@.subrange(ca as int, cb as int)[0]);
                assert(cmd_spec.skip(1) =~= s@.subrange(ca + 1, cb as int));
            }
            TuiActionCommand::Internal(String::from_str(cmd_str))
        } else {
            let cmd_str = s.substring_char(ca, cb);
            proof {
                if cmd_spec.len() > 0 {
                    assert(cmd_spec[0] == s@.subrange(ca as int, cb as int)[0]);
                }
            }
            TuiActionCommand::Shell(String::from_str(cmd_str))
        };
        let a = TuiAction { label, command };
        proof {
            assert(parse_action_spec(s@) matches Some(v) && v =~~= a@);
        }
        Ok(a)
    }
}

impl TuiAction {
/// The default "Reload All" action: touch every changed file from the
    /// repository root so the whole working set reloads.
    pub fn default_reload_all() -> (r: TuiAction)
        ensures
            r@.label == "Reload All"@,
            r@.internal == false,
            r@.command
                == "cd \"$(git rev-parse --show-toplevel)\" && git diff --name-only | xargs -r touch"@,
    {
        TuiAction {
            label: String::from_str("Reload All"),
            command: TuiActionCommand::Shell(
                String::from_str(
                    "cd \"$(git rev-parse --show-toplevel)\" && git diff --name-only | xargs -r touch",
                ),
            ),
        }
    }

    /// The default "Toggle Warnings" action.
    pub fn default_toggle_warnings() -> (r: TuiAction)
        ensures
            r@.label == "Toggle Warnings"@,
            r@.internal == true,
            r@.command == "toggle-track-warnings"@,
    {
        TuiAction {
            label: String::from_str("Toggle Warnings"),
            command: TuiActionCommand::Internal(String::from_str("toggle-track-warnings")),
        }
    }

    /// The default "Toggle No-Load" action.
    pub fn default_toggle_no_load() -> (r: TuiAction)
        ensures
            r@.label == "Toggle No-Load"@,
            r@.internal == true,
            r@.command == "toggle-no-load"@,
    {
        TuiAction {
            label: String::from_str("Toggle No-Load"),
            command: TuiActionCommand::Internal(String::from_str("toggle-no-load")),
        }
    }

    /// A field-for-field copy.
    pub fn duplicate(&self) -> (r: TuiAction)
        ensures
            r@ == self@,
    {
        let label = self.label.clone();
        let command = match &self.command {
            TuiActionCommand::Shell(c) => TuiActionCommand::Shell(c.clone()),
            TuiActionCommand::Internal(c) => TuiActionCommand::Internal(c.clone()),
        };
        let r = TuiAction { label, command };
        proof {
            assert(r@ =~~= self@);
        }
        r
    }
}

/// Options for watching files.
#[derive(Debug)]
pub struct WatchOpts {
    /// Poll with this interval (milliseconds) instead of notification-based
    /// watching, when set.
    pub poll: Option<u64>,
    /// Debounce interval in milliseconds.
    pub debounce: u64,
    /// Paths to watch, recursively, as normalized absolute paths.
    pub paths: Vec<Vec<u8>>,
    /// Reload globs (last match wins; `!` ignores).
    pub reload_globs: Vec<String>,
    /// Restart globs (last match wins; `!` ignores).
    pub restart_globs: Vec<String>,
}

/// The byte form of a glob string.
pub open spec fn glob_bytes(g: Seq<char>) -> Seq<u8> {
    encode_utf8(g)
}

/// A string's UTF-8 bytes.
fn str_to_bytes(s: &str) -> (r: Vec<u8>)
    ensures
        r@ == encode_utf8(s@),
{
    let b = s.as_bytes();
    crate::bytes::copy_range(b, 0, b.len())
}

/// Build a glob list into a matcher.
fn compile_globs(globs: &Vec<String>) -> (r: Result<GlobMatcher, GlobError>)
    ensures
        match r {
            Ok(m) => {
                &&& m.entries_view().len() == globs@.len()
                &&& forall|i: int|
                    0 <= i < globs@.len() ==> m.entries_view()[i] == entry_of_glob(
                        glob_bytes(globs@[i]@),
                    ) && glob_valid(glob_bytes(globs@[i]@))
            },
            Err(e) => e matches GlobError::EmptyPattern(i) && i < globs@.len() && !glob_valid(
                glob_bytes(globs@[i as int]@),
            ),
        },
{
    let mut raw: Vec<Vec<u8>> = Vec::new();
    let mut i: usize = 0;
    while i < globs.len()
        invariant
            i <= globs@.len(),
            raw@.len() == i,
            forall|k: int| 0 <= k < i ==> raw@[k]@ == glob_bytes(globs@[k]@),
        decreases globs@.len() - i,
    {
        let b = str_to_bytes(globs[i].as_str());
        raw.push(b);
        i = i + 1;
    }
    let r = GlobMatcher::from_globs(&raw);
    proof {
        assert forall|k: int| 0 <= k < raw@.len() implies raw@.map_values(|v: Vec<u8>| v@)[k]
            == glob_bytes(globs@[k]@) by {};
    }
    match r {
        Ok(m) => {
            proof {
                assert forall|k: int|
                    0 <= k < globs@.len() implies m.entries_view()[k] == entry_of_glob(
                    glob_bytes(globs@[k]@),
                ) && glob_valid(glob_bytes(globs@[k]@)) by {
                    assert(raw@[k]@ == glob_bytes(globs@[k]@));
                    assert(m.entries_view()[k] == entry_of_glob(raw@[k]@) && glob_valid(
                        raw@[k]@,
                    ));
                };
            }
            Ok(m)
        }
        Err(e) => {
            proof {
                match e {
                    GlobError::EmptyPattern(i) => {
                        assert(raw@[i as int]@ == glob_bytes(globs@[i as int]@));
                    }
                }
            }
            Err(e)
        }
    }
}

impl WatchOpts {
    /// Build the reload globs into a matcher.
    pub fn reload_globs(&self) -> (r: Result<GlobMatcher, GlobError>)
        ensures
            match r {
                Ok(m) => {
                    &&& m.entries_view().len() == self.reload_globs@.len()
                    &&& forall|i: int|
                        0 <= i < self.reload_globs@.len() ==> m.entries_view()[i] == entry_of_glob(
                            glob_bytes(self.reload_globs@[i]@),
                        )
                },
                Err(e) => e matches GlobError::EmptyPattern(i) && i < self.reload_globs@.len()
                    && !glob_valid(glob_bytes(self.reload_globs@[i as int]@)),
            },
    {
        compile_globs(&self.reload_globs)
    }

    /// Build the restart globs into a matcher.
    pub fn restart_globs(&self) -> (r: Result<GlobMatcher, GlobError>)
        ensures
            match r {
                Ok(m) => {
                    &&& m.entries_view().len() == self.restart_globs@.len()
                    &&& forall|i: int|
                        0 <= i < self.restart_globs@.len() ==> m.entries_view()[i] == entry_of_glob(
                            glob_bytes(self.restart_globs@[i]@),
                        )
                },
                Err(e) => e matches GlobError::EmptyPattern(i) && i < self.restart_globs@.len()
                    && !glob_valid(glob_bytes(self.restart_globs@[i as int]@)),
            },
    {
        compile_globs(&self.restart_globs)
    }
}

/// Options to modify logging behavior.  The core treats these as opaque
/// configuration carried for the outside logging layer.
#[derive(Debug)]
pub struct LoggingOpts {
    /// Log message filter.
    pub log_filter: String,
    /// How to display backtraces in error messages.
    pub backtrace: String,
    /// Span events to log.
    pub trace_spans: Vec<String>,
    /// Path to write JSON logs to.
    pub log_json: Option<Vec<u8>>,
}

/// Options for TUI mode.
#[derive(Debug)]
pub struct TuiOpts {
    /// User-defined actions, shown after the defaults.
    pub actions: Vec<TuiAction>,
}

impl TuiOpts {
    /// All actions: the three defaults, then the user's, capped at the nine
    /// number keys.
    pub fn get_actions(&self) -> (r: Vec<TuiAction>)
        ensures
            ({
                let all = seq![
                    TuiAction::default_reload_all_view(),
                    TuiAction::default_toggle_warnings_view(),
                    TuiAction::default_toggle_no_load_view(),
                ] + actions_view(self.actions@);
                actions_view(r@) == if all.len() > 9 {
                    all.take(9)
                } else {
                    all
                }
            }),
    {
        let ghost all = seq![
            TuiAction::default_reload_all_view(),
            TuiAction::default_toggle_warnings_view(),
            TuiAction::default_toggle_no_load_view(),
        ] + actions_view(self.actions@);
        let mut out: Vec<TuiAction> = Vec::new();
        out.push(TuiAction::default_reload_all());
        out.push(TuiAction::default_toggle_warnings());
        out.push(TuiAction::default_toggle_no_load());
        proof {
            assert(actions_view(out@) =~~= all.take(3));
        }
        let mut i: usize = 0;
        while i < self.actions.len()
            invariant
                i <= self.actions@.len(),
                all == seq![
                    TuiAction::default_reload_all_view(),
                    TuiAction::default_toggle_warnings_view(),
                    TuiAction::default_toggle_no_load_view(),
                ] + actions_view(self.actions@),
                all.len() == 3 + self.actions@.len(),
                out@.len() == 3 + i,
                actions_view(out@) == all.take(3 + i),
            decreases self.actions@.len() - i,
        {
            let ghost pre = out@;
            let a = self.actions[i].duplicate();
            proof {
                assert(a@ == actions_view(self.actions@)[i as int]) by {
                    assert(actions_view(self.actions@)[i as int] == self.actions@[i as int]@);
                };
                assert(all[3 + i] == actions_view(self.actions@)[i as int]);
            }
            out.push(a);
            proof {
                assert(actions_view(out@) =~~= actions_view(pre).push(all[3 + i]));
                assert(actions_view(pre).push(all[3 + i]) =~~= all.take(3 + i + 1));
            }
            i = i + 1;
        }
        proof {
            assert(all.take(all.len() as int) =~= all);
        }
        out.truncate(9);
        proof {
            if all.len() > 9 {
                assert(actions_view(out@) =~~= all.take(9));
            } else {
                assert(actions_view(out@) =~~= all);
            }
        }
        out
    }
}

impl TuiAction {
    /// The view of [`TuiAction::default_reload_all`].
    pub open spec fn default_reload_all_view() -> ActionView {
        ActionView {
            label: "Reload All"@,
            internal: false,
            command:
                "cd \"$(git rev-parse --show-toplevel)\" && git diff --name-only | xargs -r touch"@,
        }
    }

    /// The view of [`TuiAction::default_toggle_warnings`].
    pub open spec fn default_toggle_warnings_view() -> ActionView {
        ActionView { label: "Toggle Warnings"@, internal: true, command: "toggle-track-warnings"@ }
    }

    /// The view of [`TuiAction::default_toggle_no_load`].
    pub open spec fn default_toggle_no_load_view() -> ActionView {
        ActionView { label: "Toggle No-Load"@, internal: true, command: "toggle-no-load"@ }
    }
}

impl Default for TuiOpts {
    /// No user-defined actions.
    fn default() -> (r: TuiOpts)
        ensures
            r.actions@.len() == 0,
    {
        TuiOpts { actions: Vec::new() }
    }
}

/// The full configuration the supervisor core runs under.
#[derive(Debug)]
pub struct Opts {
    /// The shell command that starts the REPL, when given.
    pub command: Option<String>,
    /// A single source file to load, as a normalized absolute path.
    pub file: Option<Vec<u8>>,
    /// A file to write compilation errors to.
    pub error_file: Option<Vec<u8>>,
    /// Evaluate code in comments after reloads.
    pub enable_eval: bool,
    /// Clear the screen before reloads and restarts.
    pub clear: bool,
    /// Don't interrupt reloads when files change.
    pub no_interrupt_reloads: bool,
    /// Run the terminal UI.
    pub tui: bool,
    /// Terminal UI options.
    pub tui_opts: TuiOpts,
    /// Track warnings across recompilations.
    pub track_warnings: bool,
    /// File watching options.
    pub watch: WatchOpts,
    /// Logging options.
    pub logging: LoggingOpts,
}

impl Opts {
    /// Late initialization: a given file is watched; with nothing to watch,
    /// the `src` directory under the working directory is.  Must run before
    /// the options are used.
    pub fn init(&mut self, cwd: &[u8])
        ensures
            final(self).watch.paths@.map_values(|p: Vec<u8>| p@) == (match old(self).file {
                Some(f) => old(self).watch.paths@.map_values(|p: Vec<u8>| p@).push(f@),
                None => {
                    if old(self).watch.paths@.len() == 0 {
                        seq![
                            crate::path::normalize_spec(cwd@, seq![115u8, 114u8, 99u8]),
                        ]
                    } else {
                        old(self).watch.paths@.map_values(|p: Vec<u8>| p@)
                    }
                },
            }),
            final(self).file == old(self).file,
    {
        let ghost pre = self.watch.paths@;
        match &self.file {
            Some(f) => {
                let copy = crate::bytes::copy_range(f.as_slice(), 0, f.len());
                self.watch.paths.push(copy);
                proof {
                    assert(self.watch.paths@.map_values(|p: Vec<u8>| p@) =~~= pre.map_values(
                        |p: Vec<u8>| p@,
                    ).push(old(self).file->Some_0@));
                }
            }
            None => {
                if self.watch.paths.len() == 0 {
                    let src: Vec<u8> = vec![115u8, 114u8, 99u8];
                    proof {
                        assert(src@ =~= seq![115u8, 114u8, 99u8]);
                    }
                    let p = crate::path::normalize_path(cwd, src.as_slice());
                    self.watch.paths.push(p);
                    proof {
                        assert(self.watch.paths@.map_values(|p: Vec<u8>| p@) =~~= seq![
                            crate::path::normalize_spec(cwd@, seq![115u8, 114u8, 99u8]),
                        ]);
                    }
                }
            }
        }
    }
}

} // verus!
