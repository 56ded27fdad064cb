//! The stdin side of the session: composing the exact command lines written
//! to the subprocess, and the write-failure taxonomy.
//!
//! Every protocol verb is one or more exchanges: a line written to the
//! subprocess's standard input (with its trailing newline), then a wait for
//! the next prompt on standard output with the given search discipline.  The
//! unverifiable write itself is the caller's: it performs each exchange in
//! order and drains with a [`crate::drain::DrainCycle`] between writes.
//!
//! A write failing with a broken pipe means the subprocess died: that is
//! surfaced as a distinct condition, not a generic I/O error — and for the
//! quit verb a broken pipe is success, since the process being gone is the
//! desired end state.

use vstd::prelude::*;

use crate::bytes::append_bytes;
use crate::reader::FindAt;

verus! {

/// One logical instruction for the REPL, possibly spanning several physical
/// lines (continuation).  Immutable once constructed.
#[derive(Debug)]
pub struct GhciCommand {
    pub lines: Vec<Vec<u8>>,
}

impl GhciCommand {
    /// The command's lines.
    pub open spec fn view_lines(self) -> Seq<Seq<u8>> {
        self.lines@.map_values(|l: Vec<u8>| l@)
    }

    /// A command from its lines.
    pub fn new(lines: Vec<Vec<u8>>) -> (r: GhciCommand)
        ensures
            r.view_lines() == lines@.map_values(|l: Vec<u8>| l@),
    {
        GhciCommand { lines }
    }
}

/// One write-then-drain step.
#[derive(Debug)]
pub struct Exchange {
    /// The full line to write, trailing newline included.
    pub line: Vec<u8>,
    /// Where the terminating prompt may appear.
    pub find: FindAt,
}

/// Model of one exchange.
#[verifier::ext_equal]
pub ghost struct ExchangeView {
    pub line: Seq<u8>,
    pub find: FindAt,
}

impl View for Exchange {
    type V = ExchangeView;

    open spec fn view(&self) -> ExchangeView {
        ExchangeView { line: self.line@, find: self.find }
    }
}

/// The views of a plan.
pub open spec fn plan_view(v: Seq<Exchange>) -> Seq<ExchangeView> {
    v.map_values(|e: Exchange| e@)
}

/// The default prompt sentinel, `###PROMPT###`: distinctive text with a low
/// probability of colliding with program output.
pub open spec fn default_prompt_spec() -> Seq<u8> {
    seq![35u8, 35u8, 35u8, 80u8, 82u8, 79u8, 77u8, 80u8, 84u8, 35u8, 35u8, 35u8]
}

/// The default prompt sentinel as bytes.
pub fn default_prompt() -> (r: Vec<u8>)
    ensures
        r@ == default_prompt_spec(),
{
    let v: Vec<u8> = vec![35u8, 35u8, 35u8, 80u8, 82u8, 79u8, 77u8, 80u8, 84u8, 35u8, 35u8, 35u8];
    proof {
        assert(v@ =~= default_prompt_spec());
    }
    v
}

/// `:set prompt ` followed by the prompt and a newline.
pub open spec fn set_prompt_cmd(prompt: Seq<u8>) -> Seq<u8> {
    seq![58u8, 115u8, 101u8, 116u8, 32u8, 112u8, 114u8, 111u8, 109u8, 112u8, 116u8, 32u8] + prompt
        + seq![10u8]
}

/// `:set prompt-cont ` followed by the prompt and a newline.
pub open spec fn set_prompt_cont_cmd(prompt: Seq<u8>) -> Seq<u8> {
    seq![
        58u8,
        115u8,
        101u8,
        116u8,
        32u8,
        112u8,
        114u8,
        111u8,
        109u8,
        112u8,
        116u8,
        45u8,
        99u8,
        111u8,
        110u8,
        116u8,
        32u8,
    ] + prompt + seq![10u8]
}

/// `:reload` and a newline.
pub open spec fn reload_cmd() -> Seq<u8> {
    seq![58u8, 114u8, 101u8, 108u8, 111u8, 97u8, 100u8, 10u8]
}

/// Items joined with single spaces.
pub open spec fn join_spaces(items: Seq<Seq<u8>>) -> Seq<u8>
    decreases items.len(),
{
    if items.len() == 0 {
        Seq::empty()
    } else if items.len() == 1 {
        items[0]
    } else {
        join_spaces(items.drop_last()) + seq![32u8] + items.last()
    }
}

/// `:add ` then the items space-joined, then a newline.  `:add` is used
/// rather than `:load` because `:load` forgets all previously loaded
/// modules.
pub open spec fn add_cmd(items: Seq<Seq<u8>>) -> Seq<u8> {
    seq![58u8, 97u8, 100u8, 100u8, 32u8] + join_spaces(items) + seq![10u8]
}

/// `:unadd ` then the items space-joined, then a newline.
pub open spec fn unadd_cmd(items: Seq<Seq<u8>>) -> Seq<u8> {
    seq![58u8, 117u8, 110u8, 97u8, 100u8, 100u8, 32u8] + join_spaces(items) + seq![10u8]
}

/// `:add *` then the module and a newline: the `*` forces interpretation,
/// so the module's top-level binds are accessible to eval.
pub open spec fn interpret_cmd(module: Seq<u8>) -> Seq<u8> {
    seq![58u8, 97u8, 100u8, 100u8, 32u8, 42u8] + module + seq![10u8]
}

/// `:module + *M` / `:module - *M` and a newline: bring a module's scope in
/// or out around an eval, so the evaluated text sees its top-level binds
/// without polluting the global scope afterwards.
pub open spec fn module_scope_cmd(add: bool, module: Seq<u8>) -> Seq<u8> {
    seq![58u8, 109u8, 111u8, 100u8, 117u8, 108u8, 101u8, 32u8] + (if add {
        seq![43u8]
    } else {
        seq![45u8]
    }) + seq![32u8, 42u8] + module + seq![10u8]
}

/// `:show paths` and a newline.
pub open spec fn show_paths_cmd() -> Seq<u8> {
    seq![
        58u8,
        115u8,
        104u8,
        111u8,
        119u8,
        32u8,
        112u8,
        97u8,
        116u8,
        104u8,
        115u8,
        10u8,
    ]
}

/// `:show targets` and a newline.
pub open spec fn show_targets_cmd() -> Seq<u8> {
    seq![
        58u8,
        115u8,
        104u8,
        111u8,
        119u8,
        32u8,
        116u8,
        97u8,
        114u8,
        103u8,
        101u8,
        116u8,
        115u8,
        10u8,
    ]
}

/// `:show modules` and a newline.
pub open spec fn show_modules_cmd() -> Seq<u8> {
    seq![
        58u8,
        115u8,
        104u8,
        111u8,
        119u8,
        32u8,
        109u8,
        111u8,
        100u8,
        117u8,
        108u8,
        101u8,
        115u8,
        10u8,
    ]
}

/// `:quit` and a newline.
pub open spec fn quit_cmd() -> Seq<u8> {
    seq![58u8, 113u8, 117u8, 105u8, 116u8, 10u8]
}

/// Each command line becomes one exchange waiting for the prompt at line
/// start.
pub open spec fn command_exchanges(lines: Seq<Seq<u8>>) -> Seq<ExchangeView> {
    lines.map_values(|l: Seq<u8>| ExchangeView { line: l + seq![10u8], find: FindAt::LineStart })
}

/// Join items with single spaces.
pub fn join_spaces_exec(items: &Vec<Vec<u8>>) -> (r: Vec<u8>)
    ensures
        r@ == join_spaces(items@.map_values(|l: Vec<u8>| l@)),
{
    let ghost iv = items@.map_values(|l: Vec<u8>| l@);
    let mut out: Vec<u8> = Vec::new();
    proof {
        assert(iv.subrange(0, 0) =~= Seq::<Seq<u8>>::empty());
    }
    let mut i: usize = 0;
    while i < items.len()
        invariant
            i <= items@.len(),
            iv == items@.map_values(|l: Vec<u8>| l@),
            iv.len() == items@.len(),
            out@ == join_spaces(iv.subrange(0, i as int)),
        decreases items@.len() - i,
    {
        proof {
            assert(iv.subrange(0, i + 1 as int).drop_last() =~= iv.subrange(0, i as int));
            assert(iv.subrange(0, i + 1 as int).last() == iv[i as int]);
            assert(iv[i as int] == items@[i as int]@);
        }
        if i > 0 {
            out.push(32u8);
        }
        append_bytes(&mut out, items[i].as_slice());
        proof {
            if i == 0 {
                assert(out@ =~= iv[0]);
                assert(join_spaces(iv.subrange(0, 1)) == iv.subrange(0, 1)[0]);
            } else {
                assert(out@ =~= join_spaces(iv.subrange(0, i as int)) + seq![32u8] + iv[i as int]);
            }
        }
        i = i + 1;
    }
    proof {
        assert(iv.subrange(0, iv.len() as int) =~= iv);
    }
    out
}

/// How a failed write to the subprocess's stdin is classified.
#[derive(Clone, Copy, Debug, PartialEq, Eq, Structural)]
pub enum WriteErrorKind {
    /// The pipe is closed: the subprocess is gone.
    BrokenPipe,
    /// Any other I/O failure.
    Other,
}

/// What the session reports upward.
#[derive(Clone, Copy, Debug, PartialEq, Eq, Structural)]
pub enum GhciError {
    /// The subprocess terminated unexpectedly (broken pipe on write or
    /// stream end on read): the dispatcher shuts down in order, or
    /// relaunches when a restart was requested.
    ProcessExited,
    /// An I/O error other than a closed pipe.
    Io,
    /// A query response failed its grammar (recoverable by fallback).
    Parse,
}

/// Classify a write failure: a broken pipe means the subprocess terminated
/// unexpectedly, anything else is an ordinary I/O error.
pub fn classify_write_error(kind: WriteErrorKind) -> (r: GhciError)
    ensures
        r == (match kind {
            WriteErrorKind::BrokenPipe => GhciError::ProcessExited,
            WriteErrorKind::Other => GhciError::Io,
        }),
{
    match kind {
        WriteErrorKind::BrokenPipe => GhciError::ProcessExited,
        WriteErrorKind::Other => GhciError::Io,
    }
}

/// Outcome of writing the quit command: success when the write went through
/// — and also on a broken pipe, because the process already being gone is
/// the desired end state of a quit.
pub fn quit_write_outcome(failure: Option<WriteErrorKind>) -> (r: Result<(), GhciError>)
    ensures
        r == (match failure {
            None => Result::<(), GhciError>::Ok(()),
            Some(WriteErrorKind::BrokenPipe) => Result::<(), GhciError>::Ok(()),
            Some(WriteErrorKind::Other) => Result::<(), GhciError>::Err(GhciError::Io),
        }),
{
    match failure {
        None => Ok(()),
        Some(WriteErrorKind::BrokenPipe) => Ok(()),
        Some(WriteErrorKind::Other) => Err(GhciError::Io),
    }
}

/// The command-composition side of the session's stdin.  Each method plans
/// the exact bytes of one protocol verb; the caller writes each exchange's
/// line and drains output to the next prompt with the exchange's search
/// discipline.
#[derive(Debug)]
pub struct GhciStdin {
    /// The prompt sentinel this session was initialized with.
    pub prompt: Vec<u8>,
}

impl GhciStdin {
    /// A session stdin using the given prompt sentinel.
    pub fn new(prompt: Vec<u8>) -> (r: GhciStdin)
        ensures
            r.prompt@ == prompt@,
    {
        GhciStdin { prompt }
    }

    /// One exchange per command line, prompt at line start.
    pub fn run_command(&self, command: &GhciCommand) -> (r: Vec<Exchange>)
        ensures
            plan_view(r@) == command_exchanges(command.view_lines()),
    {
        let ghost lv = command.view_lines();
        let mut out: Vec<Exchange> = Vec::new();
        proof {
            assert(plan_view(out@) =~= command_exchanges(lv).subrange(0, 0));
        }
        let mut i: usize = 0;
        while i < command.lines.len()
            invariant
                i <= command.lines@.len(),
                lv == command.view_lines(),
                lv.len() == command.lines@.len(),
                plan_view(out@) == command_exchanges(lv).subrange(0, i as int),
            decreases command.lines@.len() - i,
        {
            let mut line = crate::bytes::copy_range(
                command.lines[i].as_slice(),
                0,
                command.lines[i].len(),
            );
            line.push(10u8);
            let ghost pre = out@;
            out.push(Exchange { line, find: FindAt::LineStart });
            proof {
                assert(lv[i as int] == command.lines@[i as int]@);
                assert(plan_view(out@) =~~= plan_view(pre).push(
                    ExchangeView { line: lv[i as int] + seq![10u8], find: FindAt::LineStart },
                ));
                assert(command_exchanges(lv)[i as int] == ExchangeView {
                    line: lv[i as int] + seq![10u8],
                    find: FindAt::LineStart,
                });
                assert(plan_view(out@) =~~= command_exchanges(lv).subrange(0, i + 1 as int));
            }
            i = i + 1;
        }
        proof {
            assert(command_exchanges(lv).subrange(0, lv.len() as int) =~= command_exchanges(lv));
        }
        out
    }

    /// The initialization plan: set the prompt sentinel (waiting for it
    /// anywhere, since banner and compilation output precede the very first
    /// prompt), then the continuation prompt (line start).
    pub fn initialize(&self) -> (r: Vec<Exchange>)
        ensures
            plan_view(r@) == seq![
                ExchangeView { line: set_prompt_cmd(self.prompt@), find: FindAt::Anywhere },
                ExchangeView { line: set_prompt_cont_cmd(self.prompt@), find: FindAt::LineStart },
            ],
    {
        let head: Vec<u8> = vec![
            58u8,
            115u8,
            101u8,
            116u8,
            32u8,
            112u8,
            114u8,
            111u8,
            109u8,
            112u8,
            116u8,
            32u8,
        ];
        let mut first = head;
        append_bytes(&mut first, self.prompt.as_slice());
        first.push(10u8);
        let head2: Vec<u8> = vec![
            58u8,
            115u8,
            101u8,
            116u8,
            32u8,
            112u8,
            114u8,
            111u8,
            109u8,
            112u8,
            116u8,
            45u8,
            99u8,
            111u8,
            110u8,
            116u8,
            32u8,
        ];
        let mut second = head2;
        append_bytes(&mut second, self.prompt.as_slice());
        second.push(10u8);
        let out: Vec<Exchange> = vec![
            Exchange { line: first, find: FindAt::Anywhere },
            Exchange { line: second, find: FindAt::LineStart },
        ];
        proof {
            assert(out@[0]@.line =~= set_prompt_cmd(self.prompt@));
            assert(out@[1]@.line =~= set_prompt_cont_cmd(self.prompt@));
            assert(plan_view(out@) =~~= seq![
                ExchangeView { line: set_prompt_cmd(self.prompt@), find: FindAt::Anywhere },
                ExchangeView { line: set_prompt_cont_cmd(self.prompt@), find: FindAt::LineStart },
            ]);
        }
        out
    }

    /// The reload plan.
    pub fn reload(&self) -> (r: Exchange)
        ensures
            r@.line == reload_cmd(),
            r@.find == FindAt::LineStart,
    {
        let line: Vec<u8> = vec![58u8, 114u8, 101u8, 108u8, 111u8, 97u8, 100u8, 10u8];
        proof {
            assert(line@ =~= reload_cmd());
        }
        Exchange { line, find: FindAt::LineStart }
    }

    /// The add-modules plan.
    pub fn add_modules(&self, modules: &Vec<Vec<u8>>) -> (r: Exchange)
        ensures
            r@.line == add_cmd(modules@.map_values(|l: Vec<u8>| l@)),
            r@.find == FindAt::LineStart,
    {
        let mut line: Vec<u8> = vec![58u8, 97u8, 100u8, 100u8, 32u8];
        proof {
            assert(line@ =~= seq![58u8, 97u8, 100u8, 100u8, 32u8]);
        }
        let joined = join_spaces_exec(modules);
        append_bytes(&mut line, joined.as_slice());
        line.push(10u8);
        proof {
            assert(line@ =~= add_cmd(modules@.map_values(|l: Vec<u8>| l@)));
        }
        Exchange { line, find: FindAt::LineStart }
    }

    /// The remove-modules plan.
    pub fn remove_modules(&self, modules: &Vec<Vec<u8>>) -> (r: Exchange)
        ensures
            r@.line == unadd_cmd(modules@.map_values(|l: Vec<u8>| l@)),
            r@.find == FindAt::LineStart,
    {
        let mut line: Vec<u8> = vec![58u8, 117u8, 110u8, 97u8, 100u8, 100u8, 32u8];
        proof {
            assert(line@ =~= seq![58u8, 117u8, 110u8, 97u8, 100u8, 100u8, 32u8]);
        }
        let joined = join_spaces_exec(modules);
        append_bytes(&mut line, joined.as_slice());
        line.push(10u8);
        proof {
            assert(line@ =~= unadd_cmd(modules@.map_values(|l: Vec<u8>| l@)));
        }
        Exchange { line, find: FindAt::LineStart }
    }

    /// The interpret-module plan.
    pub fn interpret_module(&self, module: &[u8]) -> (r: Exchange)
        ensures
            r@.line == interpret_cmd(module@),
            r@.find == FindAt::LineStart,
    {
        let mut line: Vec<u8> = vec![58u8, 97u8, 100u8, 100u8, 32u8, 42u8];
        append_bytes(&mut line, module);
        line.push(10u8);
        proof {
            assert(line@ =~= interpret_cmd(module@));
        }
        Exchange { line, find: FindAt::LineStart }
    }

    /// The eval plan: bring the module's scope in, run the command, bring
    /// the scope back out.
    pub fn eval(&self, module_name: &[u8], command: &GhciCommand) -> (r: Vec<Exchange>)
        ensures
            plan_view(r@) == seq![
                ExchangeView { line: module_scope_cmd(true, module_name@), find: FindAt::LineStart },
            ] + command_exchanges(command.view_lines()) + seq![
                ExchangeView {
                    line: module_scope_cmd(false, module_name@),
                    find: FindAt::LineStart,
                },
            ],
    {
        let mut open_line: Vec<u8> = vec![
            58u8,
            109u8,
            111u8,
            100u8,
            117u8,
            108u8,
            101u8,
            32u8,
            43u8,
            32u8,
            42u8,
        ];
        append_bytes(&mut open_line, module_name);
        open_line.push(10u8);
        let mut close_line: Vec<u8> = vec![
            58u8,
            109u8,
            111u8,
            100u8,
            117u8,
            108u8,
            101u8,
            32u8,
            45u8,
            32u8,
            42u8,
        ];
        append_bytes(&mut close_line, module_name);
        close_line.push(10u8);
        proof {
            assert(open_line@ =~= module_scope_cmd(true, module_name@));
            assert(close_line@ =~= module_scope_cmd(false, module_name@));
        }
        let middle = self.run_command(command);
        let mut out: Vec<Exchange> = Vec::new();
        out.push(Exchange { line: open_line, find: FindAt::LineStart });
        let ghost after_open = plan_view(out@);
        let mut middle = middle;
        let ghost middle_v = plan_view(middle@);
        let mut k: usize = 0;
        while k < middle.len()
            invariant
                k <= middle@.len(),
                middle_v == plan_view(middle@),
                middle_v.len() == middle@.len(),
                after_open.len() == 1,
                plan_view(out@) == after_open + middle_v.subrange(0, k as int),
            decreases middle@.len() - k,
        {
            let ghost pre = out@;
            let e = Exchange {
                line: crate::bytes::copy_range(middle[k].line.as_slice(), 0, middle[k].line.len()),
                find: middle[k].find,
            };
            proof {
                assert(e@ =~~= middle_v[k as int]);
            }
            out.push(e);
            proof {
                assert(plan_view(out@) =~~= plan_view(pre).push(middle_v[k as int]));
                assert(plan_view(pre).push(middle_v[k as int]) =~~= after_open + middle_v.subrange(
                    0,
                    k + 1 as int,
                ));
            }
            k = k + 1;
        }
        proof {
            assert(middle_v.subrange(0, middle_v.len() as int) =~= middle_v);
        }
        let ghost pre = out@;
        out.push(Exchange { line: close_line, find: FindAt::LineStart });
        proof {
            assert(plan_view(out@) =~~= plan_view(pre).push(
                ExchangeView { line: module_scope_cmd(false, module_name@), find: FindAt::LineStart },
            ));
            assert(plan_view(out@) =~~= seq![
                ExchangeView { line: module_scope_cmd(true, module_name@), find: FindAt::LineStart },
            ] + command_exchanges(command.view_lines()) + seq![
                ExchangeView {
                    line: module_scope_cmd(false, module_name@),
                    find: FindAt::LineStart,
                },
            ]);
        }
        out
    }

    /// The `show paths` query line.
    pub fn show_paths(&self) -> (r: Vec<u8>)
        ensures
            r@ == show_paths_cmd(),
    {
        let v: Vec<u8> = vec![
            58u8,
            115u8,
            104u8,
            111u8,
            119u8,
            32u8,
            112u8,
            97u8,
            116u8,
            104u8,
            115u8,
            10u8,
        ];
        proof {
            assert(v@ =~= show_paths_cmd());
        }
        v
    }

    /// The `show targets` query line.
    pub fn show_targets(&self) -> (r: Vec<u8>)
        ensures
            r@ == show_targets_cmd(),
    {
        let v: Vec<u8> = vec![
            58u8,
            115u8,
            104u8,
            111u8,
            119u8,
            32u8,
            116u8,
            97u8,
            114u8,
            103u8,
            101u8,
            116u8,
            115u8,
            10u8,
        ];
        proof {
            assert(v@ =~= show_targets_cmd());
        }
        v
    }

    /// The `show modules` query line.
    pub fn show_modules(&self) -> (r: Vec<u8>)
        ensures
            r@ == show_modules_cmd(),
    {
        let v: Vec<u8> = vec![
            58u8,
            115u8,
            104u8,
            111u8,
            119u8,
            32u8,
            109u8,
            111u8,
            100u8,
            117u8,
            108u8,
            101u8,
            115u8,
            10u8,
        ];
        proof {
            assert(v@ =~= show_modules_cmd());
        }
        v
    }

    /// The quit line.
    pub fn quit(&self) -> (r: Vec<u8>)
        ensures
            r@ == quit_cmd(),
    {
        let v: Vec<u8> = vec![58u8, 113u8, 117u8, 105u8, 116u8, 10u8];
        proof {
            assert(v@ =~= quit_cmd());
        }
        v
    }
}

} // verus!
