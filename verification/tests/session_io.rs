//! Tests for the incremental reader, the drain cycles and the command
//! plans.

use ghciwatch::diagnostics::Severity;
use ghciwatch::diagnostics::Verdict;
use ghciwatch::drain::DrainCycle;
use ghciwatch::drain::QueryDrain;
use ghciwatch::modules::ShowPaths;
use ghciwatch::reader::FindAt;
use ghciwatch::reader::IncrementalReader;
use ghciwatch::showparse::parse_show_modules;
use ghciwatch::stdin::quit_write_outcome;
use ghciwatch::stdin::Exchange;
use ghciwatch::stdin::GhciCommand;
use ghciwatch::stdin::GhciStdin;
use ghciwatch::stdin::WriteErrorKind;

fn contains(haystack: &[u8], needle: &[u8]) -> bool {
    if needle.is_empty() {
        return true;
    }
    haystack
        .windows(needle.len())
        .any(|w| w == needle)
}

/// Feed a stream through a reader and collect every match.
fn splits(reader: &mut IncrementalReader, chunks: &[&[u8]]) -> Vec<Vec<u8>> {
    let mut out = Vec::new();
    for chunk in chunks {
        reader.push_chunk(chunk);
        while let Some(content) = reader.next_match() {
            out.push(content);
        }
    }
    out
}

#[test]
fn reader_chunk_size_independence() {
    // Incremental correctness: the same stream fed whole, in lines, and
    // byte by byte yields the same split points.
    let stream: &[u8] = b"banner text\nghci> output line\nmore\nghci> ";
    let markers = vec![b"ghci> ".to_vec()];

    let mut whole = IncrementalReader::new(markers.clone(), FindAt::Anywhere);
    let whole_splits = splits(&mut whole, &[stream]);

    let mut tiny = IncrementalReader::new(markers.clone(), FindAt::Anywhere);
    let byte_chunks: Vec<&[u8]> = stream.chunks(1).collect();
    let tiny_splits = splits(&mut tiny, &byte_chunks);

    let mut mid = IncrementalReader::new(markers, FindAt::Anywhere);
    let mid_chunks: Vec<&[u8]> = stream.chunks(7).collect();
    let mid_splits = splits(&mut mid, &mid_chunks);

    assert_eq!(whole_splits, tiny_splits);
    assert_eq!(whole_splits, mid_splits);
    assert_eq!(whole_splits.len(), 2);
    assert_eq!(whole_splits[0], b"banner text\n".to_vec());
    assert_eq!(whole_splits[1], b"output line\nmore\n".to_vec());
}

#[test]
fn reader_line_start_discipline() {
    // In LineStart mode a marker inside a line does not match; the same
    // bytes right after a newline do.
    let markers = vec![b"ghci> ".to_vec()];
    let mut r = IncrementalReader::new(markers.clone(), FindAt::LineStart);
    r.push_chunk(b"text mentioning ghci> inline\n");
    assert_eq!(r.next_match(), None);
    r.push_chunk(b"ghci> ");
    assert_eq!(
        r.next_match(),
        Some(b"text mentioning ghci> inline\n".to_vec())
    );

    let mut a = IncrementalReader::new(markers, FindAt::Anywhere);
    a.push_chunk(b"text mentioning ghci> inline\n");
    assert_eq!(a.next_match(), Some(b"text mentioning ".to_vec()));
}

#[test]
fn reader_end_of_stream_keeps_partial_data() {
    let mut r = IncrementalReader::new(vec![b"ghci> ".to_vec()], FindAt::LineStart);
    r.push_chunk(b"half a li");
    assert_eq!(r.next_match(), None);
    // The stream closed: the partial data is still available.
    assert_eq!(r.take_residue(), b"half a li".to_vec());
}

#[test]
fn reader_utf8_split_across_chunks() {
    // A multi-byte character split across reads is reassembled intact in
    // the returned bytes.
    let text = "héllo\nghci> ";
    let bytes = text.as_bytes();
    let markers = vec![b"ghci> ".to_vec()];
    let mut r = IncrementalReader::new(markers, FindAt::LineStart);
    // 'é' is two bytes; cut right between them.
    r.push_chunk(&bytes[..2]);
    assert_eq!(r.next_match(), None);
    r.push_chunk(&bytes[2..]);
    let content = r.next_match().unwrap();
    assert_eq!(String::from_utf8(content).unwrap(), "héllo\n");
}

#[test]
fn drain_cycle_scenario_error_block() {
    // Feeding a diagnostic block followed immediately by the prompt yields
    // one error diagnostic whose text holds "bad type", and verdict Failed.
    let prompt = b"###PROMPT###".to_vec();
    let mut drain = DrainCycle::new(prompt, FindAt::LineStart);
    let done = drain.feed_chunk(
        b"src/Main.hs:3:1: error:\n    bad type\n   |\n3 | foo\n   | ^^^\n###PROMPT###",
    );
    assert!(done);
    let log = drain.finish();
    assert_eq!(log.count_severity(Severity::Error), 1);
    assert_eq!(log.verdict(), Verdict::Failed);
    let d = &log.diagnostics[0];
    assert_eq!(d.file, b"src/Main.hs".to_vec());
    assert_eq!(d.line, 3);
    assert_eq!(d.column, 1);
    assert!(d.context_lines.iter().any(|l| contains(l, b"bad type")));
}

#[test]
fn drain_cycle_first_prompt_anywhere() {
    // The very first wait uses Anywhere: banner text precedes the prompt on
    // the same line.
    let prompt = b"###PROMPT###".to_vec();
    let mut drain = DrainCycle::new(prompt, FindAt::Anywhere);
    assert!(!drain.feed_chunk(b"GHCi, version 9.6.3\nLoaded "));
    assert!(drain.feed_chunk(b"package environment###PROMPT###"));
    let log = drain.finish();
    assert_eq!(log.verdict(), Verdict::Passed);
}

#[test]
fn drain_cycle_is_chunking_tolerant_across_prompt() {
    // The prompt split across two reads is still found.
    let prompt = b"###PROMPT###".to_vec();
    let mut drain = DrainCycle::new(prompt, FindAt::LineStart);
    assert!(!drain.feed_chunk(b"all good\n###PRO"));
    assert!(drain.feed_chunk(b"MPT###"));
}

#[test]
fn query_drain_scenario_show_modules() {
    // A show-modules response followed by the prompt yields a module set of
    // size one with the normalized path.
    let prompt = b"###PROMPT###".to_vec();
    let mut q = QueryDrain::new(prompt);
    let done = q.feed_chunk(b"Main ( /a/Main.hs, interpreted )\n###PROMPT###");
    assert!(done);
    let lines = q.finish();
    let sp = ShowPaths { cwd: b"/a".to_vec(), search_paths: vec![] };
    let set = parse_show_modules(&sp, &lines).unwrap();
    assert_eq!(set.len(), 1);
    assert_eq!(set.get(0).name, b"Main".to_vec());
    assert_eq!(set.get(0).path, b"/a/Main.hs".to_vec());
}

#[test]
fn command_plans_compose_exact_bytes() {
    let stdin = GhciStdin::new(b"###PROMPT###".to_vec());
    let reload = stdin.reload();
    assert_eq!(reload.line, b":reload\n".to_vec());

    let add = stdin.add_modules(&vec![b"src/A.hs".to_vec(), b"src/B.hs".to_vec()]);
    assert_eq!(add.line, b":add src/A.hs src/B.hs\n".to_vec());

    let remove = stdin.remove_modules(&vec![b"src/A.hs".to_vec()]);
    assert_eq!(remove.line, b":unadd src/A.hs\n".to_vec());

    let interpret = stdin.interpret_module(b"My.Module");
    assert_eq!(interpret.line, b":add *My.Module\n".to_vec());

    assert_eq!(stdin.show_paths(), b":show paths\n".to_vec());
    assert_eq!(stdin.show_targets(), b":show targets\n".to_vec());
    assert_eq!(stdin.show_modules(), b":show modules\n".to_vec());
    assert_eq!(stdin.quit(), b":quit\n".to_vec());
}

#[test]
fn initialize_plan_sets_both_prompts() {
    let stdin = GhciStdin::new(b"%P%".to_vec());
    let plan: Vec<Exchange> = stdin.initialize();
    assert_eq!(plan.len(), 2);
    assert_eq!(plan[0].line, b":set prompt %P%\n".to_vec());
    assert_eq!(plan[0].find, FindAt::Anywhere);
    assert_eq!(plan[1].line, b":set prompt-cont %P%\n".to_vec());
    assert_eq!(plan[1].find, FindAt::LineStart);
}

#[test]
fn eval_plan_brackets_with_module_scope() {
    let stdin = GhciStdin::new(b"%P%".to_vec());
    let cmd = GhciCommand::new(vec![b"fmap (+1) [1,2]".to_vec()]);
    let plan = stdin.eval(b"My.Module", &cmd);
    assert_eq!(plan.len(), 3);
    assert_eq!(plan[0].line, b":module + *My.Module\n".to_vec());
    assert_eq!(plan[1].line, b"fmap (+1) [1,2]\n".to_vec());
    assert_eq!(plan[2].line, b":module - *My.Module\n".to_vec());
}

#[test]
fn run_command_plans_each_line() {
    let stdin = GhciStdin::new(b"%P%".to_vec());
    let cmd = GhciCommand::new(vec![b"first".to_vec(), b"second".to_vec()]);
    let plan = stdin.run_command(&cmd);
    assert_eq!(plan.len(), 2);
    assert_eq!(plan[0].line, b"first\n".to_vec());
    assert_eq!(plan[1].line, b"second\n".to_vec());
    assert_eq!(plan[0].find, FindAt::LineStart);
}

#[test]
fn quit_treats_broken_pipe_as_success() {
    assert!(quit_write_outcome(None).is_ok());
    assert!(quit_write_outcome(Some(WriteErrorKind::BrokenPipe)).is_ok());
    assert!(quit_write_outcome(Some(WriteErrorKind::Other)).is_err());
}
