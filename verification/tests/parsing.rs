//! Tests for the output parsers: query responses, diagnostics, progress
//! lines and ANSI stripping.

use ghciwatch::ansi::strip_ansi;
use ghciwatch::diagnostics::CompilationLog;
use ghciwatch::diagnostics::Severity;
use ghciwatch::diagnostics::Verdict;
use ghciwatch::modules::ModuleSet;
use ghciwatch::modules::ShowPaths;
use ghciwatch::showparse::parse_show_modules;
use ghciwatch::showparse::parse_show_paths;
use ghciwatch::showparse::parse_show_targets;

fn lines_of(text: &str) -> Vec<Vec<u8>> {
    text.lines().map(|l| l.as_bytes().to_vec()).collect()
}

fn find_name<'a>(set: &'a ModuleSet, path: &[u8]) -> Option<Vec<u8>> {
    for i in 0..set.len() {
        let m = set.get(i);
        if m.path == path {
            return Some(m.name.clone());
        }
    }
    None
}

#[test]
fn test_parse_show_modules() {
    let show_paths = ShowPaths {
        cwd: b"/Users/test/project".to_vec(),
        search_paths: vec![],
    };

    let input = lines_of(
        "Main             ( /Users/test/project/test-main/Main.hs, interpreted )\n\
         MyLib            ( /Users/test/project/src/MyLib.hs, interpreted )\n\
         MyModule         ( /Users/test/project/src/MyModule.hs, interpreted )\n\
         TestMain         ( /Users/test/project/test/TestMain.hs, interpreted )",
    );

    let result = parse_show_modules(&show_paths, &input).unwrap();
    assert_eq!(result.len(), 4);

    assert_eq!(
        find_name(&result, b"/Users/test/project/test-main/Main.hs"),
        Some(b"Main".to_vec())
    );
    assert_eq!(
        find_name(&result, b"/Users/test/project/src/MyLib.hs"),
        Some(b"MyLib".to_vec())
    );
    assert_eq!(
        find_name(&result, b"/Users/test/project/src/MyModule.hs"),
        Some(b"MyModule".to_vec())
    );
    assert_eq!(
        find_name(&result, b"/Users/test/project/test/TestMain.hs"),
        Some(b"TestMain".to_vec())
    );
}

#[test]
fn test_parse_show_modules_with_object_code() {
    let show_paths = ShowPaths {
        cwd: b"/home/user/project".to_vec(),
        search_paths: vec![],
    };

    let input = lines_of(
        "Lib              ( /home/user/project/src/Lib.hs, /home/user/project/dist/build/Lib.o )\n\
         Main             ( /home/user/project/app/Main.hs, interpreted )",
    );

    let result = parse_show_modules(&show_paths, &input).unwrap();
    assert_eq!(result.len(), 2);

    assert_eq!(
        find_name(&result, b"/home/user/project/src/Lib.hs"),
        Some(b"Lib".to_vec())
    );
    assert_eq!(
        find_name(&result, b"/home/user/project/app/Main.hs"),
        Some(b"Main".to_vec())
    );
}

#[test]
fn parse_show_modules_malformed_is_recoverable() {
    let show_paths = ShowPaths {
        cwd: b"/p".to_vec(),
        search_paths: vec![],
    };
    // The second line has no parenthesized path: the caller falls back to
    // the target listing instead of failing fatally.
    let input = lines_of("Main ( /p/Main.hs, interpreted )\nsomething quite different");
    let err = parse_show_modules(&show_paths, &input).unwrap_err();
    assert!(matches!(
        err,
        ghciwatch::showparse::ParseError::Malformed(1)
    ));
}

#[test]
fn parse_show_modules_relative_paths_are_normalized() {
    let show_paths = ShowPaths {
        cwd: b"/p/sub".to_vec(),
        search_paths: vec![],
    };
    let input = lines_of("Main ( ../app/./Main.hs, interpreted )");
    let result = parse_show_modules(&show_paths, &input).unwrap();
    assert_eq!(result.len(), 1);
    assert_eq!(find_name(&result, b"/p/app/Main.hs"), Some(b"Main".to_vec()));
}

#[test]
fn parse_show_targets_names_against_search_paths() {
    let show_paths = ShowPaths {
        cwd: b"/p".to_vec(),
        search_paths: vec![b"src".to_vec(), b"test".to_vec()],
    };
    let input = lines_of("src/Data/Thing.hs\ntest/Main.hs\nREADME.md");
    let result = parse_show_targets(&show_paths, &input);
    assert_eq!(result.len(), 3);
    assert_eq!(
        find_name(&result, b"/p/src/Data/Thing.hs"),
        Some(b"Data.Thing".to_vec())
    );
    assert_eq!(find_name(&result, b"/p/test/Main.hs"), Some(b"Main".to_vec()));
}

#[test]
fn parse_show_paths_reads_cwd_and_search_paths() {
    let input = lines_of(
        "current working directory:\n  /a/b\nmodule import search paths:\n  src\n  test",
    );
    let sp = parse_show_paths(&input).unwrap();
    assert_eq!(sp.cwd, b"/a/b".to_vec());
    assert_eq!(sp.search_paths, vec![b"src".to_vec(), b"test".to_vec()]);
}

#[test]
fn parse_show_paths_without_values_is_malformed() {
    let input = lines_of("current working directory:");
    assert!(parse_show_paths(&input).is_err());
}

#[test]
fn diagnostics_classify_corpus() {
    // Diagnostic classification round-trip: two errors and one warning
    // interleaved with progress lines and context yield exactly those
    // counts, and the verdict is Failed.
    let mut log = CompilationLog::new();
    let corpus: Vec<&str> = vec![
        "[1 of 3] Compiling Main ( src/Main.hs, interpreted )",
        "src/Main.hs:3:1: error:",
        "    first problem",
        "",
        "[2 of 3] Compiling Lib ( src/Lib.hs, interpreted )",
        "src/Lib.hs:10:5-9: warning:",
        "    something dubious",
        "",
        "src/Lib.hs:12:1: error:",
        "    second problem",
    ];
    for line in &corpus {
        log.process_line(line.as_bytes());
    }
    assert_eq!(log.count_severity(Severity::Error), 2);
    assert_eq!(log.count_severity(Severity::Warning), 1);
    assert_eq!(log.count_severity(Severity::Note), 0);
    assert_eq!(log.verdict(), Verdict::Failed);
    assert_eq!(log.progress, Some((2, 3)));

    // A clean cycle passes.
    let mut clean = CompilationLog::new();
    clean.process_line(b"[1 of 1] Compiling Main ( src/Main.hs, interpreted )");
    clean.process_line(b"Ok, one module loaded.");
    assert_eq!(clean.count_severity(Severity::Error), 0);
    assert_eq!(clean.verdict(), Verdict::Passed);
}

#[test]
fn diagnostics_fields_are_exact() {
    let mut log = CompilationLog::new();
    log.process_line(b"src/Main.hs:3:1-4: error: [GHC-83865]");
    let d = &log.diagnostics[0];
    assert_eq!(d.file, b"src/Main.hs".to_vec());
    assert_eq!(d.line, 3);
    assert_eq!(d.column, 1);
    assert_eq!(d.column_end, Some(4));
    assert_eq!(d.severity, Severity::Error);
    assert_eq!(d.message, b" [GHC-83865]".to_vec());
}

#[test]
fn diagnostics_note_severity() {
    let mut log = CompilationLog::new();
    log.process_line(b"src/Main.hs:7:2: note:");
    assert_eq!(log.count_severity(Severity::Note), 1);
    assert_eq!(log.verdict(), Verdict::Passed);
}

#[test]
fn diagnostics_tolerate_ansi_colors() {
    let mut log = CompilationLog::new();
    // The same message-start line, wrapped in color escapes.
    log.process_line(b"\x1b[1msrc/Main.hs:3:1: \x1b[31merror:\x1b[0m");
    assert_eq!(log.count_severity(Severity::Error), 1);
    assert_eq!(log.diagnostics[0].file, b"src/Main.hs".to_vec());
}

#[test]
fn strip_ansi_removes_csi_sequences() {
    assert_eq!(strip_ansi(b"\x1b[31mred\x1b[0m plain"), b"red plain".to_vec());
    assert_eq!(strip_ansi(b"no escapes"), b"no escapes".to_vec());
    assert_eq!(strip_ansi(b"\x1b7saved"), b"saved".to_vec());
}

#[test]
fn blank_line_closes_the_open_diagnostic() {
    let mut log = CompilationLog::new();
    log.process_line(b"src/Main.hs:3:1: error:");
    log.process_line(b"    part of the message");
    log.process_line(b"");
    log.process_line(b"stray output after the block");
    assert_eq!(log.diagnostics.len(), 1);
    // The stray line was not appended: context holds the opener and the
    // message line only.
    assert_eq!(log.diagnostics[0].context_lines.len(), 2);
}
