//! Tests for glob classification, debouncing, reconciliation, the
//! dispatcher and path normalization.

use ghciwatch::debounce::DebounceWindow;
use ghciwatch::debounce::FileEventKind;
use ghciwatch::dispatch::classify_path;
use ghciwatch::dispatch::DispatchEvent;
use ghciwatch::dispatch::DispatchStep;
use ghciwatch::dispatch::Dispatcher;
use ghciwatch::dispatch::ExchangePlan;
use ghciwatch::dispatch::PathAction;
use ghciwatch::glob::GlobError;
use ghciwatch::glob::GlobMatcher;
use ghciwatch::glob::GlobSense;
use ghciwatch::modules::reconcile;
use ghciwatch::modules::LoadedModule;
use ghciwatch::modules::ModuleSet;
use ghciwatch::path::normalize_path;

fn matcher(globs: &[&str]) -> GlobMatcher {
    let raw: Vec<Vec<u8>> = globs.iter().map(|g| g.as_bytes().to_vec()).collect();
    GlobMatcher::from_globs(&raw).unwrap()
}

#[test]
fn glob_precedence_last_match_wins() {
    // ["*.hs", "!Generated.hs"]: the ignore pattern comes last, so a change
    // to Generated.hs is ignored.
    let m1 = matcher(&["*.hs", "!Generated.hs"]);
    assert_eq!(
        m1.verdict(b"/p/src/Generated.hs"),
        Some(GlobSense::Ignore)
    );
    assert_eq!(m1.verdict(b"/p/src/Main.hs"), Some(GlobSense::Match));

    // Reordered, the positive pattern matches last and wins.
    let m2 = matcher(&["!Generated.hs", "*.hs"]);
    assert_eq!(m2.verdict(b"/p/src/Generated.hs"), Some(GlobSense::Match));

    // No pattern matches: the caller's default applies.
    let m3 = matcher(&["*.hs"]);
    assert_eq!(m3.verdict(b"/p/README.md"), None);
}

#[test]
fn glob_star_does_not_cross_directories() {
    let m = matcher(&["src/*.hs"]);
    assert_eq!(m.verdict(b"/p/src/Main.hs"), Some(GlobSense::Match));
    assert_eq!(m.verdict(b"/p/src/sub/Main.hs"), None);

    let deep = matcher(&["src/**/*.hs"]);
    assert_eq!(deep.verdict(b"/p/src/sub/Main.hs"), Some(GlobSense::Match));
}

#[test]
fn glob_empty_pattern_is_a_startup_error() {
    let raw: Vec<Vec<u8>> = vec![b"*.hs".to_vec(), b"!".to_vec()];
    assert_eq!(
        GlobMatcher::from_globs(&raw).unwrap_err(),
        GlobError::EmptyPattern(1)
    );
}

#[test]
fn debounce_coalesces_repeated_events() {
    // N modify events on the same path within the window produce one batch
    // entry referencing that path once.
    let mut w = DebounceWindow::new();
    for _ in 0..5 {
        w.record(b"/p/src/Main.hs", FileEventKind::Modify);
    }
    assert_eq!(w.len(), 1);
    w.record(b"/p/src/Other.hs", FileEventKind::Create);
    assert_eq!(w.len(), 2);

    let batch = w.fire();
    assert_eq!(w.len(), 0);
    assert_eq!(batch.len(), 2);
    assert_eq!(batch[0].path, b"/p/src/Main.hs".to_vec());
}

#[test]
fn debounce_last_kind_wins() {
    let mut w = DebounceWindow::new();
    w.record(b"/p/src/Main.hs", FileEventKind::Create);
    w.record(b"/p/src/Main.hs", FileEventKind::Remove);
    let batch = w.fire();
    assert_eq!(batch.len(), 1);
    assert_eq!(batch[0].kind, FileEventKind::Remove);
}

fn set_of(entries: &[(&str, &str)]) -> ModuleSet {
    let mut s = ModuleSet::new();
    for (name, path) in entries {
        s.insert(LoadedModule {
            name: name.as_bytes().to_vec(),
            path: path.as_bytes().to_vec(),
        });
    }
    s
}

#[test]
fn reconcile_self_is_empty() {
    // Reconciling a set against its own paths asks for nothing.
    let loaded = set_of(&[("A", "/p/A.hs"), ("B", "/p/B.hs")]);
    let target = vec![b"/p/A.hs".to_vec(), b"/p/B.hs".to_vec()];
    let r = reconcile(&loaded, &target);
    assert!(r.added.is_empty());
    assert!(r.removed.is_empty());
}

#[test]
fn reconcile_round_trip_reaches_target() {
    // A -> B -> A ends exactly where reconciling A directly ends: the
    // module set is a function of the target alone.
    let a = set_of(&[("A", "/p/A.hs"), ("B", "/p/B.hs")]);
    let target_b = vec![b"/p/B.hs".to_vec(), b"/p/C.hs".to_vec()];
    let r1 = reconcile(&a, &target_b);
    assert_eq!(r1.added, vec![b"/p/C.hs".to_vec()]);
    assert_eq!(r1.removed.len(), 1);
    assert_eq!(r1.removed[0].path, b"/p/A.hs".to_vec());

    // Apply, then go back to A's paths.
    let b = set_of(&[("B", "/p/B.hs"), ("C", "/p/C.hs")]);
    let target_a = vec![b"/p/A.hs".to_vec(), b"/p/B.hs".to_vec()];
    let r2 = reconcile(&b, &target_a);
    assert_eq!(r2.added, vec![b"/p/A.hs".to_vec()]);
    assert_eq!(r2.removed[0].path, b"/p/C.hs".to_vec());
}

#[test]
fn reconcile_filters_non_source_paths() {
    let loaded = set_of(&[("A", "/p/A.hs")]);
    let target = vec![b"/p/A.hs".to_vec(), b"/p/notes.txt".to_vec()];
    let r = reconcile(&loaded, &target);
    assert!(r.added.is_empty());
    assert!(r.removed.is_empty());
}

#[test]
fn reconcile_deduplicates_added_paths() {
    let loaded = ModuleSet::new();
    let target = vec![b"/p/A.hs".to_vec(), b"/p/A.hs".to_vec()];
    let r = reconcile(&loaded, &target);
    assert_eq!(r.added, vec![b"/p/A.hs".to_vec()]);
}

#[test]
fn classify_defaults() {
    let restart = matcher(&[]);
    let reload = matcher(&[]);
    assert_eq!(
        classify_path(&restart, &reload, b"/p/app.cabal"),
        PathAction::Restart
    );
    assert_eq!(
        classify_path(&restart, &reload, b"/p/.ghci"),
        PathAction::Restart
    );
    assert_eq!(
        classify_path(&restart, &reload, b"/p/src/Main.hs"),
        PathAction::Reload
    );
    assert_eq!(
        classify_path(&restart, &reload, b"/p/README.md"),
        PathAction::Ignore
    );
}

#[test]
fn classify_globs_override_defaults() {
    let restart = matcher(&["**/package.yaml"]);
    let reload = matcher(&["*.hs", "!Generated.hs"]);
    assert_eq!(
        classify_path(&restart, &reload, b"/p/package.yaml"),
        PathAction::Restart
    );
    assert_eq!(
        classify_path(&restart, &reload, b"/p/src/Generated.hs"),
        PathAction::Ignore
    );
}

#[test]
fn dispatcher_debounces_then_reloads() {
    let mut d = Dispatcher::new(matcher(&[]), matcher(&[]));
    let step = d.step(DispatchEvent::FileChanged(
        b"/p/src/Main.hs".to_vec(),
        FileEventKind::Modify,
    ));
    assert!(matches!(step, DispatchStep::ArmTimer));
    // Another event within the window re-arms the timer.
    let step = d.step(DispatchEvent::FileChanged(
        b"/p/src/Main.hs".to_vec(),
        FileEventKind::Modify,
    ));
    assert!(matches!(step, DispatchStep::ArmTimer));

    let step = d.step(DispatchEvent::TimerFired);
    match step {
        DispatchStep::Start(ExchangePlan::Reload(paths)) => {
            // The debounced path appears once.
            assert_eq!(paths, vec![b"/p/src/Main.hs".to_vec()]);
        }
        other => panic!("expected a reload exchange, got {:?}", other),
    }

    // Events during the exchange are queued for the next cycle, not
    // interleaved.
    let step = d.step(DispatchEvent::FileChanged(
        b"/p/src/Lib.hs".to_vec(),
        FileEventKind::Modify,
    ));
    assert!(matches!(step, DispatchStep::Wait));
    let step = d.step(DispatchEvent::ExchangeDone);
    assert!(matches!(step, DispatchStep::ArmTimer));
    let step = d.step(DispatchEvent::TimerFired);
    match step {
        DispatchStep::Start(ExchangePlan::Reload(paths)) => {
            assert_eq!(paths, vec![b"/p/src/Lib.hs".to_vec()]);
        }
        other => panic!("expected a reload exchange, got {:?}", other),
    }
    let step = d.step(DispatchEvent::ExchangeDone);
    assert!(matches!(step, DispatchStep::Wait));
}

#[test]
fn dispatcher_restart_supersedes_reloads() {
    let mut d = Dispatcher::new(matcher(&[]), matcher(&[]));
    d.step(DispatchEvent::FileChanged(
        b"/p/src/Main.hs".to_vec(),
        FileEventKind::Modify,
    ));
    d.step(DispatchEvent::FileChanged(
        b"/p/app.cabal".to_vec(),
        FileEventKind::Modify,
    ));
    let step = d.step(DispatchEvent::TimerFired);
    assert!(matches!(step, DispatchStep::Start(ExchangePlan::Restart)));
}

#[test]
fn dispatcher_ignored_batch_goes_idle() {
    let mut d = Dispatcher::new(matcher(&[]), matcher(&[]));
    d.step(DispatchEvent::FileChanged(
        b"/p/README.md".to_vec(),
        FileEventKind::Modify,
    ));
    let step = d.step(DispatchEvent::TimerFired);
    assert!(matches!(step, DispatchStep::Wait));
}

#[test]
fn normalize_resolves_dots_and_relative_paths() {
    assert_eq!(normalize_path(b"/a", b"/a/Main.hs"), b"/a/Main.hs".to_vec());
    assert_eq!(normalize_path(b"/a/b", b"../c/./d.hs"), b"/a/c/d.hs".to_vec());
    assert_eq!(normalize_path(b"/a", b"x//y.hs"), b"/a/x/y.hs".to_vec());
    assert_eq!(normalize_path(b"/", b".."), b"/".to_vec());
}
