//! Tests for the configuration surface: TUI actions and option assembly.

use ghciwatch::opts::TuiAction;
use ghciwatch::opts::TuiActionCommand;
use ghciwatch::opts::TuiOpts;
use ghciwatch::stdin::classify_write_error;
use ghciwatch::stdin::GhciError;
use ghciwatch::stdin::WriteErrorKind;

#[test]
fn test_tui_action_from_str_valid() {
    let action: TuiAction = TuiAction::from_str("Reload All:git diff --name-only | xargs touch")
        .unwrap();
    assert_eq!(action.label, "Reload All");
    assert!(matches!(
        action.command,
        TuiActionCommand::Shell(ref cmd) if cmd == "git diff --name-only | xargs touch"
    ));
}

#[test]
fn test_tui_action_from_str_with_spaces() {
    let action: TuiAction = TuiAction::from_str("My Action  :  echo hello  ").unwrap();
    assert_eq!(action.label, "My Action");
    assert!(matches!(
        action.command,
        TuiActionCommand::Shell(ref cmd) if cmd == "echo hello"
    ));
}

#[test]
fn test_tui_action_from_str_with_colon_in_command() {
    let action: TuiAction =
        TuiAction::from_str("Run Test:cabal test --test-option=--match=/Foo/Bar:").unwrap();
    assert_eq!(action.label, "Run Test");
    assert!(matches!(
        action.command,
        TuiActionCommand::Shell(ref cmd) if cmd == "cabal test --test-option=--match=/Foo/Bar:"
    ));
}

#[test]
fn test_tui_action_from_str_invalid() {
    let result: Result<TuiAction, _> = TuiAction::from_str("InvalidAction");
    assert!(result.is_err());
    assert!(result.unwrap_err().contains("Expected 'LABEL:COMMAND'"));
}

#[test]
fn test_tui_action_from_str_internal() {
    let action: TuiAction = TuiAction::from_str("Toggle Warnings:@toggle-track-warnings").unwrap();
    assert_eq!(action.label, "Toggle Warnings");
    assert!(matches!(
        action.command,
        TuiActionCommand::Internal(ref cmd) if cmd == "toggle-track-warnings"
    ));
}

#[test]
fn test_tui_action_default_reload_all() {
    let action = TuiAction::default_reload_all();
    assert_eq!(action.label, "Reload All");
    assert!(matches!(
        action.command,
        TuiActionCommand::Shell(ref cmd) if cmd == "cd \"$(git rev-parse --show-toplevel)\" && git diff --name-only | xargs -r touch"
    ));
}

#[test]
fn test_tui_action_default_toggle_warnings() {
    let action = TuiAction::default_toggle_warnings();
    assert_eq!(action.label, "Toggle Warnings");
    assert!(matches!(
        action.command,
        TuiActionCommand::Internal(ref cmd) if cmd == "toggle-track-warnings"
    ));
}

#[test]
fn test_tui_action_default_toggle_no_load() {
    let action = TuiAction::default_toggle_no_load();
    assert_eq!(action.label, "Toggle No-Load");
    assert!(matches!(
        action.command,
        TuiActionCommand::Internal(ref cmd) if cmd == "toggle-no-load"
    ));
}

#[test]
fn test_tui_opts_get_actions_default_only() {
    let opts = TuiOpts::default();
    let actions = opts.get_actions();
    assert_eq!(actions.len(), 3);
    assert_eq!(actions[0].label, "Reload All");
    assert_eq!(actions[1].label, "Toggle Warnings");
    assert_eq!(actions[2].label, "Toggle No-Load");
}

#[test]
fn test_tui_opts_get_actions_with_custom() {
    let opts = TuiOpts {
        actions: vec![
            TuiAction::from_str("Custom 1:echo one").unwrap(),
            TuiAction::from_str("Custom 2:echo two").unwrap(),
        ],
    };
    let actions = opts.get_actions();
    assert_eq!(actions.len(), 5);
    assert_eq!(actions[0].label, "Reload All");
    assert_eq!(actions[1].label, "Toggle Warnings");
    assert_eq!(actions[2].label, "Toggle No-Load");
    assert_eq!(actions[3].label, "Custom 1");
    assert_eq!(actions[4].label, "Custom 2");
}

#[test]
fn test_tui_opts_get_actions_truncates_at_nine() {
    let opts = TuiOpts {
        actions: (1..=10)
            .map(|i| TuiAction::from_str(&format!("Action {}:echo {}", i, i)).unwrap())
            .collect(),
    };
    let actions = opts.get_actions();
    assert_eq!(actions.len(), 9); // 3 default + 6 custom (truncated from 10)
}

#[test]
fn test_broken_pipe_error_kind_detection() {
    // The session distinguishes a closed pipe from every other I/O failure.
    let broken_pipe = std::io::Error::new(std::io::ErrorKind::BrokenPipe, "pipe broken");
    let kind = if broken_pipe.kind() == std::io::ErrorKind::BrokenPipe {
        WriteErrorKind::BrokenPipe
    } else {
        WriteErrorKind::Other
    };
    assert_eq!(classify_write_error(kind), GhciError::ProcessExited);

    let other_error = std::io::Error::new(std::io::ErrorKind::ConnectionReset, "connection reset");
    let kind = if other_error.kind() == std::io::ErrorKind::BrokenPipe {
        WriteErrorKind::BrokenPipe
    } else {
        WriteErrorKind::Other
    };
    assert_eq!(classify_write_error(kind), GhciError::Io);
}

#[test]
fn test_opts_init_defaults_to_src() {
    let mut opts = ghciwatch::opts::Opts {
        command: None,
        file: None,
        error_file: None,
        enable_eval: false,
        clear: false,
        no_interrupt_reloads: false,
        tui: false,
        tui_opts: TuiOpts::default(),
        track_warnings: false,
        watch: ghciwatch::opts::WatchOpts {
            poll: None,
            debounce: 500,
            paths: Vec::new(),
            reload_globs: Vec::new(),
            restart_globs: Vec::new(),
        },
        logging: ghciwatch::opts::LoggingOpts {
            log_filter: String::from("info"),
            backtrace: String::from("0"),
            trace_spans: Vec::new(),
            log_json: None,
        },
    };
    opts.init(b"/work/project");
    assert_eq!(opts.watch.paths.len(), 1);
    assert_eq!(opts.watch.paths[0], b"/work/project/src".to_vec());
}

#[test]
fn test_opts_init_watches_given_file() {
    let mut opts = ghciwatch::opts::Opts {
        command: None,
        file: Some(b"/work/project/Main.hs".to_vec()),
        error_file: None,
        enable_eval: false,
        clear: false,
        no_interrupt_reloads: false,
        tui: false,
        tui_opts: TuiOpts::default(),
        track_warnings: false,
        watch: ghciwatch::opts::WatchOpts {
            poll: None,
            debounce: 500,
            paths: Vec::new(),
            reload_globs: Vec::new(),
            restart_globs: Vec::new(),
        },
        logging: ghciwatch::opts::LoggingOpts {
            log_filter: String::from("info"),
            backtrace: String::from("0"),
            trace_spans: Vec::new(),
            log_json: None,
        },
    };
    opts.init(b"/work/project");
    assert_eq!(opts.watch.paths, vec![b"/work/project/Main.hs".to_vec()]);
}
