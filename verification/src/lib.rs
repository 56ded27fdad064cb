//! Supervisor core for a long-lived interactive compiler REPL session.
//!
//! The library is the verified heart of a file-watching REPL driver: it finds
//! protocol markers (prompts) inside an unbounded byte stream without
//! re-scanning consumed data, classifies streamed compiler output into
//! structured diagnostics, reconciles the REPL's loaded module set against the
//! watched file set, and turns filesystem events into the minimal set of REPL
//! commands.  All I/O (the subprocess, the filesystem watcher, the terminal)
//! lives outside the library and hands it plain values.

pub mod ansi;
pub mod bytes;
pub mod debounce;
pub mod dispatch;
pub mod diagnostics;
pub mod drain;
pub mod glob;
pub mod modules;
pub mod opts;
pub mod path;
pub mod reader;
pub mod showparse;
pub mod stdin;
pub mod tui;
