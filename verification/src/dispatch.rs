//! The event dispatcher: debounced filesystem events in, protocol work out.
//!
//! The dispatcher is a state machine `Idle → Pending → Reconciling → Idle`.
//! Events arriving while `Pending` reset the timer and merge into the
//! pending batch; on timer fire the batch is classified through the restart
//! and reload glob matchers, and one exchange plan comes out — any restart
//! verdict supersedes every pending reload, relaunching the whole session.
//! Only one exchange is ever in flight: events arriving while `Reconciling`
//! are queued into the next cycle, never interleaved into the active
//! exchange.  The caller owns the timer and the subprocess; the dispatcher
//! only decides.

use vstd::prelude::*;

use crate::debounce::record_spec;
use crate::debounce::DebounceWindow;
use crate::debounce::FileEventKind;
use crate::debounce::PendView;
use crate::glob::matcher_verdict;
use crate::glob::GlobEntryView;
use crate::glob::GlobMatcher;
use crate::glob::GlobSense;
use crate::modules::paths_view;
use crate::path::is_haskell_source;

verus! {

/// A raw event entering the dispatcher, from the watcher or the UI.
#[derive(Debug)]
pub enum WatcherEvent {
    Modify(Vec<u8>),
    Create(Vec<u8>),
    Remove(Vec<u8>),
    /// A user-triggered action: the shell command to run.
    Action(Vec<u8>),
}

/// A watcher event routed to its consumer: path events go to the
/// dispatcher's debounce window, user actions run outside the protocol.
#[derive(Debug)]
pub enum RoutedEvent {
    /// Merge into the dispatcher as a filesystem change.
    File(Vec<u8>, FileEventKind),
    /// Run this shell or internal command.
    RunAction(Vec<u8>),
}

/// Route one raw event: each path event keeps its path and kind, an action
/// carries its command through.
pub fn route_event(e: WatcherEvent) -> (r: RoutedEvent)
    ensures
        match e {
            WatcherEvent::Modify(p) => r matches RoutedEvent::File(q, k) && q@ == p@ && k
                == FileEventKind::Modify,
            WatcherEvent::Create(p) => r matches RoutedEvent::File(q, k) && q@ == p@ && k
                == FileEventKind::Create,
            WatcherEvent::Remove(p) => r matches RoutedEvent::File(q, k) && q@ == p@ && k
                == FileEventKind::Remove,
            WatcherEvent::Action(cmd) => r matches RoutedEvent::RunAction(c) && c@ == cmd@,
        },
{
    match e {
        WatcherEvent::Modify(p) => RoutedEvent::File(p, FileEventKind::Modify),
        WatcherEvent::Create(p) => RoutedEvent::File(p, FileEventKind::Create),
        WatcherEvent::Remove(p) => RoutedEvent::File(p, FileEventKind::Remove),
        WatcherEvent::Action(cmd) => RoutedEvent::RunAction(cmd),
    }
}

/// What one changed path asks of the session.
#[derive(Clone, Copy, Debug, PartialEq, Eq, Structural)]
pub enum PathAction {
    Reload,
    Restart,
    Ignore,
}

/// A path that restarts the session by default: a build or REPL
/// configuration file (`.cabal` or `.ghci`).
pub open spec fn default_restart(path: Seq<u8>) -> bool {
    seq![46u8, 99u8, 97u8, 98u8, 97u8, 108u8].is_suffix_of(path) || seq![
        46u8,
        103u8,
        104u8,
        99u8,
        105u8,
    ].is_suffix_of(path)
}

/// Classify one path: the restart matcher speaks first (defaulting to build
/// configuration files), then the reload matcher (defaulting to Haskell
/// source files), else the change is ignored.
pub open spec fn classify_spec(
    restart: Seq<GlobEntryView>,
    reload: Seq<GlobEntryView>,
    path: Seq<u8>,
) -> PathAction {
    let rv = matcher_verdict(restart, path);
    if rv == Some(GlobSense::Match) || (rv is None && default_restart(path)) {
        PathAction::Restart
    } else {
        let lv = matcher_verdict(reload, path);
        if lv == Some(GlobSense::Match) || (lv is None && is_haskell_source(path)) {
            PathAction::Reload
        } else {
            PathAction::Ignore
        }
    }
}

/// Whether some path of the batch classifies as a restart.
pub open spec fn any_restart(
    restart: Seq<GlobEntryView>,
    reload: Seq<GlobEntryView>,
    batch: Seq<PendView>,
) -> bool {
    exists|i: int|
        0 <= i < batch.len() && classify_spec(restart, reload, batch[i].path) == PathAction::Restart
}

/// The batch paths that classify as reloads, in batch order.
pub open spec fn reload_paths_spec(
    restart: Seq<GlobEntryView>,
    reload: Seq<GlobEntryView>,
    batch: Seq<PendView>,
) -> Seq<Seq<u8>>
    decreases batch.len(),
{
    if batch.len() == 0 {
        Seq::empty()
    } else {
        let pre = reload_paths_spec(restart, reload, batch.drop_last());
        if classify_spec(restart, reload, batch.last().path) == PathAction::Reload {
            pre.push(batch.last().path)
        } else {
            pre
        }
    }
}

/// The one protocol exchange a fired batch asks for.
#[derive(Debug)]
pub enum ExchangePlan {
    /// Kill and relaunch the whole session; the module set and the working
    /// context are recaptured from scratch.
    Restart,
    /// Reconcile the loaded set against these paths, then reload in place.
    Reload(Vec<Vec<u8>>),
}

/// What the dispatcher asks its caller to do after one event.
#[derive(Debug)]
pub enum DispatchStep {
    /// Nothing; keep waiting.
    Wait,
    /// (Re-)arm the debounce timer.
    ArmTimer,
    /// Begin the planned exchange; the dispatcher is now reconciling.
    Start(ExchangePlan),
}

/// The dispatcher's phase.
#[derive(Clone, Copy, Debug, PartialEq, Eq, Structural)]
pub enum DispatchPhase {
    Idle,
    Pending,
    Reconciling,
}

/// An event the dispatcher's select loop hands in.
#[derive(Debug)]
pub enum DispatchEvent {
    /// A classified filesystem event on a path.
    FileChanged(Vec<u8>, FileEventKind),
    /// The debounce timer fired.
    TimerFired,
    /// The in-flight exchange finished (successfully or not).
    ExchangeDone,
}

/// Classify one path through the two matchers.
pub fn classify_path(restart: &GlobMatcher, reload: &GlobMatcher, path: &[u8]) -> (r: PathAction)
    ensures
        r == classify_spec(restart.entries_view(), reload.entries_view(), path@),
{
    let cabal: Vec<u8> = vec![46u8, 99u8, 97u8, 98u8, 97u8, 108u8];
    let ghci: Vec<u8> = vec![46u8, 103u8, 104u8, 99u8, 105u8];
    proof {
        assert(cabal@ =~= seq![46u8, 99u8, 97u8, 98u8, 97u8, 108u8]);
        assert(ghci@ =~= seq![46u8, 103u8, 104u8, 99u8, 105u8]);
    }
    let rv = restart.verdict(path);
    let is_restart = match rv {
        Some(GlobSense::Match) => true,
        Some(GlobSense::Ignore) => false,
        None => crate::bytes::ends_with(path, cabal.as_slice()) || crate::bytes::ends_with(
            path,
            ghci.as_slice(),
        ),
    };
    if is_restart {
        return PathAction::Restart;
    }
    let lv = reload.verdict(path);
    let is_reload = match lv {
        Some(GlobSense::Match) => true,
        Some(GlobSense::Ignore) => false,
        None => crate::path::is_haskell_source_path(path),
    };
    if is_reload {
        PathAction::Reload
    } else {
        PathAction::Ignore
    }
}

/// The serialized event dispatcher.
#[derive(Debug)]
pub struct Dispatcher {
    phase: DispatchPhase,
    window: DebounceWindow,
    queued: DebounceWindow,
    restart_globs: GlobMatcher,
    reload_globs: GlobMatcher,
}

impl Dispatcher {
    /// The current phase.
    pub closed spec fn phase(self) -> DispatchPhase {
        self.phase
    }

    /// The batch coalescing in the debounce window.
    pub closed spec fn pending_batch(self) -> Seq<PendView> {
        self.window.batch()
    }

    /// The batch queued behind the in-flight exchange.
    pub closed spec fn queued_batch(self) -> Seq<PendView> {
        self.queued.batch()
    }

    /// The restart matcher's entries.
    pub closed spec fn restart_entries(self) -> Seq<GlobEntryView> {
        self.restart_globs.entries_view()
    }

    /// The reload matcher's entries.
    pub closed spec fn reload_entries(self) -> Seq<GlobEntryView> {
        self.reload_globs.entries_view()
    }

    /// Batches stay coalesced.
    pub closed spec fn wf(self) -> bool {
        self.window.wf() && self.queued.wf()
    }

    /// A dispatcher in its idle phase.
    pub fn new(restart_globs: GlobMatcher, reload_globs: GlobMatcher) -> (r: Dispatcher)
        ensures
            r.wf(),
            r.phase() == DispatchPhase::Idle,
            r.pending_batch() == Seq::<PendView>::empty(),
            r.queued_batch() == Seq::<PendView>::empty(),
            r.restart_entries() == restart_globs.entries_view(),
            r.reload_entries() == reload_globs.entries_view(),
    {
        Dispatcher {
            phase: DispatchPhase::Idle,
            window: DebounceWindow::new(),
            queued: DebounceWindow::new(),
            restart_globs,
            reload_globs,
        }
    }

    /// Feed one event; the returned step is what the caller must do.
    ///
    /// An exchange starts only out of the pending phase, so at most one is
    /// in flight; events arriving while reconciling merge into the queued
    /// batch for the next cycle.
    pub fn step(&mut self, event: DispatchEvent) -> (r: DispatchStep)
        requires
            old(self).wf(),
        ensures
            final(self).wf(),
            final(self).restart_entries() == old(self).restart_entries(),
            final(self).reload_entries() == old(self).reload_entries(),
            match event {
                DispatchEvent::FileChanged(p, k) => {
                    if old(self).phase() == DispatchPhase::Reconciling {
                        &&& final(self).phase() == DispatchPhase::Reconciling
                        &&& final(self).queued_batch() == record_spec(
                            old(self).queued_batch(),
                            p@,
                            k,
                        )
                        &&& final(self).pending_batch() == old(self).pending_batch()
                        &&& r is Wait
                    } else {
                        &&& final(self).phase() == DispatchPhase::Pending
                        &&& final(self).pending_batch() == record_spec(
                            old(self).pending_batch(),
                            p@,
                            k,
                        )
                        &&& final(self).queued_batch() == old(self).queued_batch()
                        &&& r is ArmTimer
                    }
                },
                DispatchEvent::TimerFired => {
                    if old(self).phase() == DispatchPhase::Pending {
                        let batch = old(self).pending_batch();
                        let restart = old(self).restart_entries();
                        let reload = old(self).reload_entries();
                        &&& final(self).pending_batch() == Seq::<PendView>::empty()
                        &&& final(self).queued_batch() == old(self).queued_batch()
                        &&& match r {
                            DispatchStep::Start(plan) => {
                                &&& final(self).phase() == DispatchPhase::Reconciling
                                &&& match plan {
                                    ExchangePlan::Restart => any_restart(restart, reload, batch),
                                    ExchangePlan::Reload(ps) => {
                                        &&& !any_restart(restart, reload, batch)
                                        &&& paths_view(ps@) == reload_paths_spec(
                                            restart,
                                            reload,
                                            batch,
                                        )
                                        &&& ps@.len() > 0
                                    },
                                }
                            },
                            DispatchStep::Wait => {
                                &&& final(self).phase() == DispatchPhase::Idle
                                &&& !any_restart(restart, reload, batch)
                                &&& reload_paths_spec(restart, reload, batch) == Seq::<
                                    Seq<u8>,
                                >::empty()
                            },
                            DispatchStep::ArmTimer => false,
                        }
                    } else {
                        &&& final(self).phase() == old(self).phase()
                        &&& final(self).pending_batch() == old(self).pending_batch()
                        &&& final(self).queued_batch() == old(self).queued_batch()
                        &&& r is Wait
                    }
                },
                DispatchEvent::ExchangeDone => {
                    if old(self).phase() == DispatchPhase::Reconciling {
                        if old(self).queued_batch().len() > 0 {
                            &&& final(self).phase() == DispatchPhase::Pending
                            &&& final(self).pending_batch() == old(self).queued_batch()
                            &&& final(self).queued_batch() == Seq::<PendView>::empty()
                            &&& r is ArmTimer
                        } else {
                            &&& final(self).phase() == DispatchPhase::Idle
                            &&& final(self).pending_batch() == old(self).pending_batch()
                            &&& final(self).queued_batch() == old(self).queued_batch()
                            &&& r is Wait
                        }
                    } else {
                        &&& final(self).phase() == old(self).phase()
                        &&& final(self).pending_batch() == old(self).pending_batch()
                        &&& final(self).queued_batch() == old(self).queued_batch()
                        &&& r is Wait
                    }
                },
            },
    {
        match event {
            DispatchEvent::FileChanged(p, k) => {
                if matches!(self.phase, DispatchPhase::Reconciling) {
                    self.queued.record(p.as_slice(), k);
                    DispatchStep::Wait
                } else {
                    self.phase = DispatchPhase::Pending;
                    self.window.record(p.as_slice(), k);
                    DispatchStep::ArmTimer
                }
            }
            DispatchEvent::TimerFired => {
                if matches!(self.phase, DispatchPhase::Pending) {
                    let batch = self.window.fire();
                    let ghost bv = crate::debounce::pend_view(batch@);
                    let mut restart_seen: bool = false;
                    let mut reloads: Vec<Vec<u8>> = Vec::new();
                    proof {
                        assert(bv.subrange(0, 0) =~= Seq::<PendView>::empty());
                    }
                    let mut i: usize = 0;
                    while i < batch.len()
                        invariant
                            i <= batch@.len(),
                            bv == crate::debounce::pend_view(batch@),
                            bv.len() == batch@.len(),
                            self.restart_globs == old(self).restart_globs,
                            self.reload_globs == old(self).reload_globs,
                            self.phase == old(self).phase,
                            self.queued == old(self).queued,
                            self.window.wf(),
                            self.window.batch() == Seq::<PendView>::empty(),
                            old(self).wf(),
                            restart_seen == any_restart(
                                self.restart_globs.entries_view(),
                                self.reload_globs.entries_view(),
                                bv.subrange(0, i as int),
                            ),
                            paths_view(reloads@) == reload_paths_spec(
                                self.restart_globs.entries_view(),
                                self.reload_globs.entries_view(),
                                bv.subrange(0, i as int),
                            ),
                        decreases batch@.len() - i,
                    {
                        proof {
                            assert(bv.subrange(0, i + 1 as int).drop_last() =~= bv.subrange(
                                0,
                                i as int,
                            ));
                            assert(bv.subrange(0, i + 1 as int).last() == bv[i as int]);
                            assert(bv[i as int] == batch@[i as int]@);
                        }
                        let action = classify_path(
                            &self.restart_globs,
                            &self.reload_globs,
                            batch[i].path.as_slice(),
                        );
                        match action {
                            PathAction::Restart => {
                                proof {
                                    assert(classify_spec(
                                        self.restart_globs.entries_view(),
                                        self.reload_globs.entries_view(),
                                        bv.subrange(0, i + 1 as int)[i as int].path,
                                    ) == PathAction::Restart);
                                }
                                restart_seen = true;
                            }
                            PathAction::Reload => {
                                let ghost pre = reloads@;
                                let path = crate::bytes::copy_range(
                                    batch[i].path.as_slice(),
                                    0,
                                    batch[i].path.len(),
                                );
                                proof {
                                    assert(path@ =~= bv[i as int].path);
                                }
                                reloads.push(path);
                                proof {
                                    assert(paths_view(reloads@) =~~= paths_view(pre).push(
                                        bv[i as int].path,
                                    ));
                                }
                            }
                            PathAction::Ignore => {}
                        }
                        proof {
                            let rsub = bv.subrange(0, i + 1 as int);
                            if restart_seen {
                                if classify_spec(
                                    self.restart_globs.entries_view(),
                                    self.reload_globs.entries_view(),
                                    bv[i as int].path,
                                ) == PathAction::Restart {
                                    assert(rsub[i as int].path == bv[i as int].path);
                                    assert(any_restart(
                                        self.restart_globs.entries_view(),
                                        self.reload_globs.entries_view(),
                                        rsub,
                                    ));
                                } else {
                                    let w = choose|w: int|
                                        0 <= w < i && classify_spec(
                                            self.restart_globs.entries_view(),
                                            self.reload_globs.entries_view(),
                                            bv.subrange(0, i as int)[w].path,
                                        ) == PathAction::Restart;
                                    assert(rsub[w].path == bv.subrange(0, i as int)[w].path);
                                    assert(any_restart(
                                        self.restart_globs.entries_view(),
                                        self.reload_globs.entries_view(),
                                        rsub,
                                    ));
                                }
                            } else {
                                if any_restart(
                                    self.restart_globs.entries_view(),
                                    self.reload_globs.entries_view(),
                                    rsub,
                                ) {
                                    let w = choose|w: int|
                                        0 <= w < rsub.len() && classify_spec(
                                            self.restart_globs.entries_view(),
                                            self.reload_globs.entries_view(),
                                            rsub[w].path,
                                        ) == PathAction::Restart;
                                    if w < i {
                                        assert(bv.subrange(0, i as int)[w].path == rsub[w].path);
                                        assert(any_restart(
                                            self.restart_globs.entries_view(),
                                            self.reload_globs.entries_view(),
                                            bv.subrange(0, i as int),
                                        ));
                                    }
                                }
                            }
                        }
                        i = i + 1;
                    }
                    proof {
                        assert(bv.subrange(0, bv.len() as int) =~= bv);
                    }
                    if restart_seen {
                        self.phase = DispatchPhase::Reconciling;
                        DispatchStep::Start(ExchangePlan::Restart)
                    } else if reloads.len() > 0 {
                        self.phase = DispatchPhase::Reconciling;
                        DispatchStep::Start(ExchangePlan::Reload(reloads))
                    } else {
                        self.phase = DispatchPhase::Idle;
                        proof {
                            assert(paths_view(reloads@) =~= Seq::<Seq<u8>>::empty());
                        }
                        DispatchStep::Wait
                    }
                } else {
                    DispatchStep::Wait
                }
            }
            DispatchEvent::ExchangeDone => {
                if matches!(self.phase, DispatchPhase::Reconciling) {
                    if self.queued.len() > 0 {
                        let moved = self.queued.fire();
                        let mut replay = moved;
                        let mut wnd = DebounceWindow::new();
                        core::mem::swap(&mut self.window, &mut wnd);
                        let ghost mv = crate::debounce::pend_view(replay@);
                        // The queued batch is already coalesced; refill the
                        // fresh window with it one item at a time.
                        let mut i: usize = 0;
                        while i < replay.len()
                            invariant
                                i <= replay@.len(),
                                mv == crate::debounce::pend_view(replay@),
                                mv.len() == replay@.len(),
                                self.restart_globs == old(self).restart_globs,
                                self.reload_globs == old(self).reload_globs,
                                self.phase == old(self).phase,
                                self.queued.wf(),
                                self.queued.batch() == Seq::<PendView>::empty(),
                                mv == old(self).queued_batch(),
                                old(self).wf(),
                                self.window.wf(),
                                self.window.batch() == refill_spec(mv, i as int),
                            decreases replay@.len() - i,
                        {
                            let it = &replay[i];
                            self.window.record(it.path.as_slice(), it.kind);
                            proof {
                                assert(mv[i as int] == replay@[i as int]@);
                                assert(self.window.batch() == record_spec(
                                    refill_spec(mv, i as int),
                                    mv[i as int].path,
                                    mv[i as int].kind,
                                ));
                            }
                            i = i + 1;
                        }
                        proof {
                            lemma_refill_coalesced(mv, old(self).queued_batch());
                        }
                        self.phase = DispatchPhase::Pending;
                        DispatchStep::ArmTimer
                    } else {
                        self.phase = DispatchPhase::Idle;
                        proof {
                            assert(old(self).queued_batch() =~= Seq::<PendView>::empty());
                        }
                        DispatchStep::Wait
                    }
                } else {
                    DispatchStep::Wait
                }
            }
        }
    }
}

/// Recording the first `k` items of an already coalesced batch into an
/// empty window.
pub open spec fn refill_spec(items: Seq<PendView>, k: int) -> Seq<PendView>
    decreases k,
{
    if k <= 0 {
        Seq::empty()
    } else {
        record_spec(refill_spec(items, k - 1), items[k - 1].path, items[k - 1].kind)
    }
}

/// Refilling a window with a coalesced batch reproduces it exactly.
proof fn lemma_refill_coalesced(items: Seq<PendView>, orig: Seq<PendView>)
    requires
        items == orig,
        forall|a: int, b: int| 0 <= a < b < items.len() ==> items[a].path != items[b].path,
    ensures
        refill_spec(items, items.len() as int) == items,
{
    lemma_refill_prefix(items, items.len() as int);
    assert(items.subrange(0, items.len() as int) =~= items);
}

proof fn lemma_refill_prefix(items: Seq<PendView>, k: int)
    requires
        0 <= k <= items.len(),
        forall|a: int, b: int| 0 <= a < b < items.len() ==> items[a].path != items[b].path,
    ensures
        refill_spec(items, k) == items.subrange(0, k),
    decreases k,
{
    if k > 0 {
        lemma_refill_prefix(items, k - 1);
        let pre = items.subrange(0, k - 1);
        assert forall|w: int| 0 <= w < pre.len() implies pre[w].path != items[k - 1].path by {
            assert(pre[w] == items[w]);
        };
        crate::debounce::lemma_pend_index_props(pre, items[k - 1].path);
        if crate::debounce::pend_index(pre, items[k - 1].path) >= 0 {
            let w = crate::debounce::pend_index(pre, items[k - 1].path);
            assert(pre[w].path == items[k - 1].path);
        }
        assert(refill_spec(items, k) == pre.push(
            PendView { path: items[k - 1].path, kind: items[k - 1].kind },
        ));
        assert(pre.push(PendView { path: items[k - 1].path, kind: items[k - 1].kind })
            =~~= items.subrange(0, k));
    }
}

} // verus!
