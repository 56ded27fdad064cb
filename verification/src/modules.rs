//! The REPL's loaded module set and its reconciliation against the watched
//! file set.
//!
//! Reconciliation computes the minimal add/remove commands that make the
//! loaded set match the target set: `added = target \ loaded` and
//! `removed = loaded \ target`, both restricted to paths recognized as
//! REPL-loadable source.  The computation is pure and deterministic: the same
//! inputs always yield the same added and removed sequences.

use vstd::prelude::*;

use crate::bytes::bytes_eq;
use crate::path::is_haskell_source;
use crate::path::is_haskell_source_path;

verus! {

/// One module the REPL reports as loaded: its name and the normalized
/// absolute path of its source file.
#[derive(Clone, Debug)]
pub struct LoadedModule {
    pub name: Vec<u8>,
    pub path: Vec<u8>,
}

/// Mathematical model of a [`LoadedModule`].
#[verifier::ext_equal]
pub ghost struct ModView {
    pub name: Seq<u8>,
    pub path: Seq<u8>,
}

impl View for LoadedModule {
    type V = ModView;

    open spec fn view(&self) -> ModView {
        ModView { name: self.name@, path: self.path@ }
    }
}

/// The views of a list of loaded modules.
pub open spec fn mods_view(v: Seq<LoadedModule>) -> Seq<ModView> {
    v.map_values(|m: LoadedModule| m@)
}

/// The views of a list of paths.
pub open spec fn paths_view(v: Seq<Vec<u8>>) -> Seq<Seq<u8>> {
    v.map_values(|p: Vec<u8>| p@)
}

/// Whether some module of `ms` lives at `p`.
pub open spec fn has_path(ms: Seq<ModView>, p: Seq<u8>) -> bool {
    exists|i: int| 0 <= i < ms.len() && ms[i].path == p
}

/// Snapshot of the subprocess's working context, captured once per session
/// lifetime and used to normalize relative paths the REPL reports.
#[derive(Clone, Debug)]
pub struct ShowPaths {
    /// The subprocess's working directory.
    pub cwd: Vec<u8>,
    /// Its module import search paths, in order.
    pub search_paths: Vec<Vec<u8>>,
}

/// The first position of `ms` whose module lives at `p`, or `-1`.
pub open spec fn path_index(ms: Seq<ModView>, p: Seq<u8>) -> int
    decreases ms.len(),
{
    if ms.len() == 0 {
        -1
    } else if ms[0].path == p {
        0
    } else {
        let r = path_index(ms.drop_first(), p);
        if r < 0 {
            -1
        } else {
            r + 1
        }
    }
}

/// [`path_index`] finds the first occurrence, or `-1` when there is none.
pub proof fn lemma_path_index_props(ms: Seq<ModView>, p: Seq<u8>)
    ensures
        ({
            let i = path_index(ms, p);
            if i < 0 {
                forall|k: int| 0 <= k < ms.len() ==> ms[k].path != p
            } else {
                &&& 0 <= i < ms.len()
                &&& ms[i].path == p
                &&& forall|k: int| 0 <= k < i ==> ms[k].path != p
            }
        }),
    decreases ms.len(),
{
    if ms.len() > 0 && ms[0].path != p {
        lemma_path_index_props(ms.drop_first(), p);
        assert forall|k: int| 1 <= k < ms.len() implies ms[k] == ms.drop_first()[k - 1] by {};
    }
}

/// A position holding `p` with no earlier one is what [`path_index`] finds.
pub proof fn lemma_path_index_is(ms: Seq<ModView>, p: Seq<u8>, j: int)
    requires
        0 <= j < ms.len(),
        ms[j].path == p,
        forall|k: int| 0 <= k < j ==> ms[k].path != p,
    ensures
        path_index(ms, p) == j,
    decreases j,
{
    if j > 0 {
        assert forall|k: int| 0 <= k < j - 1 implies ms.drop_first()[k].path != p by {
            assert(ms.drop_first()[k] == ms[k + 1]);
        };
        assert(ms.drop_first()[j - 1] == ms[j]);
        lemma_path_index_is(ms.drop_first(), p, j - 1);
    }
}

/// What inserting one module does: replace the entry at its path, or append.
pub open spec fn insert_spec(ms: Seq<ModView>, m: ModView) -> Seq<ModView> {
    let i = path_index(ms, m.path);
    if i < 0 {
        ms.push(m)
    } else {
        ms.update(i, m)
    }
}

/// A set of loaded modules, unique by path; insertion order is irrelevant to
/// its meaning but kept for determinism.
#[derive(Debug)]
pub struct ModuleSet {
    modules: Vec<LoadedModule>,
}

impl ModuleSet {
    /// The modules, in insertion order.
    pub closed spec fn view_seq(self) -> Seq<ModView> {
        mods_view(self.modules@)
    }

    /// Paths are unique.
    pub closed spec fn wf(self) -> bool {
        forall|i: int, j: int|
            0 <= i < j < self.view_seq().len() ==> self.view_seq()[i].path != self.view_seq()[j].path
    }

    /// An empty set.
    pub fn new() -> (r: ModuleSet)
        ensures
            r.wf(),
            r.view_seq() == Seq::<ModView>::empty(),
    {
        let r = ModuleSet { modules: Vec::new() };
        proof {
            assert(r.view_seq() =~= Seq::<ModView>::empty());
        }
        r
    }

    /// How many modules are loaded.
    pub fn len(&self) -> (r: usize)
        ensures
            r == self.view_seq().len(),
    {
        self.modules.len()
    }

    /// The module at position `i`, for iteration.
    pub fn get(&self, i: usize) -> (r: &LoadedModule)
        requires
            i < self.view_seq().len(),
        ensures
            r@ == self.view_seq()[i as int],
    {
        &self.modules[i]
    }

    /// Whether some loaded module lives at `p`.
    pub fn contains_path(&self, p: &[u8]) -> (r: bool)
        ensures
            r == has_path(self.view_seq(), p@),
    {
        let mut i: usize = 0;
        while i < self.modules.len()
            invariant
                i <= self.modules@.len(),
                forall|k: int| 0 <= k < i ==> self.view_seq()[k].path != p@,
            decreases self.modules@.len() - i,
        {
            if bytes_eq(self.modules[i].path.as_slice(), p) {
                proof {
                    assert(self.view_seq()[i as int].path == p@);
                }
                return true;
            }
            i = i + 1;
        }
        false
    }

    /// Insert a module.  A module already loaded from the same path is
    /// replaced, so paths stay unique; the set's paths afterwards are the old
    /// paths plus the new one.
    pub fn insert(&mut self, m: LoadedModule)
        requires
            old(self).wf(),
        ensures
            final(self).wf(),
            final(self).view_seq() == insert_spec(old(self).view_seq(), m@),
            has_path(final(self).view_seq(), m@.path),
            forall|p: Seq<u8>|
                #[trigger] has_path(final(self).view_seq(), p) <==> (has_path(
                    old(self).view_seq(),
                    p,
                ) || p == m@.path),
    {
        let ghost pre = self.modules@;
        let mut i: usize = 0;
        while i < self.modules.len()
            invariant
                self.modules@ == pre,
                pre == old(self).modules@,
                old(self).wf(),
                i <= self.modules@.len(),
                forall|k: int| 0 <= k < i ==> mods_view(pre)[k].path != m@.path,
            decreases self.modules@.len() - i,
        {
            if bytes_eq(self.modules[i].path.as_slice(), m.path.as_slice()) {
                let ghost mpath = m@.path;
                self.modules.set(i, m);
                proof {
                    let prev = mods_view(pre);
                    let cur = self.view_seq();
                    assert(old(self).view_seq() == prev);
                    assert(prev[i as int].path == m@.path);
                    lemma_path_index_is(prev, m@.path, i as int);
                    assert(cur =~~= prev.update(i as int, m@));
                    assert forall|k: int| 0 <= k < cur.len() implies cur[k].path == prev[k].path by {
                        if k == i {
                            assert(prev[i as int].path == mpath);
                            assert(cur[i as int].path == mpath);
                        }
                    };
                    assert forall|a: int, b: int|
                        0 <= a < b < cur.len() implies cur[a].path != cur[b].path by {
                        assert(prev[a].path != prev[b].path);
                    };
                    assert(cur[i as int].path == mpath);
                    assert forall|p: Seq<u8>|
                        #[trigger] has_path(cur, p) <==> (has_path(prev, p) || p == mpath) by {
                        if has_path(cur, p) {
                            let k = choose|k: int| 0 <= k < cur.len() && cur[k].path == p;
                            assert(prev[k].path == p);
                        }
                        if has_path(prev, p) {
                            let k = choose|k: int| 0 <= k < prev.len() && prev[k].path == p;
                            assert(cur[k].path == p);
                        }
                        if p == mpath {
                            assert(cur[i as int].path == p);
                        }
                    };
                }
                return ;
            }
            i = i + 1;
        }
        self.modules.push(m);
        proof {
            let prev = mods_view(pre);
            let cur = self.view_seq();
            let n = prev.len();
            assert(old(self).view_seq() == prev);
            lemma_path_index_props(prev, m@.path);
            if path_index(prev, m@.path) >= 0 {
                assert(prev[path_index(prev, m@.path)].path == m@.path);
            }
            assert(cur =~~= prev.push(m@));
            assert(cur[n as int].path == m@.path);
            assert forall|a: int, b: int|
                0 <= a < b < cur.len() implies cur[a].path != cur[b].path by {
                if b < n {
                    assert(prev[a].path != prev[b].path);
                } else {
                    assert(cur[b].path == m@.path);
                    assert(prev[a].path != m@.path);
                    assert(cur[a].path == prev[a].path);
                }
            };
            assert forall|p: Seq<u8>|
                #[trigger] has_path(cur, p) <==> (has_path(prev, p) || p == m@.path) by {
                if has_path(cur, p) {
                    let k = choose|k: int| 0 <= k < cur.len() && cur[k].path == p;
                    if k < n {
                        assert(prev[k].path == p);
                    }
                }
                if has_path(prev, p) {
                    let k = choose|k: int| 0 <= k < prev.len() && prev[k].path == p;
                    assert(cur[k].path == p);
                }
                if p == m@.path {
                    assert(cur[n as int].path == p);
                }
            };
        }
    }
}

/// The target paths that must be added: loadable, absent from the loaded
/// set, first occurrence only, in target order.
pub open spec fn added_spec(loaded: Seq<ModView>, target: Seq<Seq<u8>>) -> Seq<Seq<u8>>
    decreases target.len(),
{
    if target.len() == 0 {
        Seq::empty()
    } else {
        let pre = added_spec(loaded, target.drop_last());
        let p = target.last();
        if is_haskell_source(p) && !has_path(loaded, p) && !pre.contains(p) {
            pre.push(p)
        } else {
            pre
        }
    }
}

/// The loaded modules that must be removed: loadable path no longer in the
/// target, in loaded order.
pub open spec fn removed_spec(loaded: Seq<ModView>, target: Seq<Seq<u8>>) -> Seq<ModView>
    decreases loaded.len(),
{
    if loaded.len() == 0 {
        Seq::empty()
    } else {
        let pre = removed_spec(loaded.drop_last(), target);
        let m = loaded.last();
        if is_haskell_source(m.path) && !target.contains(m.path) {
            pre.push(m)
        } else {
            pre
        }
    }
}

/// What one reconciliation asks the session to do.
#[derive(Debug)]
pub struct Reconciled {
    /// Paths to hand to an add command, deduplicated, in target order.
    pub added: Vec<Vec<u8>>,
    /// Modules to hand to a remove command, in loaded order.
    pub removed: Vec<LoadedModule>,
}

/// Compute the minimal add/remove sets turning `loaded` into `target`.
pub fn reconcile(loaded: &ModuleSet, target: &Vec<Vec<u8>>) -> (r: Reconciled)
    ensures
        paths_view(r.added@) == added_spec(loaded.view_seq(), paths_view(target@)),
        mods_view(r.removed@) == removed_spec(loaded.view_seq(), paths_view(target@)),
{
    let ghost lv = loaded.view_seq();
    let ghost tv = paths_view(target@);
    let mut added: Vec<Vec<u8>> = Vec::new();
    let mut i: usize = 0;
    while i < target.len()
        invariant
            i <= target@.len(),
            lv == loaded.view_seq(),
            tv == paths_view(target@),
            tv.len() == target@.len(),
            paths_view(added@) == added_spec(lv, tv.subrange(0, i as int)),
        decreases target@.len() - i,
    {
        let ghost pre = added@;
        let p = &target[i];
        proof {
            assert(tv.subrange(0, i + 1 as int).drop_last() =~= tv.subrange(0, i as int));
            assert(tv.subrange(0, i + 1 as int).last() == tv[i as int]);
            assert(tv[i as int] == target@[i as int]@);
        }
        let mut already: bool = false;
        let mut k: usize = 0;
        while k < added.len()
            invariant
                k <= added@.len(),
                already ==> paths_view(added@).contains(p@),
                !already ==> forall|j: int| 0 <= j < k ==> paths_view(added@)[j] != p@,
            decreases added@.len() - k,
        {
            if bytes_eq(added[k].as_slice(), p.as_slice()) {
                proof {
                    assert(paths_view(added@)[k as int] == p@);
                }
                already = true;
            }
            k = k + 1;
        }
        if is_haskell_source_path(p.as_slice()) && !loaded.contains_path(p.as_slice()) && !already {
            let copy = crate::bytes::copy_range(p.as_slice(), 0, p.len());
            proof {
                assert(copy@ =~= p@);
            }
            added.push(copy);
            proof {
                assert(paths_view(added@) =~~= paths_view(pre).push(p@));
            }
        } else {
            proof {
                if already {
                } else {
                    assert(!paths_view(added@).contains(p@) || paths_view(added@).contains(p@));
                }
            }
        }
        i = i + 1;
    }
    proof {
        assert(tv.subrange(0, tv.len() as int) =~= tv);
    }
    let mut removed: Vec<LoadedModule> = Vec::new();
    let mut i2: usize = 0;
    while i2 < loaded.len()
        invariant
            i2 <= lv.len(),
            lv == loaded.view_seq(),
            tv == paths_view(target@),
            mods_view(removed@) == removed_spec(lv.subrange(0, i2 as int), tv),
        decreases lv.len() - i2,
    {
        let ghost pre = removed@;
        let m = loaded.get(i2);
        proof {
            assert(lv.subrange(0, i2 + 1 as int).drop_last() =~= lv.subrange(0, i2 as int));
            assert(lv.subrange(0, i2 + 1 as int).last() == lv[i2 as int]);
        }
        let mut in_target: bool = false;
        let mut k: usize = 0;
        while k < target.len()
            invariant
                k <= target@.len(),
                tv == paths_view(target@),
                tv.len() == target@.len(),
                m@ == lv[i2 as int],
                in_target ==> tv.contains(m@.path),
                !in_target ==> forall|j: int| 0 <= j < k ==> tv[j] != m@.path,
            decreases target@.len() - k,
        {
            if bytes_eq(target[k].as_slice(), m.path.as_slice()) {
                proof {
                    assert(tv[k as int] == m@.path);
                }
                in_target = true;
            }
            k = k + 1;
        }
        if is_haskell_source_path(m.path.as_slice()) && !in_target {
            let copy = LoadedModule {
                name: crate::bytes::copy_range(m.name.as_slice(), 0, m.name.len()),
                path: crate::bytes::copy_range(m.path.as_slice(), 0, m.path.len()),
            };
            proof {
                assert(copy@ =~~= m@);
            }
            removed.push(copy);
            proof {
                assert(mods_view(removed@) =~~= mods_view(pre).push(lv[i2 as int]));
            }
        }
        i2 = i2 + 1;
    }
    proof {
        assert(lv.subrange(0, lv.len() as int) =~= lv);
    }
    Reconciled { added, removed }
}

/// Membership in the added set: exactly the loadable target paths not
/// already loaded.
pub proof fn lemma_added_membership(loaded: Seq<ModView>, target: Seq<Seq<u8>>, p: Seq<u8>)
    ensures
        added_spec(loaded, target).contains(p) <==> (target.contains(p) && is_haskell_source(p)
            && !has_path(loaded, p)),
    decreases target.len(),
{
    if target.len() > 0 {
        lemma_added_membership(loaded, target.drop_last(), p);
        let pre = added_spec(loaded, target.drop_last());
        let q = target.last();
        if is_haskell_source(q) && !has_path(loaded, q) && !pre.contains(q) {
            assert(added_spec(loaded, target) == pre.push(q));
            if pre.contains(p) || p == q {
                assert(added_spec(loaded, target).contains(p)) by {
                    if p == q {
                        assert(added_spec(loaded, target)[pre.len() as int] == p);
                    } else {
                        let k = choose|k: int| 0 <= k < pre.len() && pre[k] == p;
                        assert(added_spec(loaded, target)[k] == p);
                    }
                };
            }
            if added_spec(loaded, target).contains(p) {
                let k = choose|k: int|
                    0 <= k < added_spec(loaded, target).len() && added_spec(loaded, target)[k]
                        == p;
                if k < pre.len() {
                    assert(pre.contains(p));
                } else {
                    assert(p == q);
                }
            }
        }
        if target.contains(p) {
            let k = choose|k: int| 0 <= k < target.len() && target[k] == p;
            if k < target.len() - 1 {
                assert(target.drop_last().contains(p)) by {
                    assert(target.drop_last()[k] == p);
                };
            }
        }
        if target.drop_last().contains(p) {
            let k = choose|k: int| 0 <= k < target.len() - 1 && target.drop_last()[k] == p;
            assert(target[k] == p);
        }
    }
}

/// Membership in the removed set: exactly the loaded modules whose loadable
/// path left the target.
pub proof fn lemma_removed_membership(loaded: Seq<ModView>, target: Seq<Seq<u8>>, p: Seq<u8>)
    ensures
        has_path(removed_spec(loaded, target), p) <==> (has_path(loaded, p) && is_haskell_source(
            p,
        ) && !target.contains(p)),
    decreases loaded.len(),
{
    if loaded.len() > 0 {
        lemma_removed_membership(loaded.drop_last(), target, p);
        let pre = removed_spec(loaded.drop_last(), target);
        let m = loaded.last();
        if is_haskell_source(m.path) && !target.contains(m.path) {
            assert(removed_spec(loaded, target) == pre.push(m));
            if has_path(pre, p) || p == m.path {
                assert(has_path(removed_spec(loaded, target), p)) by {
                    if p == m.path {
                        assert(removed_spec(loaded, target)[pre.len() as int].path == p);
                    } else {
                        let k = choose|k: int| 0 <= k < pre.len() && pre[k].path == p;
                        assert(removed_spec(loaded, target)[k].path == p);
                    }
                };
            }
            if has_path(removed_spec(loaded, target), p) {
                let k = choose|k: int|
                    0 <= k < removed_spec(loaded, target).len() && removed_spec(
                        loaded,
                        target,
                    )[k].path == p;
                if k < pre.len() {
                    assert(has_path(pre, p));
                } else {
                    assert(p == m.path);
                }
            }
        }
        if has_path(loaded, p) {
            let k = choose|k: int| 0 <= k < loaded.len() && loaded[k].path == p;
            if k < loaded.len() - 1 {
                assert(has_path(loaded.drop_last(), p)) by {
                    assert(loaded.drop_last()[k].path == p);
                };
            }
        }
        if has_path(loaded.drop_last(), p) {
            let k = choose|k: int| 0 <= k < loaded.len() - 1 && loaded.drop_last()[k].path == p;
            assert(loaded[k].path == p);
        }
    }
}

/// The paths of a module list, in order.
pub open spec fn paths_of(ms: Seq<ModView>) -> Seq<Seq<u8>> {
    ms.map_values(|m: ModView| m.path)
}

/// Reconciliation idempotence: reconciling a set against its own paths asks
/// for nothing — both the added and the removed sequences are empty.
pub proof fn lemma_reconcile_self(loaded: Seq<ModView>)
    ensures
        added_spec(loaded, paths_of(loaded)) == Seq::<Seq<u8>>::empty(),
        removed_spec(loaded, paths_of(loaded)) == Seq::<ModView>::empty(),
{
    let target = paths_of(loaded);
    assert forall|p: Seq<u8>| target.contains(p) implies has_path(loaded, p) by {
        let k = choose|k: int| 0 <= k < target.len() && target[k] == p;
        assert(loaded[k].path == p);
    };
    assert forall|p: Seq<u8>| has_path(loaded, p) implies target.contains(p) by {
        let k = choose|k: int| 0 <= k < loaded.len() && loaded[k].path == p;
        assert(target[k] == p);
    };
    let added = added_spec(loaded, target);
    if added.len() > 0 {
        lemma_added_membership(loaded, target, added.last());
        assert(added.contains(added.last()));
    }
    let removed = removed_spec(loaded, target);
    if removed.len() > 0 {
        lemma_removed_membership(loaded, target, removed.last().path);
        assert(has_path(removed, removed.last().path)) by {
            assert(removed[removed.len() - 1].path == removed.last().path);
        };
    }
}

/// Whether a path survives applying a reconciliation: loaded and not
/// removed, or freshly added.
pub open spec fn applied_has_path(loaded: Seq<ModView>, target: Seq<Seq<u8>>, p: Seq<u8>) -> bool {
    (has_path(loaded, p) && !has_path(removed_spec(loaded, target), p)) || added_spec(
        loaded,
        target,
    ).contains(p)
}

/// Applying a reconciliation reaches the target: afterwards a loadable path
/// is present exactly when the target lists it, and non-loadable paths are
/// left alone.  In particular the final set depends on the target alone, so
/// reconciling through any chain of intermediate targets and back ends in
/// the same set as reconciling directly.
pub proof fn lemma_reconcile_reaches_target(
    loaded: Seq<ModView>,
    target: Seq<Seq<u8>>,
    p: Seq<u8>,
)
    ensures
        is_haskell_source(p) ==> (applied_has_path(loaded, target, p) <==> target.contains(p)),
        !is_haskell_source(p) ==> (applied_has_path(loaded, target, p) <==> has_path(loaded, p)),
{
    lemma_added_membership(loaded, target, p);
    lemma_removed_membership(loaded, target, p);
}

} // verus!
