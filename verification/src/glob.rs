//! Glob-based path classification with last-match-wins precedence.
//!
//! A matcher holds an ordered list of (pattern, sense) pairs, as a gitignore
//! file does, with the meaning of `!` inverted: a leading `!` makes the
//! pattern an ignore pattern.  For a given path, the *last* matching pattern
//! determines the verdict; when no pattern matches, the caller's default
//! applies.
//!
//! Pattern language: `*` matches any run of bytes except the path separator,
//! `?` one byte except the separator, `**` any run including separators (a
//! leading `**/` also matches zero directories), everything else itself.  A
//! pattern without a separator is matched against the path's basename; one
//! with a separator is matched against the whole path and against every
//! suffix that starts a path component, so relative patterns apply anywhere
//! in the tree.

use vstd::prelude::*;

use crate::bytes::find_byte;
use crate::bytes::lemma_find_byte_props;

verus! {

/// Core glob matching of pattern `p` against text `s`.
pub open spec fn glob_match(p: Seq<u8>, s: Seq<u8>) -> bool
    decreases p.len(), s.len(),
{
    if p.len() == 0 {
        s.len() == 0
    } else if p[0] == 42 && p.len() >= 2 && p[1] == 42 {
        let rest = p.skip(2);
        glob_match(rest, s) || (rest.len() > 0 && rest[0] == 47 && glob_match(rest.skip(1), s))
            || (s.len() > 0 && glob_match(p, s.skip(1)))
    } else if p[0] == 42 {
        glob_match(p.skip(1), s) || (s.len() > 0 && s[0] != 47 && glob_match(p, s.skip(1)))
    } else if p[0] == 63 {
        s.len() > 0 && s[0] != 47 && glob_match(p.skip(1), s.skip(1))
    } else {
        s.len() > 0 && s[0] == p[0] && glob_match(p.skip(1), s.skip(1))
    }
}

/// Index right after the last separator of `s` (0 when there is none).
pub open spec fn basename_start(s: Seq<u8>) -> int
    decreases s.len(),
{
    if s.len() == 0 {
        0
    } else if s.last() == 47 {
        s.len() as int
    } else {
        basename_start(s.drop_last())
    }
}

/// Whether one pattern applies to a path, with the basename rule.
pub open spec fn pattern_matches(pat: Seq<u8>, path: Seq<u8>) -> bool {
    if find_byte(pat, 47, 0) < 0 {
        glob_match(pat, path.skip(basename_start(path)))
    } else {
        exists|j: int|
            0 <= j <= path.len() && (j == 0 || path[j - 1] == 47) && glob_match(pat, path.skip(j))
    }
}

/// Match pattern `p[pi..]` against text `s[si..]`.
fn glob_match_at(p: &[u8], s: &[u8], pi: usize, si: usize) -> (r: bool)
    requires
        pi <= p@.len(),
        si <= s@.len(),
    ensures
        r == glob_match(p@.skip(pi as int), s@.skip(si as int)),
    decreases p@.len() - pi, s@.len() - si,
{
    let ghost pv = p@.skip(pi as int);
    let ghost sv = s@.skip(si as int);
    proof {
        assert forall|k: int| 0 <= k < pv.len() implies pv[k] == p@[pi + k] by {};
        assert forall|k: int| 0 <= k < sv.len() implies sv[k] == s@[si + k] by {};
    }
    if pi == p.len() {
        return si == s.len();
    }
    let pc = p[pi];
    if pc == 42 && pi + 1 < p.len() && p[pi + 1] == 42 {
        proof {
            assert(pv.skip(2) =~= p@.skip(pi + 2));
        }
        if glob_match_at(p, s, pi + 2, si) {
            return true;
        }
        if pi + 2 < p.len() && p[pi + 2] == 47 {
            proof {
                assert(pv.skip(2).skip(1) =~= p@.skip(pi + 3));
            }
            if glob_match_at(p, s, pi + 3, si) {
                return true;
            }
        }
        if si < s.len() {
            proof {
                assert(sv.skip(1) =~= s@.skip(si + 1));
            }
            if glob_match_at(p, s, pi, si + 1) {
                return true;
            }
        }
        return false;
    }
    if pc == 42 {
        proof {
            assert(pv.skip(1) =~= p@.skip(pi + 1));
        }
        if glob_match_at(p, s, pi + 1, si) {
            return true;
        }
        if si < s.len() && s[si] != 47 {
            proof {
                assert(sv.skip(1) =~= s@.skip(si + 1));
            }
            if glob_match_at(p, s, pi, si + 1) {
                return true;
            }
        }
        return false;
    }
    if pc == 63 {
        if si < s.len() && s[si] != 47 {
            proof {
                assert(pv.skip(1) =~= p@.skip(pi + 1));
                assert(sv.skip(1) =~= s@.skip(si + 1));
            }
            return glob_match_at(p, s, pi + 1, si + 1);
        }
        return false;
    }
    if si < s.len() && s[si] == pc {
        proof {
            assert(pv.skip(1) =~= p@.skip(pi + 1));
            assert(sv.skip(1) =~= s@.skip(si + 1));
        }
        return glob_match_at(p, s, pi + 1, si + 1);
    }
    false
}

/// Where the basename of `s` starts.
pub fn basename_start_exec(s: &[u8]) -> (r: usize)
    ensures
        r == basename_start(s@),
{
    let mut i: usize = s.len();
    proof {
        assert(s@.subrange(0, s@.len() as int) =~= s@);
    }
    while i > 0
        invariant
            i <= s@.len(),
            basename_start(s@) == basename_start(s@.subrange(0, i as int)),
        decreases i,
    {
        proof {
            let cut = s@.subrange(0, i as int);
            assert(cut.last() == s@[i - 1]);
            assert(cut.drop_last() =~= s@.subrange(0, i - 1));
        }
        if s[i - 1] == 47 {
            proof {
                assert(basename_start(s@.subrange(0, i as int)) == i);
            }
            return i;
        }
        i = i - 1;
    }
    proof {
        assert(s@.subrange(0, 0) =~= Seq::<u8>::empty());
    }
    0
}

/// Whether `pat` applies to `path`.
pub fn pattern_matches_path(pat: &[u8], path: &[u8]) -> (r: bool)
    ensures
        r == pattern_matches(pat@, path@),
{
    let has_sep = match crate::bytes::find_byte_from(pat, 47, 0) {
        Some(_) => true,
        None => false,
    };
    proof {
        lemma_find_byte_props(pat@, 47, 0);
    }
    if !has_sep {
        let b = basename_start_exec(path);
        proof {
            assert(basename_start(path@) <= path@.len()) by {
                lemma_basename_start_range(path@);
            };
            assert(pat@.skip(0) =~= pat@);
        }
        glob_match_at(pat, path, 0, b)
    } else {
        let n = path.len();
        let mut j: usize = 0;
        while j < n
            invariant
                j <= n,
                n == path@.len(),
                find_byte(pat@, 47, 0) >= 0,
                forall|k: int|
                    0 <= k < j ==> !((k == 0 || path@[k - 1] == 47) && glob_match(
                        pat@,
                        path@.skip(k),
                    )),
            decreases n - j,
        {
            let at_component = j == 0 || path[j - 1] == 47;
            if at_component {
                if glob_match_at(pat, path, 0, j) {
                    proof {
                        assert(pat@.skip(0) =~= pat@);
                    }
                    return true;
                }
            }
            proof {
                assert(pat@.skip(0) =~= pat@);
            }
            j = j + 1;
        }
        let at_end_component = n == 0 || path[n - 1] == 47;
        if at_end_component {
            if glob_match_at(pat, path, 0, n) {
                proof {
                    assert(pat@.skip(0) =~= pat@);
                }
                return true;
            }
        }
        proof {
            assert(pat@.skip(0) =~= pat@);
            assert forall|k: int|
                0 <= k <= path@.len() implies !((k == 0 || path@[k - 1] == 47) && glob_match(
                pat@,
                path@.skip(k),
            )) by {};
        }
        false
    }
}

pub proof fn lemma_basename_start_range(s: Seq<u8>)
    ensures
        0 <= basename_start(s) <= s.len(),
    decreases s.len(),
{
    if s.len() > 0 && s.last() != 47 {
        lemma_basename_start_range(s.drop_last());
    }
}

/// The verdict a matching pattern casts.
#[derive(Clone, Copy, Debug, PartialEq, Eq, Structural)]
pub enum GlobSense {
    /// The path is subject to the matcher's action.
    Match,
    /// The path is excluded (the pattern began with `!`).
    Ignore,
}

/// One compiled pattern.
#[derive(Debug)]
pub struct GlobEntry {
    pub pattern: Vec<u8>,
    pub sense: GlobSense,
}

/// Model of one entry.
#[verifier::ext_equal]
pub ghost struct GlobEntryView {
    pub pattern: Seq<u8>,
    pub sense: GlobSense,
}

impl View for GlobEntry {
    type V = GlobEntryView;

    open spec fn view(&self) -> GlobEntryView {
        GlobEntryView { pattern: self.pattern@, sense: self.sense }
    }
}

/// An invalid glob list, fatal at startup only.
#[derive(Clone, Copy, Debug, PartialEq, Eq, Structural)]
pub enum GlobError {
    /// A pattern was empty (or a bare `!`), at the given position.
    EmptyPattern(usize),
}

/// An ordered list of patterns; for a given path the last matching pattern
/// determines the verdict.
#[derive(Debug)]
pub struct GlobMatcher {
    entries: Vec<GlobEntry>,
}

/// Compile one glob: a leading `!` flips the sense.
pub open spec fn entry_of_glob(g: Seq<u8>) -> GlobEntryView {
    if g.len() > 0 && g[0] == 33 {
        GlobEntryView { pattern: g.skip(1), sense: GlobSense::Ignore }
    } else {
        GlobEntryView { pattern: g, sense: GlobSense::Match }
    }
}

/// A glob is valid when its pattern part is nonempty.
pub open spec fn glob_valid(g: Seq<u8>) -> bool {
    entry_of_glob(g).pattern.len() > 0
}

/// The index of the last entry matching `path`, or `-1`.
pub open spec fn last_match(entries: Seq<GlobEntryView>, path: Seq<u8>) -> int
    decreases entries.len(),
{
    if entries.len() == 0 {
        -1
    } else if pattern_matches(entries.last().pattern, path) {
        entries.len() - 1
    } else {
        last_match(entries.drop_last(), path)
    }
}

/// What the matcher says about `path`: the sense of the last matching
/// pattern, or `None` when no pattern matches (the caller's default then
/// applies).
pub open spec fn matcher_verdict(entries: Seq<GlobEntryView>, path: Seq<u8>) -> Option<GlobSense> {
    let i = last_match(entries, path);
    if i < 0 {
        None
    } else {
        Some(entries[i].sense)
    }
}

impl GlobMatcher {
    /// The compiled entries, in the order given.
    pub closed spec fn entries_view(self) -> Seq<GlobEntryView> {
        self.entries@.map_values(|e: GlobEntry| e@)
    }

    /// Compile a list of globs.  Fails on an empty pattern; every valid glob
    /// compiles, in order, with `!` stripped into the sense.
    pub fn from_globs(globs: &Vec<Vec<u8>>) -> (r: Result<GlobMatcher, GlobError>)
        ensures
            match r {
                Ok(m) => {
                    &&& m.entries_view().len() == globs@.len()
                    &&& forall|i: int|
                        0 <= i < globs@.len() ==> m.entries_view()[i] == entry_of_glob(
                            globs@[i]@,
                        ) && glob_valid(globs@[i]@)
                },
                Err(e) => e matches GlobError::EmptyPattern(i) && i < globs@.len() && !glob_valid(
                    globs@[i as int]@,
                ),
            },
    {
        let mut entries: Vec<GlobEntry> = Vec::new();
        let mut i: usize = 0;
        while i < globs.len()
            invariant
                i <= globs@.len(),
                entries@.len() == i,
                forall|k: int|
                    0 <= k < i ==> entries@.map_values(|e: GlobEntry| e@)[k] == entry_of_glob(
                        globs@[k]@,
                    ) && glob_valid(globs@[k]@),
            decreases globs@.len() - i,
        {
            let g = &globs[i];
            let (pattern, sense) = if g.len() > 0 && g[0] == 33 {
                (crate::bytes::copy_range(g.as_slice(), 1, g.len()), GlobSense::Ignore)
            } else {
                (crate::bytes::copy_range(g.as_slice(), 0, g.len()), GlobSense::Match)
            };
            proof {
                assert(g@.subrange(1, g@.len() as int) =~= g@.skip(1));
                assert(g@.subrange(0, g@.len() as int) =~= g@);
            }
            if pattern.len() == 0 {
                return Err(GlobError::EmptyPattern(i));
            }
            let ghost pre = entries@;
            entries.push(GlobEntry { pattern, sense });
            proof {
                assert(entries@.map_values(|e: GlobEntry| e@) =~~= pre.map_values(
                    |e: GlobEntry| e@,
                ).push(entry_of_glob(globs@[i as int]@)));
            }
            i = i + 1;
        }
        Ok(GlobMatcher { entries })
    }

    /// Classify `path`: the sense of the last matching pattern, or `None`
    /// when no pattern matches.
    pub fn verdict(&self, path: &[u8]) -> (r: Option<GlobSense>)
        ensures
            r == matcher_verdict(self.entries_view(), path@),
    {
        let ghost ev = self.entries_view();
        let mut best: Option<GlobSense> = None;
        let mut i: usize = 0;
        while i < self.entries.len()
            invariant
                i <= self.entries@.len(),
                ev == self.entries_view(),
                ev.len() == self.entries@.len(),
                best == matcher_verdict(ev.subrange(0, i as int), path@),
            decreases self.entries@.len() - i,
        {
            proof {
                assert(ev.subrange(0, i + 1 as int).drop_last() =~= ev.subrange(0, i as int));
                assert(ev.subrange(0, i + 1 as int).last() == ev[i as int]);
                assert(ev[i as int] == self.entries@[i as int]@);
                lemma_last_match_range(ev.subrange(0, i as int), path@);
                lemma_last_match_range(ev.subrange(0, i + 1 as int), path@);
            }
            if pattern_matches_path(self.entries[i].pattern.as_slice(), path) {
                best = Some(self.entries[i].sense);
                proof {
                    assert(last_match(ev.subrange(0, i + 1 as int), path@) == i);
                }
            } else {
                proof {
                    assert(last_match(ev.subrange(0, i + 1 as int), path@) == last_match(
                        ev.subrange(0, i as int),
                        path@,
                    ));
                    let idx = last_match(ev.subrange(0, i as int), path@);
                    if idx >= 0 {
                        assert(ev.subrange(0, i + 1 as int)[idx] == ev.subrange(0, i as int)[idx]);
                    }
                }
            }
            i = i + 1;
        }
        proof {
            assert(ev.subrange(0, ev.len() as int) =~= ev);
        }
        best
    }
}

/// Glob precedence: when entry `i` matches the path and no later entry does,
/// the verdict is entry `i`'s sense — the last matching pattern decides, so
/// reordering a pattern and its `!`-inverse flips the verdict.
pub proof fn lemma_last_match_wins(entries: Seq<GlobEntryView>, path: Seq<u8>, i: int)
    requires
        0 <= i < entries.len(),
        pattern_matches(entries[i].pattern, path),
        forall|j: int| i < j < entries.len() ==> !pattern_matches(entries[j].pattern, path),
    ensures
        matcher_verdict(entries, path) == Some(entries[i].sense),
    decreases entries.len(),
{
    if i == entries.len() - 1 {
    } else {
        assert(!pattern_matches(entries.last().pattern, path));
        assert(entries.drop_last()[i] == entries[i]);
        lemma_last_match_wins(entries.drop_last(), path, i);
        assert(last_match(entries, path) == last_match(entries.drop_last(), path));
        lemma_last_match_range(entries.drop_last(), path);
        let idx = last_match(entries.drop_last(), path);
        if idx >= 0 {
            assert(entries[idx] == entries.drop_last()[idx]);
        }
    }
}

/// [`last_match`] is `-1` or a valid index.
pub proof fn lemma_last_match_range(entries: Seq<GlobEntryView>, path: Seq<u8>)
    ensures
        -1 <= last_match(entries, path) < entries.len(),
    decreases entries.len(),
{
    if entries.len() > 0 && !pattern_matches(entries.last().pattern, path) {
        lemma_last_match_range(entries.drop_last(), path);
    }
}

} // verus!
