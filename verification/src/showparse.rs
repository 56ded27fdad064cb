//! Parsers for the REPL's `show`-query responses.
//!
//! `show modules` lines look like
//! `ModuleName ( /absolute/path/to/Module.hs, interpreted )` (the part after
//! the comma may also be an object-file path).  `show targets` lines each
//! name one target file.  `show paths` prints header lines ending in a colon
//! and indented value lines: first the working directory, then the search
//! paths.  A malformed `show modules` response is reported as a recoverable
//! parse failure so the caller can fall back to `show targets`.

use vstd::prelude::*;

use crate::bytes::copy_range;
use crate::bytes::find_byte;
use crate::bytes::find_byte_from;
use crate::bytes::lemma_find_byte_props;
use crate::diagnostics::skip_ws;
use crate::modules::insert_spec;
use crate::modules::LoadedModule;
use crate::modules::ModView;
use crate::modules::ModuleSet;
use crate::modules::ShowPaths;
use crate::path::normalize_path;
use crate::path::normalize_spec;

verus! {

/// A query response that failed its expected grammar, with the offending
/// line's position.  Recoverable: the caller falls back to another query.
#[derive(Clone, Copy, Debug, PartialEq, Eq, Structural)]
pub enum ParseError {
    Malformed(usize),
}

/// End of `s[a..b]` after trailing spaces and tabs are dropped.
pub open spec fn rtrim(s: Seq<u8>, a: int, b: int) -> int
    decreases b - a,
{
    if b <= a {
        a
    } else if s[b - 1] == 32 || s[b - 1] == 9 {
        rtrim(s, a, b - 1)
    } else {
        b
    }
}

/// End position of the trimmed range.
pub fn rtrim_exec(s: &[u8], a: usize, b: usize) -> (r: usize)
    requires
        a <= b <= s@.len(),
    ensures
        r == rtrim(s@, a as int, b as int),
        a <= r <= b,
{
    let mut e: usize = b;
    while e > a
        invariant
            a <= e <= b <= s@.len(),
            rtrim(s@, a as int, b as int) == rtrim(s@, a as int, e as int),
        decreases e,
    {
        let c = s[e - 1];
        if c == 32 || c == 9 {
            e = e - 1;
        } else {
            return e;
        }
    }
    e
}

/// One `show modules` line: the module name, then spaces, then `(`, optional
/// spaces, the source path up to the comma (trimmed), and a closing `)`.
pub open spec fn module_line_spec(s: Seq<u8>) -> Option<(Seq<u8>, Seq<u8>)> {
    let sp = find_byte(s, 32, 0);
    if sp <= 0 {
        None
    } else {
        let name = s.subrange(0, sp);
        let j = skip_ws(s, sp);
        if j >= s.len() || s[j] != 40 {
            None
        } else {
            let k = skip_ws(s, j + 1);
            let comma = find_byte(s, 44, k);
            if comma < 0 || comma <= k {
                None
            } else {
                let close = find_byte(s, 41, comma + 1);
                if close < 0 {
                    None
                } else {
                    Some((name, s.subrange(k, rtrim(s, k, comma))))
                }
            }
        }
    }
}

/// Parse one `show modules` line into (name, raw path).
pub fn parse_module_line(s: &[u8]) -> (r: Option<(Vec<u8>, Vec<u8>)>)
    ensures
        match r {
            Some((name, raw)) => module_line_spec(s@) == Some((name@, raw@)),
            None => module_line_spec(s@) is None,
        },
{
    let sp = match find_byte_from(s, 32, 0) {
        Some(i) => i,
        None => {
            return None;
        }
    };
    proof {
        lemma_find_byte_props(s@, 32, 0);
    }
    if sp == 0 {
        return None;
    }
    let name = copy_range(s, 0, sp);
    let j = crate::diagnostics::first_non_ws_from(s, sp);
    if j >= s.len() {
        return None;
    }
    if s[j] != 40 {
        return None;
    }
    let k = crate::diagnostics::first_non_ws_from(s, j + 1);
    let comma = match find_byte_from(s, 44, k) {
        Some(i) => i,
        None => {
            return None;
        }
    };
    proof {
        lemma_find_byte_props(s@, 44, k as int);
    }
    if comma <= k {
        return None;
    }
    let close = match find_byte_from(s, 41, comma + 1) {
        Some(i) => i,
        None => {
            return None;
        }
    };
    proof {
        lemma_find_byte_props(s@, 41, comma + 1);
    }
    let _ = close;
    let e = rtrim_exec(s, k, comma);
    let raw = copy_range(s, k, e);
    Some((name, raw))
}

/// The fold of [`insert_spec`] over a parsed module list.
pub open spec fn fold_insert(list: Seq<ModView>) -> Seq<ModView>
    decreases list.len(),
{
    if list.len() == 0 {
        Seq::empty()
    } else {
        insert_spec(fold_insert(list.drop_last()), list.last())
    }
}

/// The modules named by a `show modules` response: blank lines skipped,
/// every other line parsed, each path normalized against `cwd`.
pub open spec fn show_modules_spec(cwd: Seq<u8>, lines: Seq<Seq<u8>>) -> Option<Seq<ModView>>
    decreases lines.len(),
{
    if lines.len() == 0 {
        Some(Seq::empty())
    } else {
        match show_modules_spec(cwd, lines.drop_last()) {
            None => None,
            Some(pre) => {
                let l = lines.last();
                if l.len() == 0 {
                    Some(pre)
                } else {
                    match module_line_spec(l) {
                        None => None,
                        Some((name, raw)) => Some(
                            pre.push(ModView { name, path: normalize_spec(cwd, raw) }),
                        ),
                    }
                }
            }
        }
    }
}

/// Once a prefix of the response is malformed, the whole response is.
proof fn lemma_show_modules_prefix_none(cwd: Seq<u8>, lines: Seq<Seq<u8>>, k: int)
    requires
        0 <= k <= lines.len(),
        show_modules_spec(cwd, lines.subrange(0, k)) is None,
    ensures
        show_modules_spec(cwd, lines) is None,
    decreases lines.len() - k,
{
    if k == lines.len() {
        assert(lines.subrange(0, k) =~= lines);
    } else {
        assert(lines.subrange(0, k + 1).drop_last() =~= lines.subrange(0, k));
        lemma_show_modules_prefix_none(cwd, lines, k + 1);
    }
}

/// Parse a `show modules` response into a set of loaded modules with their
/// normalized paths.  A malformed line is a recoverable failure naming its
/// position.
pub fn parse_show_modules(search_paths: &ShowPaths, lines: &Vec<Vec<u8>>) -> (r: Result<
    ModuleSet,
    ParseError,
>)
    ensures
        match r {
            Ok(ms) => {
                &&& show_modules_spec(
                    search_paths.cwd@,
                    lines@.map_values(|l: Vec<u8>| l@),
                ) matches Some(list)
                &&& ms.view_seq() == fold_insert(list)
                &&& ms.wf()
            },
            Err(_) => show_modules_spec(search_paths.cwd@, lines@.map_values(|l: Vec<u8>| l@))
                is None,
        },
{
    let ghost lv = lines@.map_values(|l: Vec<u8>| l@);
    let ghost cwd = search_paths.cwd@;
    let mut ms = ModuleSet::new();
    let ghost mut list: Seq<ModView> = Seq::empty();
    let mut i: usize = 0;
    while i < lines.len()
        invariant
            i <= lines@.len(),
            lv == lines@.map_values(|l: Vec<u8>| l@),
            cwd == search_paths.cwd@,
            show_modules_spec(cwd, lv.subrange(0, i as int)) == Some(list),
            ms.view_seq() == fold_insert(list),
            ms.wf(),
        decreases lines@.len() - i,
    {
        let l = &lines[i];
        proof {
            assert(lv.subrange(0, i + 1 as int).drop_last() =~= lv.subrange(0, i as int));
            assert(lv.subrange(0, i + 1 as int).last() == lv[i as int]);
            assert(lv[i as int] == lines@[i as int]@);
        }
        if l.len() > 0 {
            match parse_module_line(l.as_slice()) {
                Some((name, raw)) => {
                    let path = normalize_path(search_paths.cwd.as_slice(), raw.as_slice());
                    let m = LoadedModule { name, path };
                    let ghost list_pre = list;
                    let ghost mv = m@;
                    ms.insert(m);
                    proof {
                        list = list_pre.push(mv);
                        assert(list.drop_last() =~= list_pre);
                        assert(list.last() == mv);
                        assert(fold_insert(list) == insert_spec(fold_insert(list_pre), mv));
                        assert(show_modules_spec(cwd, lv.subrange(0, i + 1 as int)) == Some(list));
                    }
                }
                None => {
                    proof {
                        assert(show_modules_spec(cwd, lv.subrange(0, i + 1 as int)) is None);
                        lemma_show_modules_prefix_none(cwd, lv, i + 1 as int);
                    }
                    return Err(ParseError::Malformed(i));
                }
            }
        }
        i = i + 1;
    }
    proof {
        assert(lv.subrange(0, lv.len() as int) =~= lv);
    }
    Ok(ms)
}

/// A path with its Haskell source extension dropped.
pub open spec fn strip_ext(p: Seq<u8>) -> Seq<u8> {
    if seq![46u8, 108u8, 104u8, 115u8].is_suffix_of(p) {
        p.take(p.len() - 4)
    } else if seq![46u8, 104u8, 115u8].is_suffix_of(p) {
        p.take(p.len() - 3)
    } else {
        p
    }
}

/// Path separators turned into module-name dots.
pub open spec fn dotted(p: Seq<u8>) -> Seq<u8> {
    p.map_values(
        |b: u8|
            if b == 47 {
                46u8
            } else {
                b
            },
    )
}

/// The module name a target path denotes: the path relative to the first
/// matching search path (else its basename), extension dropped, separators
/// dotted.
pub open spec fn name_from(search: Seq<Seq<u8>>, path: Seq<u8>) -> Seq<u8>
    decreases search.len(),
{
    if search.len() == 0 {
        dotted(strip_ext(path.skip(crate::glob::basename_start(path))))
    } else {
        let sp = search[0];
        if (sp + seq![47u8]).is_prefix_of(path) {
            dotted(strip_ext(path.skip(sp.len() + 1 as int)))
        } else {
            name_from(search.drop_first(), path)
        }
    }
}

/// Strip a Haskell extension.
fn strip_ext_exec(p: &[u8]) -> (r: Vec<u8>)
    ensures
        r@ == strip_ext(p@),
{
    let lhs: Vec<u8> = vec![46u8, 108u8, 104u8, 115u8];
    let hs: Vec<u8> = vec![46u8, 104u8, 115u8];
    proof {
        assert(lhs@ =~= seq![46u8, 108u8, 104u8, 115u8]);
        assert(hs@ =~= seq![46u8, 104u8, 115u8]);
    }
    if crate::bytes::ends_with(p, lhs.as_slice()) {
        let r = copy_range(p, 0, p.len() - 4);
        proof {
            assert(r@ =~= p@.take(p@.len() - 4));
        }
        r
    } else if crate::bytes::ends_with(p, hs.as_slice()) {
        let r = copy_range(p, 0, p.len() - 3);
        proof {
            assert(r@ =~= p@.take(p@.len() - 3));
        }
        r
    } else {
        let r = copy_range(p, 0, p.len());
        proof {
            assert(r@ =~= p@);
        }
        r
    }
}

/// Turn separators into dots.
fn dotted_exec(p: &[u8]) -> (r: Vec<u8>)
    ensures
        r@ == dotted(p@),
{
    let mut out: Vec<u8> = Vec::new();
    let mut i: usize = 0;
    while i < p.len()
        invariant
            i <= p@.len(),
            out@ == dotted(p@.take(i as int)),
        decreases p@.len() - i,
    {
        let b = p[i];
        if b == 47 {
            out.push(46u8);
        } else {
            out.push(b);
        }
        proof {
            assert(out@ =~= dotted(p@.take(i + 1 as int)));
        }
        i = i + 1;
    }
    proof {
        assert(p@.take(p@.len() as int) =~= p@);
    }
    out
}

/// The module name of one target path.
pub fn module_name_of(search: &Vec<Vec<u8>>, path: &[u8]) -> (r: Vec<u8>)
    ensures
        r@ == name_from(search@.map_values(|s: Vec<u8>| s@), path@),
{
    let ghost sv = search@.map_values(|s: Vec<u8>| s@);
    proof {
        assert(sv.skip(0) =~= sv);
    }
    let mut i: usize = 0;
    while i < search.len()
        invariant
            i <= search@.len(),
            sv == search@.map_values(|s: Vec<u8>| s@),
            sv.len() == search@.len(),
            name_from(sv, path@) == name_from(sv.skip(i as int), path@),
        decreases search@.len() - i,
    {
        let sp = &search[i];
        proof {
            assert(sv.skip(i as int)[0] == sv[i as int]);
            assert(sv[i as int] == search@[i as int]@);
            assert(sv.skip(i as int).drop_first() =~= sv.skip(i + 1 as int));
        }
        let is_pref = if sp.len() < path.len() {
            crate::bytes::starts_with(path, sp.as_slice()) && path[sp.len()] == 47
        } else {
            false
        };
        proof {
            let withsep = sv[i as int] + seq![47u8];
            if is_pref {
                assert(withsep =~= path@.subrange(0, withsep.len() as int)) by {
                    assert(sp@.is_prefix_of(path@));
                    assert forall|k: int| 0 <= k < withsep.len() implies withsep[k] == path@[k] by {
                        if k < sp@.len() {
                            assert(path@.subrange(0, sp@.len() as int)[k] == path@[k]);
                        }
                    };
                };
                assert(withsep.is_prefix_of(path@));
            } else {
                if withsep.is_prefix_of(path@) {
                    assert(withsep.len() <= path@.len());
                    assert(path@.subrange(0, withsep.len() as int) == withsep);
                    assert(sp@ =~= path@.subrange(0, sp@.len() as int)) by {
                        assert forall|k: int| 0 <= k < sp@.len() implies sp@[k] == path@[k] by {
                            assert(path@.subrange(0, withsep.len() as int)[k] == path@[k]);
                        };
                    };
                    assert(path@[sp@.len() as int] == withsep[sp@.len() as int]);
                    assert(false);
                }
            }
        }
        if is_pref {
            let tail = copy_range(path, sp.len() + 1, path.len());
            proof {
                assert(tail@ =~= path@.skip(sv[i as int].len() + 1 as int));
            }
            let stripped = strip_ext_exec(tail.as_slice());
            return dotted_exec(stripped.as_slice());
        }
        i = i + 1;
    }
    proof {
        assert(sv.skip(sv.len() as int) =~= Seq::<Seq<u8>>::empty());
        crate::glob::lemma_basename_start_range(path@);
    }
    let b = crate::glob::basename_start_exec(path);
    let tail = copy_range(path, b, path.len());
    proof {
        assert(tail@ =~= path@.skip(crate::glob::basename_start(path@)));
    }
    let stripped = strip_ext_exec(tail.as_slice());
    dotted_exec(stripped.as_slice())
}

/// The modules named by a `show targets` response: each nonempty line is one
/// target file, named against the search paths and normalized against `cwd`.
pub open spec fn show_targets_spec(
    cwd: Seq<u8>,
    search: Seq<Seq<u8>>,
    lines: Seq<Seq<u8>>,
) -> Seq<ModView>
    decreases lines.len(),
{
    if lines.len() == 0 {
        Seq::empty()
    } else {
        let pre = show_targets_spec(cwd, search, lines.drop_last());
        let l = lines.last();
        if l.len() == 0 {
            pre
        } else {
            pre.push(ModView { name: name_from(search, l), path: normalize_spec(cwd, l) })
        }
    }
}

/// Parse a `show targets` response (the fallback when module listing fails).
/// Every line parses; blank lines are skipped.
pub fn parse_show_targets(search_paths: &ShowPaths, lines: &Vec<Vec<u8>>) -> (r: ModuleSet)
    ensures
        r.view_seq() == fold_insert(
            show_targets_spec(
                search_paths.cwd@,
                search_paths.search_paths@.map_values(|s: Vec<u8>| s@),
                lines@.map_values(|l: Vec<u8>| l@),
            ),
        ),
        r.wf(),
{
    let ghost lv = lines@.map_values(|l: Vec<u8>| l@);
    let ghost cwd = search_paths.cwd@;
    let ghost sv = search_paths.search_paths@.map_values(|s: Vec<u8>| s@);
    let mut ms = ModuleSet::new();
    let ghost mut list: Seq<ModView> = Seq::empty();
    proof {
        assert(show_targets_spec(cwd, sv, lv.subrange(0, 0)) =~= Seq::<ModView>::empty()) by {
            assert(lv.subrange(0, 0) =~= Seq::<Seq<u8>>::empty());
        };
    }
    let mut i: usize = 0;
    while i < lines.len()
        invariant
            i <= lines@.len(),
            lv == lines@.map_values(|l: Vec<u8>| l@),
            cwd == search_paths.cwd@,
            sv == search_paths.search_paths@.map_values(|s: Vec<u8>| s@),
            show_targets_spec(cwd, sv, lv.subrange(0, i as int)) == list,
            ms.view_seq() == fold_insert(list),
            ms.wf(),
        decreases lines@.len() - i,
    {
        let l = &lines[i];
        proof {
            assert(lv.subrange(0, i + 1 as int).drop_last() =~= lv.subrange(0, i as int));
            assert(lv.subrange(0, i + 1 as int).last() == lv[i as int]);
            assert(lv[i as int] == lines@[i as int]@);
        }
        if l.len() > 0 {
            let name = module_name_of(&search_paths.search_paths, l.as_slice());
            let path = normalize_path(search_paths.cwd.as_slice(), l.as_slice());
            let m = LoadedModule { name, path };
            let ghost list_pre = list;
            let ghost mv = m@;
            ms.insert(m);
            proof {
                list = list_pre.push(mv);
                assert(list.drop_last() =~= list_pre);
                assert(list.last() == mv);
                assert(fold_insert(list) == insert_spec(fold_insert(list_pre), mv));
            }
        }
        i = i + 1;
    }
    proof {
        assert(lv.subrange(0, lv.len() as int) =~= lv);
    }
    ms
}

/// The indented value lines of a `show paths` response, trimmed.
pub open spec fn show_paths_values(lines: Seq<Seq<u8>>) -> Seq<Seq<u8>>
    decreases lines.len(),
{
    if lines.len() == 0 {
        Seq::empty()
    } else {
        let pre = show_paths_values(lines.drop_last());
        let l = lines.last();
        if l.len() > 0 && (l[0] == 32 || l[0] == 9) {
            pre.push(l.subrange(skip_ws(l, 0), rtrim(l, skip_ws(l, 0), l.len() as int)))
        } else {
            pre
        }
    }
}

/// Parse a `show paths` response: header lines end in a colon, indented
/// lines carry the values — the working directory first, then the search
/// paths.  A response without any value line is malformed.
pub fn parse_show_paths(lines: &Vec<Vec<u8>>) -> (r: Result<ShowPaths, ParseError>)
    ensures
        ({
            let vals = show_paths_values(lines@.map_values(|l: Vec<u8>| l@));
            match r {
                Ok(sp) => {
                    &&& vals.len() > 0
                    &&& sp.cwd@ == vals[0]
                    &&& sp.search_paths@.map_values(|s: Vec<u8>| s@) == vals.skip(1)
                },
                Err(_) => vals.len() == 0,
            }
        }),
{
    let ghost lv = lines@.map_values(|l: Vec<u8>| l@);
    let mut vals: Vec<Vec<u8>> = Vec::new();
    proof {
        assert(show_paths_values(lv.subrange(0, 0)) =~= Seq::<Seq<u8>>::empty()) by {
            assert(lv.subrange(0, 0) =~= Seq::<Seq<u8>>::empty());
        };
        assert(vals@.map_values(|s: Vec<u8>| s@) =~= Seq::<Seq<u8>>::empty());
    }
    let mut i: usize = 0;
    while i < lines.len()
        invariant
            i <= lines@.len(),
            lv == lines@.map_values(|l: Vec<u8>| l@),
            vals@.map_values(|s: Vec<u8>| s@) == show_paths_values(lv.subrange(0, i as int)),
        decreases lines@.len() - i,
    {
        let l = &lines[i];
        proof {
            assert(lv.subrange(0, i + 1 as int).drop_last() =~= lv.subrange(0, i as int));
            assert(lv.subrange(0, i + 1 as int).last() == lv[i as int]);
            assert(lv[i as int] == lines@[i as int]@);
        }
        if l.len() > 0 {
            let c0 = l[0];
            if c0 == 32 || c0 == 9 {
                let a = crate::diagnostics::first_non_ws_from(l.as_slice(), 0);
                let b = rtrim_exec(l.as_slice(), a, l.len());
                let v = copy_range(l.as_slice(), a, b);
                let ghost pre = vals@;
                vals.push(v);
                proof {
                    assert(vals@.map_values(|s: Vec<u8>| s@) =~~= pre.map_values(
                        |s: Vec<u8>| s@,
                    ).push(v@));
                }
            }
        }
        i = i + 1;
    }
    proof {
        assert(lv.subrange(0, lv.len() as int) =~= lv);
    }
    if vals.len() == 0 {
        return Err(ParseError::Malformed(0));
    }
    let ghost vv = vals@.map_values(|s: Vec<u8>| s@);
    let mut rest: Vec<Vec<u8>> = Vec::new();
    let mut k: usize = 1;
    while k < vals.len()
        invariant
            1 <= k <= vals@.len(),
            vv == vals@.map_values(|s: Vec<u8>| s@),
            vv.len() == vals@.len(),
            rest@.map_values(|s: Vec<u8>| s@) == vv.subrange(1, k as int),
        decreases vals@.len() - k,
    {
        let v = copy_range(vals[k].as_slice(), 0, vals[k].len());
        let ghost pre = rest@;
        proof {
            assert(v@ =~= vv[k as int]);
        }
        rest.push(v);
        proof {
            assert(rest@.map_values(|s: Vec<u8>| s@) =~~= pre.map_values(|s: Vec<u8>| s@).push(
                vv[k as int],
            ));
            assert(pre.map_values(|s: Vec<u8>| s@).push(vv[k as int]) =~= vv.subrange(
                1,
                k + 1 as int,
            ));
        }
        k = k + 1;
    }
    let cwd = copy_range(vals[0].as_slice(), 0, vals[0].len());
    proof {
        assert(cwd@ =~= vv[0]);
        assert(vv.subrange(1, vv.len() as int) =~= vv.skip(1));
    }
    Ok(ShowPaths { cwd, search_paths: rest })
}

} // verus!
