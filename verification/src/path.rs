//! Lexical path normalization.
//!
//! The REPL reports module paths relative to its own working directory; the
//! watcher reports absolute paths.  Comparing the two requires one canonical
//! form: absolute, with empty, `.` and `..` components resolved lexically.

use vstd::prelude::*;

use crate::bytes::append_bytes;
use crate::bytes::copy_range;
use crate::bytes::ends_with;
use crate::bytes::find_byte;
use crate::bytes::find_byte_from;
use crate::bytes::lemma_find_byte_props;

verus! {

/// The views of a list of byte vectors.
pub open spec fn comps_view(v: Seq<Vec<u8>>) -> Seq<Seq<u8>> {
    v.map_values(|c: Vec<u8>| c@)
}

/// Split `s` at every occurrence of `b`.  A trailing separator yields a
/// trailing empty component; the empty string yields one empty component.
pub open spec fn split_byte(s: Seq<u8>, b: u8) -> Seq<Seq<u8>>
    decreases s.len(),
{
    let j = find_byte(s, b, 0);
    if j < 0 || j >= s.len() {
        seq![s]
    } else {
        seq![s.subrange(0, j)] + split_byte(s.subrange(j + 1, s.len() as int), b)
    }
}

/// One step of lexical cleaning: empty and `.` components vanish, `..` pops
/// the last kept component, anything else is kept.
pub open spec fn clean_push(stack: Seq<Seq<u8>>, comp: Seq<u8>) -> Seq<Seq<u8>> {
    if comp.len() == 0 || comp == seq![46u8] {
        stack
    } else if comp == seq![46u8, 46u8] {
        if stack.len() > 0 {
            stack.drop_last()
        } else {
            stack
        }
    } else {
        stack.push(comp)
    }
}

/// Fold [`clean_push`] over a component list.
pub open spec fn clean_comps(comps: Seq<Seq<u8>>) -> Seq<Seq<u8>>
    decreases comps.len(),
{
    if comps.len() == 0 {
        Seq::empty()
    } else {
        clean_push(clean_comps(comps.drop_last()), comps.last())
    }
}

/// Join components into an absolute path: `/` plus the components separated
/// by `/`.  No components at all yield the root `/`.
pub open spec fn join_abs(comps: Seq<Seq<u8>>) -> Seq<u8>
    decreases comps.len(),
{
    if comps.len() == 0 {
        Seq::empty()
    } else {
        join_abs(comps.drop_last()) + seq![47u8] + comps.last()
    }
}

/// The canonical absolute form of `path`: made absolute against `cwd` when
/// relative, then cleaned lexically.
pub open spec fn normalize_spec(cwd: Seq<u8>, path: Seq<u8>) -> Seq<u8> {
    let joined = if path.len() > 0 && path[0] == 47 {
        path
    } else {
        cwd + seq![47u8] + path
    };
    let cleaned = clean_comps(split_byte(joined, 47));
    if cleaned.len() == 0 {
        seq![47u8]
    } else {
        join_abs(cleaned)
    }
}

/// A path the REPL can load: a Haskell source file, by extension.
pub open spec fn is_haskell_source(p: Seq<u8>) -> bool {
    seq![46u8, 104u8, 115u8].is_suffix_of(p) || seq![46u8, 108u8, 104u8, 115u8].is_suffix_of(p)
}

/// Whether `p` names a Haskell source file (`.hs` or `.lhs`).
pub fn is_haskell_source_path(p: &[u8]) -> (r: bool)
    ensures
        r == is_haskell_source(p@),
{
    let hs: Vec<u8> = vec![46u8, 104u8, 115u8];
    let lhs: Vec<u8> = vec![46u8, 108u8, 104u8, 115u8];
    proof {
        assert(hs@ =~= seq![46u8, 104u8, 115u8]);
        assert(lhs@ =~= seq![46u8, 108u8, 104u8, 115u8]);
    }
    ends_with(p, hs.as_slice()) || ends_with(p, lhs.as_slice())
}

/// Split `s` at every `b`.
pub fn split_byte_exec(s: &[u8], b: u8) -> (r: Vec<Vec<u8>>)
    ensures
        comps_view(r@) == split_byte(s@, b),
{
    let mut out: Vec<Vec<u8>> = Vec::new();
    let mut pos: usize = 0;
    proof {
        assert(s@.subrange(0, s@.len() as int) =~= s@);
        assert(comps_view(out@) + split_byte(s@, b) =~~= split_byte(s@, b));
    }
    while pos < s.len()
        invariant
            pos <= s@.len(),
            split_byte(s@, b) == comps_view(out@) + split_byte(
                s@.subrange(pos as int, s@.len() as int),
                b,
            ),
            pos > 0 ==> pos <= s@.len(),
        decreases s@.len() - pos,
    {
        let ghost rest = s@.subrange(pos as int, s@.len() as int);
        let ghost out_pre = out@;
        match find_byte_from(s, b, pos) {
            Some(j) => {
                proof {
                    lemma_find_byte_props(s@, b, pos as int);
                    assert forall|k: int| 0 <= k < rest.len() implies rest[k] == s@[pos + k] by {};
                    if j - pos < rest.len() {
                        crate::bytes::lemma_find_byte_is(rest, b, 0, j - pos);
                    }
                }
                let piece = copy_range(s, pos, j);
                out.push(piece);
                proof {
                    assert(rest.subrange(0, j - pos) =~= s@.subrange(pos as int, j as int));
                    assert(rest.subrange(j - pos + 1, rest.len() as int) =~= s@.subrange(
                        j + 1,
                        s@.len() as int,
                    ));
                    assert(comps_view(out@) =~~= comps_view(out_pre).push(s@.subrange(pos as int, j as int)));
                    assert(comps_view(out_pre) + split_byte(rest, b)
                        =~~= comps_view(out@) + split_byte(
                        s@.subrange(j + 1, s@.len() as int),
                        b,
                    ));
                }
                pos = j + 1;
            }
            None => {
                proof {
                    lemma_find_byte_props(s@, b, pos as int);
                    assert forall|k: int| 0 <= k < rest.len() implies rest[k] != b by {
                        assert(rest[k] == s@[pos + k]);
                    };
                    crate::bytes::lemma_find_byte_none(rest, b, 0);
                }
                let piece = copy_range(s, pos, s.len());
                out.push(piece);
                proof {
                    assert(split_byte(rest, b) =~~= seq![rest]);
                    assert(comps_view(out@) =~~= comps_view(out_pre).push(rest));
                    assert(comps_view(out_pre) + seq![rest] =~~= comps_view(out_pre).push(rest));
                    assert(comps_view(out@) == split_byte(s@, b));
                }
                return out;
            }
        }
    }
    // Either the input was empty, or it ended with a separator: one empty
    // component remains.
    let ghost rest = s@.subrange(pos as int, s@.len() as int);
    let empty_piece: Vec<u8> = Vec::new();
    let ghost out_pre = out@;
    out.push(empty_piece);
    proof {
        assert(rest =~= Seq::<u8>::empty());
        crate::bytes::lemma_find_byte_none(rest, b, 0);
        assert(split_byte(rest, b) =~~= seq![rest]);
        assert(comps_view(out@) =~~= comps_view(out_pre).push(
            Seq::<u8>::empty(),
        ));
        assert(comps_view(out@) =~~= split_byte(s@, b));
    }
    out
}

/// Canonical absolute form of `path` against the working directory `cwd`.
pub fn normalize_path(cwd: &[u8], path: &[u8]) -> (r: Vec<u8>)
    ensures
        r@ == normalize_spec(cwd@, path@),
{
    let mut joined: Vec<u8> = Vec::new();
    if path.len() > 0 && path[0] == 47 {
        append_bytes(&mut joined, path);
        proof {
            assert(joined@ =~= path@);
        }
    } else {
        append_bytes(&mut joined, cwd);
        joined.push(47u8);
        append_bytes(&mut joined, path);
        proof {
            assert(joined@ =~= cwd@ + seq![47u8] + path@);
        }
    }
    let comps = split_byte_exec(joined.as_slice(), 47);
    let ghost comps_v = comps_view(comps@);
    let dot: Vec<u8> = vec![46u8];
    let dotdot: Vec<u8> = vec![46u8, 46u8];
    proof {
        assert(dot@ =~= seq![46u8]);
        assert(dotdot@ =~= seq![46u8, 46u8]);
    }
    let mut stack: Vec<Vec<u8>> = Vec::new();
    let mut i: usize = 0;
    while i < comps.len()
        invariant
            i <= comps@.len(),
            comps_v == comps_view(comps@),
            dot@ == seq![46u8],
            dotdot@ == seq![46u8, 46u8],
            comps_view(stack@) == clean_comps(comps_v.subrange(0, i as int)),
        decreases comps@.len() - i,
    {
        let ghost pre = comps_view(stack@);
        let c = &comps[i];
        proof {
            assert(comps_v.subrange(0, i + 1 as int).drop_last() =~= comps_v.subrange(0, i as int));
            assert(comps_v.subrange(0, i + 1 as int).last() == comps_v[i as int]);
            assert(comps_v[i as int] == comps@[i as int]@);
        }
        if c.len() == 0 || crate::bytes::bytes_eq(c.as_slice(), dot.as_slice()) {
            // dropped
        } else if crate::bytes::bytes_eq(c.as_slice(), dotdot.as_slice()) {
            if stack.len() > 0 {
                let _popped = stack.pop();
                proof {
                    assert(comps_view(stack@) =~~= pre.drop_last());
                }
            }
        } else {
            let piece = copy_range(c.as_slice(), 0, c.len());
            proof {
                assert(piece@ =~= c@);
            }
            stack.push(piece);
            proof {
                assert(comps_view(stack@) =~~= pre.push(c@));
            }
        }
        i = i + 1;
    }
    proof {
        assert(comps_v.subrange(0, comps_v.len() as int) =~= comps_v);
    }
    if stack.len() == 0 {
        let root: Vec<u8> = vec![47u8];
        proof {
            assert(root@ =~= seq![47u8]);
        }
        return root;
    }
    let ghost cleaned = comps_view(stack@);
    let mut out: Vec<u8> = Vec::new();
    let mut k: usize = 0;
    while k < stack.len()
        invariant
            k <= stack@.len(),
            cleaned == comps_view(stack@),
            cleaned.len() == stack@.len(),
            out@ == join_abs(cleaned.subrange(0, k as int)),
        decreases stack@.len() - k,
    {
        let ghost out_pre = out@;
        out.push(47u8);
        append_bytes(&mut out, stack[k].as_slice());
        proof {
            assert(cleaned.subrange(0, k + 1 as int).drop_last() =~= cleaned.subrange(0, k as int));
            assert(cleaned.subrange(0, k + 1 as int).last() == cleaned[k as int]);
            assert(cleaned[k as int] == stack@[k as int]@);
            assert(out@ =~= join_abs(cleaned.subrange(0, k as int)) + seq![47u8] + cleaned[k as int]);
        }
        k = k + 1;
    }
    proof {
        assert(cleaned.subrange(0, cleaned.len() as int) =~= cleaned);
    }
    out
}

} // verus!
