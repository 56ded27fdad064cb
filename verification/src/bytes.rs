//! Small verified helpers over byte strings: searching, numeric parsing,
//! slicing and concatenation.  The protocol grammars build on these.

use vstd::prelude::*;

verus! {

/// The first index `>= from` where `s` holds `b`, or `-1`.
pub open spec fn find_byte(s: Seq<u8>, b: u8, from: int) -> int
    decreases s.len() - from + 1,
{
    if from < 0 || from >= s.len() {
        -1
    } else if s[from] == b {
        from
    } else {
        find_byte(s, b, from + 1)
    }
}

/// What [`find_byte`] returns: the least occurrence at or after `from`, or
/// `-1` when there is none.
pub proof fn lemma_find_byte_props(s: Seq<u8>, b: u8, from: int)
    requires
        0 <= from,
    ensures
        ({
            let r = find_byte(s, b, from);
            if r == -1 {
                forall|k: int| from <= k < s.len() ==> s[k] != b
            } else {
                &&& from <= r < s.len()
                &&& s[r] == b
                &&& forall|k: int| from <= k < r ==> s[k] != b
            }
        }),
    decreases s.len() - from + 1,
{
    if from < s.len() && s[from] != b {
        lemma_find_byte_props(s, b, from + 1);
    }
}

/// An occurrence with nothing before it is what [`find_byte`] returns.
pub proof fn lemma_find_byte_is(s: Seq<u8>, b: u8, from: int, j: int)
    requires
        0 <= from <= j < s.len(),
        s[j] == b,
        forall|k: int| from <= k < j ==> s[k] != b,
    ensures
        find_byte(s, b, from) == j,
    decreases j - from,
{
    if from < j {
        lemma_find_byte_is(s, b, from + 1, j);
    }
}

/// No occurrence at all means [`find_byte`] returns `-1`.
pub proof fn lemma_find_byte_none(s: Seq<u8>, b: u8, from: int)
    requires
        0 <= from,
        forall|k: int| from <= k < s.len() ==> s[k] != b,
    ensures
        find_byte(s, b, from) == -1,
    decreases s.len() - from + 1,
{
    if from < s.len() {
        lemma_find_byte_none(s, b, from + 1);
    }
}

/// First occurrence of `b` in `v[from..to]`.
pub fn find_byte_in(v: &[u8], b: u8, from: usize, to: usize) -> (r: Option<usize>)
    requires
        from <= to <= v@.len(),
    ensures
        match r {
            Some(i) => {
                &&& from <= i < to
                &&& v@[i as int] == b
                &&& forall|k: int| from <= k < i ==> v@[k] != b
            },
            None => forall|k: int| from <= k < to ==> v@[k] != b,
        },
{
    let mut i: usize = from;
    while i < to
        invariant
            from <= i <= to <= v@.len(),
            forall|k: int| from <= k < i ==> v@[k] != b,
        decreases to - i,
    {
        if v[i] == b {
            return Some(i);
        }
        i = i + 1;
    }
    None
}

/// First occurrence of `b` in `v` at or after `from`.
pub fn find_byte_from(v: &[u8], b: u8, from: usize) -> (r: Option<usize>)
    ensures
        match r {
            Some(i) => find_byte(v@, b, from as int) == i,
            None => find_byte(v@, b, from as int) == -1,
        },
{
    let mut i: usize = from;
    while i < v.len()
        invariant
            from <= i,
            find_byte(v@, b, from as int) == find_byte(v@, b, i as int),
        decreases v@.len() - i,
    {
        if v[i] == b {
            return Some(i);
        }
        i = i + 1;
    }
    None
}

/// A decimal digit.
pub open spec fn is_digit(b: u8) -> bool {
    48 <= b <= 57
}

/// Value of the digit string `s[i..]` accumulated onto `acc`, or `None` when
/// a non-digit appears or the value would not fit in `usize`.
pub open spec fn digits_val(s: Seq<u8>, i: int, acc: nat) -> Option<nat>
    decreases s.len() - i + 1,
{
    if i < 0 || i >= s.len() {
        Some(acc)
    } else if !is_digit(s[i]) {
        None
    } else if acc * 10 + (s[i] - 48) > usize::MAX {
        None
    } else {
        digits_val(s, i + 1, (acc * 10 + (s[i] - 48)) as nat)
    }
}

/// The numeric value of a nonempty all-digit byte string that fits in
/// `usize`, else `None`.
pub open spec fn parse_number(s: Seq<u8>) -> Option<nat> {
    if s.len() == 0 {
        None
    } else {
        digits_val(s, 0, 0)
    }
}

/// Parse the decimal number written in `v[a..b]`.
pub fn parse_number_range(v: &[u8], a: usize, b: usize) -> (r: Option<usize>)
    requires
        a <= b <= v@.len(),
    ensures
        match r {
            Some(x) => parse_number(v@.subrange(a as int, b as int)) == Some(x as nat),
            None => parse_number(v@.subrange(a as int, b as int)) is None,
        },
{
    let ghost sub = v@.subrange(a as int, b as int);
    if a == b {
        return None;
    }
    let mut acc: usize = 0;
    let mut i: usize = a;
    while i < b
        invariant
            a <= i <= b <= v@.len(),
            a < b,
            sub == v@.subrange(a as int, b as int),
            digits_val(sub, i - a, acc as nat) == digits_val(sub, 0, 0),
        decreases b - i,
    {
        let d = v[i];
        proof {
            assert(sub[i - a] == v@[i as int]);
        }
        if d < 48 || d > 57 {
            return None;
        }
        let dv = (d - 48) as usize;
        let acc10 = match acc.checked_mul(10) {
            Some(x) => x,
            None => {
                return None;
            }
        };
        let next = match acc10.checked_add(dv) {
            Some(x) => x,
            None => {
                return None;
            }
        };
        acc = next;
        i = i + 1;
    }
    proof {
        assert(digits_val(sub, i - a, acc as nat) == Some(acc as nat));
    }
    Some(acc)
}

/// Copy `v[a..b]` out as a fresh vector.
pub fn copy_range(v: &[u8], a: usize, b: usize) -> (r: Vec<u8>)
    requires
        a <= b <= v@.len(),
    ensures
        r@ == v@.subrange(a as int, b as int),
{
    let mut out: Vec<u8> = Vec::new();
    let mut i: usize = a;
    while i < b
        invariant
            a <= i <= b <= v@.len(),
            out@ == v@.subrange(a as int, i as int),
        decreases b - i,
    {
        out.push(v[i]);
        proof {
            assert(v@.subrange(a as int, i + 1 as int) =~= v@.subrange(a as int, i as int).push(
                v@[i as int],
            ));
        }
        i = i + 1;
    }
    out
}

/// Append `src` to `dst`.
pub fn append_bytes(dst: &mut Vec<u8>, src: &[u8])
    ensures
        final(dst)@ == old(dst)@ + src@,
{
    let ghost base = dst@;
    let mut i: usize = 0;
    while i < src.len()
        invariant
            i <= src@.len(),
            dst@ == base + src@.subrange(0, i as int),
        decreases src@.len() - i,
    {
        dst.push(src[i]);
        proof {
            assert(base + src@.subrange(0, i + 1 as int) =~= (base + src@.subrange(0, i as int)).push(
                src@[i as int],
            ));
        }
        i = i + 1;
    }
    proof {
        assert(src@.subrange(0, src@.len() as int) =~= src@);
    }
}

/// Whole-sequence equality of two byte strings.
pub fn bytes_eq(a: &[u8], b: &[u8]) -> (r: bool)
    ensures
        r == (a@ == b@),
{
    if a.len() != b.len() {
        proof {
            assert(a@.len() != b@.len());
        }
        return false;
    }
    let mut i: usize = 0;
    while i < a.len()
        invariant
            i <= a@.len(),
            a@.len() == b@.len(),
            forall|k: int| 0 <= k < i ==> a@[k] == b@[k],
        decreases a@.len() - i,
    {
        if a[i] != b[i] {
            return false;
        }
        i = i + 1;
    }
    proof {
        assert(a@ =~= b@);
    }
    true
}

/// Whether `p` is a suffix of `v`.
pub fn ends_with(v: &[u8], p: &[u8]) -> (r: bool)
    ensures
        r == p@.is_suffix_of(v@),
{
    if p.len() > v.len() {
        proof {
            assert(!p@.is_suffix_of(v@));
        }
        return false;
    }
    let start = v.len() - p.len();
    let mut i: usize = 0;
    while i < p.len()
        invariant
            i <= p@.len(),
            p@.len() <= v@.len() <= usize::MAX,
            start == v@.len() - p@.len(),
            forall|k: int| 0 <= k < i ==> v@[start + k] == p@[k],
        decreases p@.len() - i,
    {
        proof {
            assert(start + i < v@.len());
        }
        let vi = start + i;
        if v[vi] != p[i] {
            proof {
                assert(v@.subrange(start as int, v@.len() as int)[i as int] == v@[start + i]);
            }
            return false;
        }
        i = i + 1;
    }
    proof {
        assert(v@.subrange(v@.len() - p@.len(), v@.len() as int) =~= p@);
    }
    true
}

/// Whether `p` is a prefix of `v`.
pub fn starts_with(v: &[u8], p: &[u8]) -> (r: bool)
    ensures
        r == p@.is_prefix_of(v@),
{
    if p.len() > v.len() {
        proof {
            assert(!p@.is_prefix_of(v@));
        }
        return false;
    }
    let mut i: usize = 0;
    while i < p.len()
        invariant
            i <= p@.len() <= v@.len(),
            forall|k: int| 0 <= k < i ==> v@[k] == p@[k],
        decreases p@.len() - i,
    {
        if v[i] != p[i] {
            proof {
                assert(v@.subrange(0, p@.len() as int)[i as int] == v@[i as int]);
            }
            return false;
        }
        i = i + 1;
    }
    proof {
        assert(v@.subrange(0, p@.len() as int) =~= p@);
    }
    true
}

} // verus!
