//! Stripping of ANSI escape sequences from compiler output.
//!
//! Diagnostic classification happens against de-colored text, while the raw
//! bytes (including color) stay available to any downstream sink.  The
//! stripper removes CSI sequences (`ESC [` parameters and one final byte,
//! which covers all color and style codes) and two-byte `ESC x` sequences.

use vstd::prelude::*;

verus! {

/// State of the byte-at-a-time escape stripper.
#[derive(Clone, Copy, PartialEq, Eq, Structural)]
pub enum StripMode {
    /// Ordinary text.
    Text,
    /// An escape byte was just seen.
    Esc,
    /// Inside a CSI sequence, waiting for the final byte.
    Csi,
}

/// The de-colored tail of `s` from position `i` onward, entered in `mode`.
pub open spec fn strip_ansi_go(s: Seq<u8>, i: int, mode: StripMode) -> Seq<u8>
    decreases s.len() - i + 1,
{
    if i < 0 || i >= s.len() {
        Seq::empty()
    } else {
        let b = s[i];
        match mode {
            StripMode::Text => if b == 27 {
                strip_ansi_go(s, i + 1, StripMode::Esc)
            } else {
                seq![b] + strip_ansi_go(s, i + 1, StripMode::Text)
            },
            StripMode::Esc => if b == 91 {
                strip_ansi_go(s, i + 1, StripMode::Csi)
            } else {
                strip_ansi_go(s, i + 1, StripMode::Text)
            },
            StripMode::Csi => if 64 <= b && b <= 126 {
                strip_ansi_go(s, i + 1, StripMode::Text)
            } else {
                strip_ansi_go(s, i + 1, StripMode::Csi)
            },
        }
    }
}

/// `s` with every ANSI escape sequence removed.
pub open spec fn strip_ansi_spec(s: Seq<u8>) -> Seq<u8> {
    strip_ansi_go(s, 0, StripMode::Text)
}

/// Remove ANSI escape sequences from one line of raw output.
pub fn strip_ansi(s: &[u8]) -> (r: Vec<u8>)
    ensures
        r@ == strip_ansi_spec(s@),
{
    let mut out: Vec<u8> = Vec::new();
    let mut mode = StripMode::Text;
    let mut i: usize = 0;
    while i < s.len()
        invariant
            i <= s@.len(),
            strip_ansi_spec(s@) == out@ + strip_ansi_go(s@, i as int, mode),
        decreases s@.len() - i,
    {
        let b = s[i];
        match mode {
            StripMode::Text => {
                if b == 27 {
                    mode = StripMode::Esc;
                } else {
                    let ghost out0 = out@;
                    out.push(b);
                    proof {
                        assert(out@ + strip_ansi_go(s@, i + 1, StripMode::Text) =~= out0 + (seq![b]
                            + strip_ansi_go(s@, i + 1, StripMode::Text)));
                    }
                }
            }
            StripMode::Esc => {
                if b == 91 {
                    mode = StripMode::Csi;
                } else {
                    mode = StripMode::Text;
                }
            }
            StripMode::Csi => {
                if 64 <= b && b <= 126 {
                    mode = StripMode::Text;
                }
            }
        }
        i = i + 1;
    }
    proof {
        assert(out@ + strip_ansi_go(s@, i as int, mode) =~= out@);
    }
    out
}

} // verus!
