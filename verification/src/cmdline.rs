//! Decoding of a null-delimited command-line buffer into one printable
//! byte string.

use vstd::prelude::*;

verus! {

use crate::ascii::{ASCII_NUL, ASCII_SPACE};

/// The printable form of a null-delimited argument buffer: the single
/// terminating null byte, if present, is removed, and every remaining null
/// separator becomes one space.
pub open spec fn spec_chop_null(s: Seq<u8>) -> Seq<u8> {
    let t = if s.len() > 0 && s[s.len() - 1] == ASCII_NUL {
        s.drop_last()
    } else {
        s
    };
    t.map_values(|b: u8| if b == ASCII_NUL { ASCII_SPACE } else { b })
}

/// Turn a raw null-delimited argument buffer into a single printable line:
/// drop exactly one trailing null terminator if the buffer ends in one, then
/// replace every remaining null byte with a space, in place.
pub fn chop_null(s: Vec<u8>) -> (r: Vec<u8>)
    ensures
        r@ == spec_chop_null(s@),
{
    let mut v = s;
    let n = v.len();
    if n > 0 && v[n - 1] == ASCII_NUL {
        v.pop();
    }
    let ghost t = v@;
    let len = v.len();
    let mut i: usize = 0;
    while i < len
        invariant
            len == v@.len(),
            t.len() == len,
            i <= len,
            forall|j: int| 0 <= j < i ==> v@[j] == (if t[j] == ASCII_NUL { ASCII_SPACE } else { t[j] }),
            forall|j: int| i <= j < len ==> v@[j] == t[j],
        decreases len - i,
    {
        if v[i] == ASCII_NUL {
            v[i] = ASCII_SPACE;
        }
        i += 1;
    }
    proof {
        assert(v@ =~= spec_chop_null(s@));
    }
    v
}

} // verus!
