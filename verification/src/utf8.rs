//! UTF-8 validity of a byte sequence.
//!
//! Every argument and environment entry is interpreted as UTF-8 text before
//! it is shown; bytes that are not valid UTF-8 are a fatal decode failure.
//! [`is_utf8`] states validity by the standard table of well-formed byte
//! sequences, and [`validate_utf8`] decides it.

use vstd::prelude::*;

verus! {

/// Whether `b` is a continuation byte (`10xxxxxx`).
pub open spec fn is_cont(b: u8) -> bool {
    0x80 <= b && b <= 0xBF
}

/// Whether `s` is a well-formed UTF-8 byte sequence: a concatenation of
/// one- to four-byte encodings, shortest-form only, with no surrogate
/// code points and nothing above U+10FFFF.
pub open spec fn is_utf8(s: Seq<u8>) -> bool
    decreases s.len(),
{
    if s.len() == 0 {
        true
    } else {
        let b0 = s[0];
        if b0 < 0x80 {
            is_utf8(s.skip(1))
        } else if 0xC2 <= b0 && b0 <= 0xDF {
            s.len() >= 2 && is_cont(s[1]) && is_utf8(s.skip(2))
        } else if b0 == 0xE0 {
            s.len() >= 3 && 0xA0 <= s[1] && s[1] <= 0xBF && is_cont(s[2]) && is_utf8(s.skip(3))
        } else if b0 == 0xED {
            s.len() >= 3 && 0x80 <= s[1] && s[1] <= 0x9F && is_cont(s[2]) && is_utf8(s.skip(3))
        } else if (0xE1 <= b0 && b0 <= 0xEC) || b0 == 0xEE || b0 == 0xEF {
            s.len() >= 3 && is_cont(s[1]) && is_cont(s[2]) && is_utf8(s.skip(3))
        } else if b0 == 0xF0 {
            s.len() >= 4 && 0x90 <= s[1] && s[1] <= 0xBF && is_cont(s[2]) && is_cont(s[3])
                && is_utf8(s.skip(4))
        } else if 0xF1 <= b0 && b0 <= 0xF3 {
            s.len() >= 4 && is_cont(s[1]) && is_cont(s[2]) && is_cont(s[3]) && is_utf8(s.skip(4))
        } else if b0 == 0xF4 {
            s.len() >= 4 && 0x80 <= s[1] && s[1] <= 0x8F && is_cont(s[2]) && is_cont(s[3])
                && is_utf8(s.skip(4))
        } else {
            false
        }
    }
}

/// Decide whether `v` holds well-formed UTF-8.
pub fn validate_utf8(v: &Vec<u8>) -> (r: bool)
    ensures
        r == is_utf8(v@),
{
    let len: usize = v.len();
    let mut i: usize = 0;
    proof {
        assert(v@.skip(0) =~= v@);
    }
    loop
        invariant
            i <= len,
            len == v@.len(),
            is_utf8(v@) == is_utf8(v@.skip(i as int)),
        decreases len - i,
    {
        proof {
            assert(v@.skip(i as int).len() == len - i);
        }
        if i >= len {
            return true;
        }
        let ghost rest = v@.skip(i as int);
        let b0 = v[i];
        assert(rest[0] == b0);
        let step: usize;
        if b0 < 0x80 {
            step = 1;
        } else if 0xC2 <= b0 && b0 <= 0xDF {
            if !(len - i >= 2 && 0x80 <= v[i + 1] && v[i + 1] <= 0xBF) {
                return false;
            }
            assert(rest[1] == v@[i + 1]);
            step = 2;
        } else if b0 == 0xE0 {
            if !(len - i >= 3 && 0xA0 <= v[i + 1] && v[i + 1] <= 0xBF && 0x80 <= v[i + 2]
                && v[i + 2] <= 0xBF) {
                return false;
            }
            assert(rest[1] == v@[i + 1] && rest[2] == v@[i + 2]);
            step = 3;
        } else if b0 == 0xED {
            if !(len - i >= 3 && 0x80 <= v[i + 1] && v[i + 1] <= 0x9F && 0x80 <= v[i + 2]
                && v[i + 2] <= 0xBF) {
                return false;
            }
            assert(rest[1] == v@[i + 1] && rest[2] == v@[i + 2]);
            step = 3;
        } else if (0xE1 <= b0 && b0 <= 0xEC) || b0 == 0xEE || b0 == 0xEF {
            if !(len - i >= 3 && 0x80 <= v[i + 1] && v[i + 1] <= 0xBF && 0x80 <= v[i + 2]
                && v[i + 2] <= 0xBF) {
                return false;
            }
            assert(rest[1] == v@[i + 1] && rest[2] == v@[i + 2]);
            step = 3;
        } else if b0 == 0xF0 {
            if !(len - i >= 4 && 0x90 <= v[i + 1] && v[i + 1] <= 0xBF && 0x80 <= v[i + 2]
                && v[i + 2] <= 0xBF && 0x80 <= v[i + 3] && v[i + 3] <= 0xBF) {
                return false;
            }
            assert(rest[1] == v@[i + 1] && rest[2] == v@[i + 2] && rest[3] == v@[i + 3]);
            step = 4;
        } else if 0xF1 <= b0 && b0 <= 0xF3 {
            if !(len - i >= 4 && 0x80 <= v[i + 1] && v[i + 1] <= 0xBF && 0x80 <= v[i + 2]
                && v[i + 2] <= 0xBF && 0x80 <= v[i + 3] && v[i + 3] <= 0xBF) {
                return false;
            }
            assert(rest[1] == v@[i + 1] && rest[2] == v@[i + 2] && rest[3] == v@[i + 3]);
            step = 4;
        } else if b0 == 0xF4 {
            if !(len - i >= 4 && 0x80 <= v[i + 1] && v[i + 1] <= 0x8F && 0x80 <= v[i + 2]
                && v[i + 2] <= 0xBF && 0x80 <= v[i + 3] && v[i + 3] <= 0xBF) {
                return false;
            }
            assert(rest[1] == v@[i + 1] && rest[2] == v@[i + 2] && rest[3] == v@[i + 3]);
            step = 4;
        } else {
            return false;
        }
        proof {
            assert(rest.skip(step as int) =~= v@.skip(i + step));
        }
        i = i + step;
    }
}

} // verus!
