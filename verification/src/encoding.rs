//! The encoding check.
//!
//! Lines are handed to the engine as raw bytes, but the engine promises a
//! decoded-text contract: a line that is not valid UTF-8 is rejected.  A
//! byte sequence is valid UTF-8 when it is a concatenation of well-formed
//! scalar-value encodings: one byte below `0x80`, or a two- to four-byte
//! sequence whose leading byte and continuation bytes lie in the ranges the
//! encoding prescribes, with overlong forms, surrogate code points and
//! values above `0x10FFFF` excluded.

use vstd::prelude::*;

verus! {

/// A UTF-8 continuation byte.
pub open spec fn is_cont(b: u8) -> bool {
    0x80 <= b && b <= 0xbf
}

/// Length of the well-formed scalar-value encoding at the front of `s`,
/// or `0` when `s` is empty or starts with a malformed sequence.
pub open spec fn utf8_step(s: Seq<u8>) -> int {
    if s.len() == 0 {
        0
    } else {
        let b0 = s[0];
        if b0 < 0x80 {
            1
        } else if 0xc2 <= b0 && b0 <= 0xdf {
            if s.len() >= 2 && is_cont(s[1]) {
                2
            } else {
                0
            }
        } else if b0 == 0xe0 {
            if s.len() >= 3 && 0xa0 <= s[1] && s[1] <= 0xbf && is_cont(s[2]) {
                3
            } else {
                0
            }
        } else if 0xe1 <= b0 && b0 <= 0xec || b0 == 0xee || b0 == 0xef {
            if s.len() >= 3 && is_cont(s[1]) && is_cont(s[2]) {
                3
            } else {
                0
            }
        } else if b0 == 0xed {
            if s.len() >= 3 && 0x80 <= s[1] && s[1] <= 0x9f && is_cont(s[2]) {
                3
            } else {
                0
            }
        } else if b0 == 0xf0 {
            if s.len() >= 4 && 0x90 <= s[1] && s[1] <= 0xbf && is_cont(s[2]) && is_cont(s[3]) {
                4
            } else {
                0
            }
        } else if 0xf1 <= b0 && b0 <= 0xf3 {
            if s.len() >= 4 && is_cont(s[1]) && is_cont(s[2]) && is_cont(s[3]) {
                4
            } else {
                0
            }
        } else if b0 == 0xf4 {
            if s.len() >= 4 && 0x80 <= s[1] && s[1] <= 0x8f && is_cont(s[2]) && is_cont(s[3]) {
                4
            } else {
                0
            }
        } else {
            0
        }
    }
}

/// `s` is a concatenation of well-formed UTF-8 scalar-value encodings.
pub open spec fn is_valid_utf8(s: Seq<u8>) -> bool
    decreases s.len(),
{
    if s.len() == 0 {
        true
    } else {
        let k = utf8_step(s);
        if k <= 0 {
            false
        } else {
            is_valid_utf8(s.skip(k))
        }
    }
}

/// Length of the scalar-value encoding that starts at position `i` of `v`,
/// or `0` when the bytes there are malformed.
fn utf8_step_at(v: &Vec<u8>, i: usize) -> (k: usize)
    requires
        i < v@.len(),
    ensures
        k as int == utf8_step(v@.skip(i as int)),
        i + k <= v@.len(),
{
    let ghost t = v@.skip(i as int);
    let n = v.len();
    let rest = n - i;
    let b0 = v[i];
    proof {
        assert(t[0] == v@[i as int]);
        assert(t.len() == rest);
        if rest >= 2 {
            assert(t[1] == v@[i + 1]);
        }
        if rest >= 3 {
            assert(t[2] == v@[i + 2]);
        }
        if rest >= 4 {
            assert(t[3] == v@[i + 3]);
        }
    }
    if b0 < 0x80 {
        1
    } else if 0xc2 <= b0 && b0 <= 0xdf {
        if rest >= 2 && 0x80 <= v[i + 1] && v[i + 1] <= 0xbf {
            2
        } else {
            0
        }
    } else if b0 == 0xe0 {
        if rest >= 3 && 0xa0 <= v[i + 1] && v[i + 1] <= 0xbf && 0x80 <= v[i + 2] && v[i + 2]
            <= 0xbf {
            3
        } else {
            0
        }
    } else if 0xe1 <= b0 && b0 <= 0xec || b0 == 0xee || b0 == 0xef {
        if rest >= 3 && 0x80 <= v[i + 1] && v[i + 1] <= 0xbf && 0x80 <= v[i + 2] && v[i + 2]
            <= 0xbf {
            3
        } else {
            0
        }
    } else if b0 == 0xed {
        if rest >= 3 && 0x80 <= v[i + 1] && v[i + 1] <= 0x9f && 0x80 <= v[i + 2] && v[i + 2]
            <= 0xbf {
            3
        } else {
            0
        }
    } else if b0 == 0xf0 {
        if rest >= 4 && 0x90 <= v[i + 1] && v[i + 1] <= 0xbf && 0x80 <= v[i + 2] && v[i + 2]
            <= 0xbf && 0x80 <= v[i + 3] && v[i + 3] <= 0xbf {
            4
        } else {
            0
        }
    } else if 0xf1 <= b0 && b0 <= 0xf3 {
        if rest >= 4 && 0x80 <= v[i + 1] && v[i + 1] <= 0xbf && 0x80 <= v[i + 2] && v[i + 2]
            <= 0xbf && 0x80 <= v[i + 3] && v[i + 3] <= 0xbf {
            4
        } else {
            0
        }
    } else if b0 == 0xf4 {
        if rest >= 4 && 0x80 <= v[i + 1] && v[i + 1] <= 0x8f && 0x80 <= v[i + 2] && v[i + 2]
            <= 0xbf && 0x80 <= v[i + 3] && v[i + 3] <= 0xbf {
            4
        } else {
            0
        }
    } else {
        0
    }
}

/// Decides whether a whole byte buffer is valid UTF-8.
pub fn check_utf8(v: &Vec<u8>) -> (r: bool)
    ensures
        r == is_valid_utf8(v@),
{
    let n = v.len();
    let mut i: usize = 0;
    proof {
        assert(v@.skip(0) =~= v@);
    }
    while i < n
        invariant
            n == v@.len(),
            i <= n,
            is_valid_utf8(v@) == is_valid_utf8(v@.skip(i as int)),
        decreases n - i,
    {
        let k = utf8_step_at(v, i);
        if k == 0 {
            return false;
        }
        proof {
            assert(v@.skip(i as int).skip(k as int) =~= v@.skip(i + k));
        }
        i += k;
    }
    proof {
        assert(v@.skip(n as int) =~= Seq::<u8>::empty());
    }
    true
}

} // verus!
