//! ASCII lowercase folding on bytes.
//!
//! Case-insensitive matching normalizes both the pattern and each line to
//! lowercase before comparing.  Folding is defined byte by byte: the ASCII
//! uppercase letters map to their lowercase counterparts and every other
//! byte is left unchanged, so folding never changes the length of a line.

use vstd::prelude::*;

verus! {

/// Lowercase folding of one byte: `b'A'..=b'Z'` map to `b'a'..=b'z'`,
/// every other byte is unchanged.
pub open spec fn fold_byte(b: u8) -> u8 {
    if 0x41 <= b && b <= 0x5a {
        (b + 0x20) as u8
    } else {
        b
    }
}

/// Lowercase folding applied to every byte of a sequence.
pub open spec fn fold_seq(s: Seq<u8>) -> Seq<u8> {
    s.map_values(|b: u8| fold_byte(b))
}

/// Folding a sequence twice is the same as folding it once.
pub proof fn lemma_fold_seq_idempotent(s: Seq<u8>)
    ensures
        fold_seq(fold_seq(s)) == fold_seq(s),
{
    assert(fold_seq(fold_seq(s)) =~= fold_seq(s));
}

/// Folding commutes with taking a subrange.
pub proof fn lemma_fold_seq_subrange(s: Seq<u8>, i: int, j: int)
    requires
        0 <= i <= j <= s.len(),
    ensures
        fold_seq(s).subrange(i, j) == fold_seq(s.subrange(i, j)),
{
    assert(fold_seq(s).subrange(i, j) =~= fold_seq(s.subrange(i, j)));
}

/// Executable lowercase folding of a byte buffer.
pub fn fold_bytes(s: &Vec<u8>) -> (r: Vec<u8>)
    ensures
        r@ == fold_seq(s@),
{
    let mut r: Vec<u8> = Vec::new();
    let mut i: usize = 0;
    while i < s.len()
        invariant
            i <= s@.len(),
            r@ == fold_seq(s@.take(i as int)),
        decreases s@.len() - i,
    {
        let b = s[i];
        if 0x41 <= b && b <= 0x5a {
            r.push(b + 0x20);
        } else {
            r.push(b);
        }
        i += 1;
        proof {
            assert(r@ =~= fold_seq(s@.take(i as int)));
        }
    }
    proof {
        assert(s@.take(s@.len() as int) =~= s@);
    }
    r
}

} // verus!
