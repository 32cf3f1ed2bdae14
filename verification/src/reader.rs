//! The line reader.
//!
//! A byte buffer is split into lines at line feed bytes.  The line feed is
//! not part of any line, and a carriage return immediately before a line
//! feed is stripped as well, so both `\n` and `\r\n` end a line.  A final
//! line without a trailing line feed is kept, and a trailing line feed does
//! not produce an extra empty line: the empty buffer has no lines at all.

use vstd::prelude::*;

verus! {

/// The line feed byte that ends a line.
pub const NL: u8 = 10;

/// The carriage return byte that may precede a line feed.
pub const CR: u8 = 13;

/// Position of the first line feed in `s`, or `s.len()` when there is none.
pub open spec fn first_nl(s: Seq<u8>) -> int
    decreases s.len(),
{
    if s.len() == 0 {
        0
    } else if s[0] == NL {
        0
    } else {
        1 + first_nl(s.skip(1))
    }
}

/// `first_nl` is in bounds, nothing before it is a line feed, and it lies
/// inside the sequence exactly when it points at a line feed.
pub proof fn lemma_first_nl(s: Seq<u8>)
    ensures
        0 <= first_nl(s) <= s.len(),
        forall|j: int| 0 <= j < first_nl(s) ==> s[j] != NL,
        first_nl(s) < s.len() ==> s[first_nl(s)] == NL,
    decreases s.len(),
{
    if s.len() == 0 {
    } else if s[0] == NL {
    } else {
        lemma_first_nl(s.skip(1));
        assert forall|j: int| 0 <= j < first_nl(s) implies s[j] != NL by {
            if j > 0 {
                assert(s.skip(1)[j - 1] == s[j]);
            }
        }
        if first_nl(s) < s.len() {
            assert(s.skip(1)[first_nl(s) - 1] == s[first_nl(s)]);
        }
    }
}

/// A position with no line feed before it, and a line feed (or the end of
/// the sequence) at it, is exactly `first_nl`.
pub proof fn lemma_first_nl_at(s: Seq<u8>, m: int)
    requires
        0 <= m <= s.len(),
        forall|j: int| 0 <= j < m ==> s[j] != NL,
        m < s.len() ==> s[m] == NL,
    ensures
        first_nl(s) == m,
    decreases s.len(),
{
    if m == 0 {
        if s.len() > 0 {
            lemma_first_nl(s);
        }
    } else {
        assert(s[0] != NL);
        assert forall|j: int| 0 <= j < m - 1 implies s.skip(1)[j] != NL by {
            assert(s.skip(1)[j] == s[j + 1]);
        }
        if m - 1 < s.skip(1).len() {
            assert(s.skip(1)[m - 1] == s[m]);
        }
        lemma_first_nl_at(s.skip(1), m - 1);
    }
}

/// Strips one carriage return from the end of a line, if there is one.
pub open spec fn chomp_cr(t: Seq<u8>) -> Seq<u8> {
    if t.len() > 0 && t[t.len() - 1] == CR {
        t.drop_last()
    } else {
        t
    }
}

/// The lines of a byte buffer, in order.  Each line feed ends a line; a
/// carriage return directly before the line feed is stripped; the bytes
/// after the last line feed form a final line unless they are empty.
pub open spec fn lines_of(s: Seq<u8>) -> Seq<Seq<u8>>
    decreases s.len(),
{
    if s.len() == 0 {
        Seq::empty()
    } else {
        let k = first_nl(s);
        if 0 <= k && k < s.len() {
            seq![chomp_cr(s.subrange(0, k))] + lines_of(s.skip(k + 1))
        } else {
            seq![s]
        }
    }
}

/// One raw chunk of a source, as a streaming reader hands it over: the
/// bytes of one line with the line ending still attached, unless the input
/// ended without one.  Its line is the chunk without a trailing line feed
/// and without a carriage return directly before that line feed.
pub open spec fn line_of_chunk(c: Seq<u8>) -> Seq<u8> {
    if c.len() > 0 && c[c.len() - 1] == NL {
        chomp_cr(c.drop_last())
    } else {
        c
    }
}

/// Strips the line ending from one raw chunk of a source.
pub fn strip_line_ending(chunk: Vec<u8>) -> (r: Vec<u8>)
    ensures
        r@ == line_of_chunk(chunk@),
{
    let ghost c = chunk@;
    let mut line = chunk;
    if line.len() > 0 && line[line.len() - 1] == NL {
        let shorter = line.len() - 1;
        line.truncate(shorter);
        proof {
            assert(line@ =~= c.drop_last());
        }
        if line.len() > 0 && line[line.len() - 1] == CR {
            let ghost d = line@;
            let again = line.len() - 1;
            line.truncate(again);
            proof {
                assert(line@ =~= d.drop_last());
            }
        }
    }
    line
}

/// Copies the bytes of `v` at positions `from..to` into a fresh buffer.
fn copy_range(v: &Vec<u8>, from: usize, to: usize) -> (r: Vec<u8>)
    requires
        from <= to <= v@.len(),
    ensures
        r@ == v@.subrange(from as int, to as int),
{
    let mut r: Vec<u8> = Vec::new();
    let mut i: usize = from;
    proof {
        assert(r@ =~= v@.subrange(from as int, from as int));
    }
    while i < to
        invariant
            from <= i <= to,
            to <= v@.len(),
            r@ == v@.subrange(from as int, i as int),
        decreases to - i,
    {
        r.push(v[i]);
        i += 1;
        proof {
            assert(r@ =~= v@.subrange(from as int, i as int));
        }
    }
    r
}

/// Splits a byte buffer into its lines.
pub fn split_lines(input: &Vec<u8>) -> (r: Vec<Vec<u8>>)
    ensures
        r.deep_view() == lines_of(input@),
{
    let n = input.len();
    let mut out: Vec<Vec<u8>> = Vec::new();
    let mut pos: usize = 0;
    proof {
        assert(input@.skip(0) =~= input@);
        assert(out.deep_view() + lines_of(input@.skip(0)) =~= lines_of(input@));
    }
    while pos < n
        invariant
            n == input@.len(),
            pos <= n,
            out.deep_view() + lines_of(input@.skip(pos as int)) == lines_of(input@),
        decreases n - pos,
    {
        let ghost prev_out = out.deep_view();
        let ghost t = input@.skip(pos as int);
        let mut j: usize = pos;
        while j < n && input[j] != NL
            invariant
                n == input@.len(),
                pos <= j <= n,
                forall|k: int| pos <= k < j ==> input@[k] != NL,
            decreases n - j,
        {
            j += 1;
        }
        proof {
            assert forall|jj: int| 0 <= jj < j - pos implies t[jj] != NL by {
                assert(t[jj] == input@[pos + jj]);
            }
            if j < n {
                assert(t[j - pos] == input@[j as int]);
            }
            lemma_first_nl_at(t, j - pos);
        }
        if j < n {
            let ghost k = (j - pos) as int;
            let line: Vec<u8> = if j > pos && input[j - 1] == CR {
                copy_range(input, pos, j - 1)
            } else {
                copy_range(input, pos, j)
            };
            proof {
                let piece = t.subrange(0, k);
                assert(piece =~= input@.subrange(pos as int, j as int));
                if k > 0 && piece[k - 1] == CR {
                    assert(input@[j - 1] == piece[k - 1]);
                    assert(line@ =~= piece.drop_last());
                } else {
                    if j > pos {
                        assert(piece[k - 1] == input@[j - 1]);
                    }
                    assert(line@ =~= piece);
                }
                assert(line@ == chomp_cr(piece));
                assert(t.skip(k + 1) =~= input@.skip(j + 1));
                assert(lines_of(t) == seq![line@] + lines_of(input@.skip(j + 1)));
            }
            out.push(line);
            pos = j + 1;
            proof {
                assert(out.deep_view() =~~= prev_out.push(line@));
                assert(prev_out.push(line@) + lines_of(input@.skip(pos as int)) =~= prev_out + (
                seq![line@] + lines_of(input@.skip(pos as int))));
            }
        } else {
            let line: Vec<u8> = copy_range(input, pos, n);
            proof {
                assert(t =~= input@.subrange(pos as int, n as int));
                assert(line@ == t);
                assert(lines_of(t) == seq![line@]);
            }
            out.push(line);
            pos = n;
            proof {
                assert(input@.skip(n as int) =~= Seq::<u8>::empty());
                assert(out.deep_view() =~~= prev_out.push(line@));
                assert(prev_out.push(line@) + lines_of(input@.skip(pos as int)) =~= prev_out
                    + seq![line@]);
            }
        }
    }
    proof {
        assert(input@.skip(n as int) =~= Seq::<u8>::empty());
        assert(out.deep_view() + lines_of(input@.skip(n as int)) =~= out.deep_view());
    }
    out
}

} // verus!
