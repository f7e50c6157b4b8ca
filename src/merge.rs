//! The placeholder construction of one merged record from a pair of reads.
use vstd::prelude::*;
use vstd::utf8::encode_utf8;
use crate::dna::{revcomp, reverse_complement};
use crate::record::FastqRead;

verus! {

/// The decimal digit symbol for `d < 10`.
pub open spec fn digit_char(d: nat) -> char {
    if d == 0 { '0' }
    else if d == 1 { '1' }
    else if d == 2 { '2' }
    else if d == 3 { '3' }
    else if d == 4 { '4' }
    else if d == 5 { '5' }
    else if d == 6 { '6' }
    else if d == 7 { '7' }
    else if d == 8 { '8' }
    else { '9' }
}

/// `n` written in decimal, without leading zeros.
pub open spec fn decimal(n: nat) -> Seq<char>
    decreases n,
{
    if n < 10 {
        seq![digit_char(n)]
    } else {
        decimal(n / 10).push(digit_char(n % 10))
    }
}

/// `n` copies of the symbol `c`.
pub open spec fn repeat(c: char, n: nat) -> Seq<char> {
    Seq::new(n, |i: int| c)
}

/// The length in bytes of the UTF-8 text `s`.
pub open spec fn byte_len(s: Seq<char>) -> nat {
    encode_utf8(s).len()
}

/// The tag placed after the first read's header.
pub open spec fn merge_tag() -> Seq<char> {
    seq![' ', 'm', 'o', 'c', 'k', '_', 'm', 'e', 'r', 'g', 'e', 'd', '_']
}

/// Header of the merged record: the first header, the tag, and the byte
/// lengths of the two sequences.
pub open spec fn merged_header(a: FastqRead, b: FastqRead) -> Seq<char> {
    a.header@ + merge_tag() + decimal(byte_len(a.sequence@)) + seq!['_'] + decimal(
        byte_len(b.sequence@),
    )
}

/// Sequence of the merged record: the first sequence, `w` spacer `N`s, and
/// the reverse complement of the second sequence.
pub open spec fn merged_sequence(a: FastqRead, b: FastqRead, w: nat) -> Seq<char> {
    a.sequence@ + repeat('N', w) + revcomp(b.sequence@)
}

/// Quality of the merged record: the first quality, `w` spacer `#`s, and the
/// second quality as it is.
pub open spec fn merged_quality(a: FastqRead, b: FastqRead, w: nat) -> Seq<char> {
    a.quality@ + repeat('#', w) + b.quality@
}

/// The four newline-terminated lines of the merged record.
pub open spec fn merged_text(a: FastqRead, b: FastqRead, w: nat) -> Seq<char> {
    merged_header(a, b) + seq!['\n'] + merged_sequence(a, b, w) + seq!['\n', '+', '\n']
        + merged_quality(a, b, w) + seq!['\n']
}

/// The bytes written for the merged record of `a` and `b`.
pub open spec fn merged_bytes(a: FastqRead, b: FastqRead, w: nat) -> Seq<u8> {
    encode_utf8(merged_text(a, b, w))
}

fn digit_str(d: usize) -> (r: &'static str)
    requires
        d < 10,
    ensures
        r@ == seq![digit_char(d as nat)],
{
    proof {
        reveal_strlit("0");
        reveal_strlit("1");
        reveal_strlit("2");
        reveal_strlit("3");
        reveal_strlit("4");
        reveal_strlit("5");
        reveal_strlit("6");
        reveal_strlit("7");
        reveal_strlit("8");
        reveal_strlit("9");
    }
    if d == 0 { "0" }
    else if d == 1 { "1" }
    else if d == 2 { "2" }
    else if d == 3 { "3" }
    else if d == 4 { "4" }
    else if d == 5 { "5" }
    else if d == 6 { "6" }
    else if d == 7 { "7" }
    else if d == 8 { "8" }
    else { "9" }
}

/// Appends `n` in decimal to `out`.
fn push_decimal(out: &mut String, n: usize)
    ensures
        final(out)@ == old(out)@ + decimal(n as nat),
    decreases n,
{
    if n >= 10 {
        push_decimal(out, n / 10);
    }
    out.append(digit_str(n % 10));
    assert(final(out)@ =~= old(out)@ + decimal(n as nat));
}

/// Appends `n` copies of the one-symbol string `s` to `out`.
fn push_repeat(out: &mut String, s: &str, n: usize)
    requires
        s@.len() == 1,
    ensures
        final(out)@ == old(out)@ + repeat(s@[0], n as nat),
{
    let mut i: usize = 0;
    while i < n
        invariant
            i <= n,
            s@.len() == 1,
            out@ == old(out)@ + repeat(s@[0], i as nat),
        decreases n - i,
    {
        out.append(s);
        i = i + 1;
        assert(out@ =~= old(out)@ + repeat(s@[0], i as nat));
    }
}

/// The merged record of `r1` and `r2` with a spacer of `dist` symbols, as the
/// four lines of text in UTF-8.
pub fn merge_reads(r1: &FastqRead, r2: &FastqRead, dist: usize) -> (r: Vec<u8>)
    ensures
        r@ == merged_bytes(*r1, *r2, dist as nat),
{
    proof {
        reveal_strlit(" mock_merged_");
        reveal_strlit("_");
        reveal_strlit("\n");
        reveal_strlit("\n+\n");
        reveal_strlit("N");
        reveal_strlit("#");
    }
    let mut out = String::new();
    out.append(r1.header.as_str());
    out.append(" mock_merged_");
    push_decimal(&mut out, r1.sequence.as_str().as_bytes().len());
    out.append("_");
    push_decimal(&mut out, r2.sequence.as_str().as_bytes().len());
    assert(out@ =~= merged_header(*r1, *r2));
    out.append("\n");
    out.append(r1.sequence.as_str());
    push_repeat(&mut out, "N", dist);
    let rc = reverse_complement(r2.sequence.as_str());
    out.append(rc.as_str());
    out.append("\n+\n");
    out.append(r1.quality.as_str());
    push_repeat(&mut out, "#", dist);
    out.append(r2.quality.as_str());
    out.append("\n");
    assert(out@ =~= merged_text(*r1, *r2, dist as nat));
    out.as_str().as_bytes_vec()
}

/// The sequence of a merged record is as long as both sequences and the
/// spacer together, and so is its quality line.
pub proof fn lemma_merged_lengths(a: FastqRead, b: FastqRead, w: nat)
    ensures
        merged_sequence(a, b, w).len() == a.sequence@.len() + w + b.sequence@.len(),
        merged_quality(a, b, w).len() == a.quality@.len() + w + b.quality@.len(),
{
}

} // verus!
