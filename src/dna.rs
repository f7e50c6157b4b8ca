//! Nucleotide symbols and the reverse complement.
use vstd::prelude::*;

verus! {

/// The base that pairs with `c`; any symbol outside `A`, `T`, `G`, `C` becomes `A`.
pub open spec fn complement(c: char) -> char {
    if c == 'A' {
        'T'
    } else if c == 'T' {
        'A'
    } else if c == 'G' {
        'C'
    } else if c == 'C' {
        'G'
    } else {
        'A'
    }
}

/// Whether `c` is one of the four bases `A`, `T`, `G`, `C`.
pub open spec fn is_base(c: char) -> bool {
    c == 'A' || c == 'T' || c == 'G' || c == 'C'
}

/// The symbols of `s` in reverse order, each replaced by its complement.
pub open spec fn revcomp(s: Seq<char>) -> Seq<char> {
    Seq::new(s.len(), |i: int| complement(s[s.len() - 1 - i]))
}

/// The characters of `s`, one by one.
fn chars_of(s: &str) -> (r: Vec<char>)
    ensures
        r@ == s@,
{
    let mut r: Vec<char> = Vec::new();
    for c in it: s.chars()
        invariant
            r@ == it.seq().take(it.index() as int),
    {
        r.push(c);
    }
    r
}

/// The string holding the single symbol `c`, which must be a base.
fn base_str(c: char) -> (r: &'static str)
    requires
        is_base(c),
    ensures
        r@ == seq![c],
{
    proof {
        reveal_strlit("A");
        reveal_strlit("T");
        reveal_strlit("G");
        reveal_strlit("C");
    }
    if c == 'A' {
        "A"
    } else if c == 'T' {
        "T"
    } else if c == 'G' {
        "G"
    } else {
        "C"
    }
}

/// Reverses `seq` and maps `A`<->`T`, `G`<->`C`; any other symbol becomes `A`.
pub fn reverse_complement(seq: &str) -> (r: String)
    ensures
        r@ == revcomp(seq@),
{
    let cs = chars_of(seq);
    let mut r = String::new();
    let mut i: usize = cs.len();
    while i > 0
        invariant
            i <= cs@.len(),
            cs@ == seq@,
            r@ == revcomp(seq@).take(cs@.len() - i),
        decreases i,
    {
        i = i - 1;
        let c = cs[i];
        let d = if c == 'A' {
            'T'
        } else if c == 'T' {
            'A'
        } else if c == 'G' {
            'C'
        } else if c == 'C' {
            'G'
        } else {
            'A'
        };
        r.append(base_str(d));
        assert(r@ =~= revcomp(seq@).take(cs@.len() - i));
    }
    assert(r@ =~= revcomp(seq@));
    r
}

/// Applied twice to a string of bases, the reverse complement gives the string back.
pub proof fn lemma_revcomp_involution(s: Seq<char>)
    requires
        forall|i: int| 0 <= i < s.len() ==> is_base(#[trigger] s[i]),
    ensures
        revcomp(revcomp(s)) == s,
{
    assert(revcomp(revcomp(s)) =~= s);
}

/// Every position whose source symbol is not a base holds `A` in the reverse complement.
pub proof fn lemma_revcomp_unknown_to_a(s: Seq<char>, i: int)
    requires
        0 <= i < s.len(),
        !is_base(s[i]),
    ensures
        revcomp(s)[s.len() - 1 - i] == 'A',
{
}

} // verus!
