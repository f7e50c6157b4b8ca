//! Chunk-by-chunk merging of two record streams.
use vstd::prelude::*;
use vstd::slice::slice_subrange;
use vstd::arithmetic::div_mod::{lemma_mod_self_0, lemma_mod_sub_multiples_vanish, lemma_small_mod};
use rayon::iter::{IndexedParallelIterator, IntoParallelRefIterator, ParallelIterator};
use crate::merge::{merge_reads, merged_bytes};
use crate::record::FastqRead;

verus! {

/// The smaller of two naturals.
pub open spec fn min_nat(x: nat, y: nat) -> nat {
    if x <= y { x } else { y }
}

/// The merged records of one pair of chunks: one for each position that both
/// chunks hold, in that order; the excess of the longer chunk is dropped.
pub open spec fn chunk_output(a: Seq<FastqRead>, b: Seq<FastqRead>, w: nat) -> Seq<Seq<u8>> {
    Seq::new(min_nat(a.len(), b.len()), |i: int| merged_bytes(a[i], b[i], w))
}

/// Everything written for two streams read `c` records at a time: chunk pairs
/// are merged until either side's chunk comes back empty, after which the
/// rest of the other stream is never read.
pub open spec fn pipeline_output(a: Seq<FastqRead>, b: Seq<FastqRead>, c: nat, w: nat) -> Seq<
    Seq<u8>,
>
    decreases a.len(),
{
    if c == 0 || a.len() == 0 || b.len() == 0 {
        seq![]
    } else {
        let ka = min_nat(c, a.len());
        let kb = min_nat(c, b.len());
        chunk_output(a.take(ka as int), b.take(kb as int), w) + pipeline_output(
            a.skip(ka as int),
            b.skip(kb as int),
            c,
            w,
        )
    }
}

/// The number of merged records of each processed chunk, for streams of `na`
/// and `nb` records read `c` at a time.
pub open spec fn chunk_sizes(na: nat, nb: nat, c: nat) -> Seq<nat>
    decreases na,
{
    if c == 0 || na == 0 || nb == 0 {
        seq![]
    } else {
        seq![min_nat(min_nat(c, na), min_nat(c, nb))] + chunk_sizes(
            (na - min_nat(c, na)) as nat,
            (nb - min_nat(c, nb)) as nat,
            c,
        )
    }
}

/// The contents of each buffer in `v`.
pub open spec fn buffers(v: Seq<Vec<u8>>) -> Seq<Seq<u8>> {
    v.map_values(|x: Vec<u8>| x@)
}

/// What the pipeline does with one pair of chunks read in the same round.
pub enum ChunkStep {
    /// One side came back empty: the streams count as exhausted.
    Drained,
    /// The merged records to write, and whether the two chunks differed in length.
    Merged { records: Vec<Vec<u8>>, mismatched: bool },
}

/// Relies on rayon: `zip` of two indexed parallel iterators yields the pairs
/// that both sides have, position by position, and `collect` into a `Vec`
/// keeps that order whatever order the workers finish in.
#[verifier::external_body]
fn par_merge_pairs(a: &[FastqRead], b: &[FastqRead], dist: usize) -> (r: Vec<Vec<u8>>)
    ensures
        buffers(r@) == chunk_output(a@, b@, dist as nat),
{
    a.par_iter().zip(b.par_iter()).map(|(x, y)| merge_reads(x, y, dist)).collect()
}

/// Decides on one pair of chunks: stop when either is empty, else merge the
/// pairs both hold, in order, and flag a length mismatch.
pub fn process_chunk(a: &[FastqRead], b: &[FastqRead], dist: usize) -> (r: ChunkStep)
    ensures
        r is Drained <==> (a@.len() == 0 || b@.len() == 0),
        r matches ChunkStep::Merged { records, mismatched } ==> {
            &&& buffers(records@) == chunk_output(a@, b@, dist as nat)
            &&& mismatched == (a@.len() != b@.len())
        },
{
    if a.len() == 0 || b.len() == 0 {
        return ChunkStep::Drained;
    }
    let records = par_merge_pairs(a, b, dist);
    ChunkStep::Merged { records, mismatched: a.len() != b.len() }
}

/// Runs the whole pipeline over two streams held in memory, `chunk_size`
/// records at a time, and returns the merged records in output order.
pub fn mock_merge_records(
    a: &Vec<FastqRead>,
    b: &Vec<FastqRead>,
    dist: usize,
    chunk_size: usize,
) -> (r: Vec<Vec<u8>>)
    requires
        chunk_size > 0,
    ensures
        buffers(r@) == pipeline_output(a@, b@, chunk_size as nat, dist as nat),
{
    let mut out: Vec<Vec<u8>> = Vec::new();
    let mut pa: usize = 0;
    let mut pb: usize = 0;
    assert(a@.skip(0) =~= a@);
    assert(b@.skip(0) =~= b@);
    assert(buffers(out@) + pipeline_output(a@, b@, chunk_size as nat, dist as nat) =~= pipeline_output(a@, b@, chunk_size as nat, dist as nat));
    loop
        invariant
            chunk_size > 0,
            pa <= a@.len(),
            pb <= b@.len(),
            buffers(out@) + pipeline_output(
                a@.skip(pa as int),
                b@.skip(pb as int),
                chunk_size as nat,
                dist as nat,
            ) == pipeline_output(a@, b@, chunk_size as nat, dist as nat),
        ensures
            buffers(out@) == pipeline_output(a@, b@, chunk_size as nat, dist as nat),
        decreases a@.len() - pa,
    {
        let ea = if a.len() - pa < chunk_size { a.len() } else { pa + chunk_size };
        let eb = if b.len() - pb < chunk_size { b.len() } else { pb + chunk_size };
        let ca = slice_subrange(a.as_slice(), pa, ea);
        let cb = slice_subrange(b.as_slice(), pb, eb);
        let ghost sa = a@.skip(pa as int);
        let ghost sb = b@.skip(pb as int);
        assert(ca@ =~= sa.take(ea - pa));
        assert(cb@ =~= sb.take(eb - pb));
        match process_chunk(ca, cb, dist) {
            ChunkStep::Drained => {
                assert(pipeline_output(sa, sb, chunk_size as nat, dist as nat) =~= seq![]);
                assert(buffers(out@) =~= buffers(out@) + Seq::<Seq<u8>>::empty());
                break;
            },
            ChunkStep::Merged { records, mismatched: _ } => {
                let mut records = records;
                let ghost before = out@;
                out.append(&mut records);
                assert(sa.skip(ea - pa) =~= a@.skip(ea as int));
                assert(sb.skip(eb - pb) =~= b@.skip(eb as int));
                assert(buffers(out@) =~= buffers(before) + chunk_output(
                    ca@,
                    cb@,
                    dist as nat,
                ));
                pa = ea;
                pb = eb;
            },
        }
    }
    out
}

/// The sum of a sequence of naturals.
pub open spec fn total(s: Seq<nat>) -> nat
    decreases s.len(),
{
    if s.len() == 0 {
        0
    } else {
        s[0] + total(s.drop_first())
    }
}

/// The number of records written is the sum of the sizes of the processed chunks.
pub proof fn lemma_output_len(a: Seq<FastqRead>, b: Seq<FastqRead>, c: nat, w: nat)
    ensures
        pipeline_output(a, b, c, w).len() == total(chunk_sizes(a.len(), b.len(), c)),
    decreases a.len(),
{
    if c > 0 && a.len() > 0 && b.len() > 0 {
        let ka = min_nat(c, a.len());
        let kb = min_nat(c, b.len());
        lemma_output_len(a.skip(ka as int), b.skip(kb as int), c, w);
        let s = chunk_sizes(a.len(), b.len(), c);
        assert(s.drop_first() =~= chunk_sizes(
            (a.len() - ka) as nat,
            (b.len() - kb) as nat,
            c,
        ));
    }
}

/// With `k` records on each side, read `c` at a time: the chunks are all full
/// but the last, which holds the rest, and they add up to `k`.
proof fn lemma_equal_sizes(k: nat, c: nat)
    requires
        c > 0,
    ensures
        ({
            let s = chunk_sizes(k, k, c);
            let n = s.len();
            &&& total(s) == k
            &&& k == 0 ==> n == 0
            &&& k > 0 ==> (n - 1) * c < k <= n * c
            &&& forall|i: int| 0 <= i < n - 1 ==> s[i] == c
            &&& k > 0 ==> s[n - 1] == k - (n - 1) * c
        }),
    decreases k,
{
    let s = chunk_sizes(k, k, c);
    if k > 0 {
        if k <= c {
            assert(chunk_sizes(0, 0, c) =~= seq![]);
            assert(s =~= seq![k]);
            assert(s.drop_first() =~= seq![]);
            assert((s.len() - 1) * c == 0);
            assert(total(s.drop_first()) == 0);
        } else {
            let r = (k - c) as nat;
            lemma_equal_sizes(r, c);
            let t = chunk_sizes(r, r, c);
            assert(s =~= seq![c] + t);
            assert(s.drop_first() =~= t);
            assert(total(s) == c + total(t));
            let m = t.len();
            assert((m + 1) * c == m * c + c) by (nonlinear_arith);
            assert(m * c == (m - 1) * c + c) by (nonlinear_arith)
                requires m > 0;
            assert(s.len() - 1 == m);
            assert(s[s.len() - 1] == t[m - 1]);
        }
    }
}

/// Two streams of `k` records each, read `c` records at a time, give exactly
/// `k` merged records. There are `k / c` chunks, rounded up; every chunk but
/// the last is full, and the last holds `k % c` records, or `c` when `c`
/// divides `k`.
pub proof fn lemma_equal_streams(a: Seq<FastqRead>, b: Seq<FastqRead>, c: nat, w: nat)
    requires
        a.len() == b.len(),
        c > 0,
    ensures
        ({
            let k = a.len();
            let s = chunk_sizes(k, k, c);
            let n = s.len();
            &&& pipeline_output(a, b, c, w).len() == k
            &&& k == 0 ==> n == 0
            &&& k > 0 ==> (n - 1) * c < k <= n * c
            &&& forall|i: int| 0 <= i < n - 1 ==> s[i] == c
            &&& k > 0 ==> s[n - 1] == if k % c == 0 {
                c
            } else {
                k % c
            }
        }),
{
    let k = a.len();
    lemma_output_len(a, b, c, w);
    lemma_equal_sizes(k, c);
    if k > 0 {
        let n = chunk_sizes(k, k, c).len();
        assert(n * c == (n - 1) * c + c) by (nonlinear_arith)
            requires n > 0;
        lemma_last_chunk(k, c, (n - 1) as nat);
    }
}

/// `k` split as `q` full chunks of `c` and a non-empty rest of at most `c`:
/// the rest is `k % c`, or `c` when that is zero.
proof fn lemma_last_chunk(k: nat, c: nat, q: nat)
    requires
        c > 0,
        q * c < k <= q * c + c,
    ensures
        (k - q * c) == if k % c == 0 {
            c
        } else {
            k % c
        },
    decreases q,
{
    if q == 0 {
        assert(q * c == 0) by (nonlinear_arith)
            requires q == 0;
        if k < c {
            lemma_small_mod(k, c);
        } else {
            lemma_mod_self_0(c as int);
        }
    } else {
        assert(q * c == (q - 1) * c + c) by (nonlinear_arith)
            requires q > 0;
        lemma_last_chunk((k - c) as nat, c, (q - 1) as nat);
        lemma_mod_sub_multiples_vanish(k as int, c as int);
    }
}

/// When either stream is empty nothing is written.
pub proof fn lemma_empty_stream(a: Seq<FastqRead>, b: Seq<FastqRead>, c: nat, w: nat)
    requires
        a.len() == 0 || b.len() == 0,
    ensures
        pipeline_output(a, b, c, w) == Seq::<Seq<u8>>::empty(),
        chunk_sizes(a.len(), b.len(), c) == Seq::<nat>::empty(),
{
    assert(pipeline_output(a, b, c, w) =~= Seq::<Seq<u8>>::empty());
    assert(chunk_sizes(a.len(), b.len(), c) =~= Seq::<nat>::empty());
}

} // verus!
