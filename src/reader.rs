//! Assembling records from the lines of one stream, a chunk at a time.
use vstd::prelude::*;
use crate::record::FastqRead;

verus! {

/// The line `s` with its trailing whitespace, line terminator included, removed.
pub uninterp spec fn trimmed_end(s: Seq<char>) -> Seq<char>;

/// Relies on `str::trim_end`: the line without its trailing whitespace,
/// which is a prefix of the line.
#[verifier::external_body]
fn trim_line_end(s: &str) -> (r: &str)
    ensures
        r@ == trimmed_end(s@),
        r@.len() <= s@.len(),
        r@ == s@.take(r@.len() as int),
{
    s.trim_end()
}

/// The three kept lines of a record, as text.
pub open spec fn read_view(r: FastqRead) -> (Seq<char>, Seq<char>, Seq<char>) {
    (r.header@, r.sequence@, r.quality@)
}

/// The records held by complete groups of four trimmed lines: header,
/// sequence, separator and quality; the separator is not kept, and a trailing
/// group of fewer than four lines gives no record.
pub open spec fn records_of(lines: Seq<Seq<char>>) -> Seq<(Seq<char>, Seq<char>, Seq<char>)> {
    Seq::new(lines.len() / 4, |i: int| (lines[4 * i], lines[4 * i + 1], lines[4 * i + 3]))
}

/// Reads at most `count` records from one stream, fed one line at a time.
///
/// The caller asks `wants_line`, reads the next line of the stream and hands
/// it to `push_line`, or calls `end_of_input` when the stream has no line
/// left. A record cut short by the end of the stream is dropped.
pub struct ChunkReader {
    count: usize,
    records: Vec<FastqRead>,
    pending: Vec<String>,
    finished: bool,
    lines: Ghost<Seq<Seq<char>>>,
}

impl ChunkReader {
    /// The lines handed in so far, each trimmed at the end.
    pub closed spec fn lines(&self) -> Seq<Seq<char>> {
        self.lines@
    }

    /// The most records this chunk may hold.
    pub closed spec fn count(&self) -> nat {
        self.count as nat
    }

    /// Whether the stream was found to have no line left.
    pub closed spec fn finished(&self) -> bool {
        self.finished
    }

    /// Whether another line is to be read.
    pub open spec fn wants_more(&self) -> bool {
        !self.finished() && records_of(self.lines()).len() < self.count()
    }

    /// The reader's internal consistency.
    pub closed spec fn wf(&self) -> bool {
        let n = self.lines@.len();
        let base = n - n % 4;
        &&& self.records@.map_values(|r: FastqRead| read_view(r)) == records_of(self.lines@)
        &&& self.records@.len() <= self.count
        &&& self.pending@.len() == n % 4
        &&& forall|j: int|
            0 <= j < self.pending@.len() ==> #[trigger] self.pending@[j]@ == self.lines@[base + j]
    }

    /// A reader for a chunk of at most `count` records, before any line.
    pub fn new(count: usize) -> (r: ChunkReader)
        ensures
            r.wf(),
            r.lines() == Seq::<Seq<char>>::empty(),
            r.count() == count,
            !r.finished(),
    {
        let r = ChunkReader {
            count,
            records: Vec::new(),
            pending: Vec::new(),
            finished: false,
            lines: Ghost(Seq::empty()),
        };
        assert(r.records@.map_values(|r: FastqRead| read_view(r)) =~= records_of(r.lines@));
        r
    }

    /// Whether the next line of the stream is to be read and handed in.
    pub fn wants_line(&self) -> (b: bool)
        requires
            self.wf(),
        ensures
            b == self.wants_more(),
    {
        proof {
            assert(records_of(self.lines@).len() == self.records@.len());
        }
        !self.finished && self.records.len() < self.count
    }

    /// Hands in the next line of the stream, with or without its terminator;
    /// trailing whitespace is removed.
    pub fn push_line(&mut self, line: &str)
        requires
            old(self).wf(),
            old(self).wants_more(),
        ensures
            final(self).wf(),
            final(self).lines() == old(self).lines().push(trimmed_end(line@)),
            final(self).count() == old(self).count(),
            final(self).finished() == old(self).finished(),
    {
        let t = trim_line_end(line);
        self.push_trimmed(String::from_str(t));
    }

    /// Hands in the next line of the stream, already trimmed at the end.
    pub fn push_trimmed(&mut self, t: String)
        requires
            old(self).wf(),
            old(self).wants_more(),
        ensures
            final(self).wf(),
            final(self).lines() == old(self).lines().push(t@),
            final(self).count() == old(self).count(),
            final(self).finished() == old(self).finished(),
    {
        let ghost old_lines = self.lines@;
        let ghost n: int = old_lines.len() as int;
        let ghost old_records = self.records@;
        let ghost old_pending = self.pending@;
        let ghost tv = t@;
        self.lines = Ghost(self.lines@.push(t@));
        if self.pending.len() == 3 {
            let quality = t;
            let _separator = self.pending.pop().unwrap();
            let sequence = self.pending.pop().unwrap();
            let header = self.pending.pop().unwrap();
            self.records.push(FastqRead { header, sequence, quality });
            proof {
                let l = self.lines@;
                assert(n % 4 == 3);
                assert((n + 1) / 4 == n / 4 + 1);
                assert((n + 1) % 4 == 0);
                assert(n - n % 4 == 4 * (n / 4));
                assert(old_pending[0]@ == l[4 * (n / 4)]);
                assert(old_pending[1]@ == l[4 * (n / 4) + 1]);
                let nv = self.records@.map_values(|r: FastqRead| read_view(r));
                let ov = old_records.map_values(|r: FastqRead| read_view(r));
                assert(ov == records_of(old_lines));
                assert(nv.len() == records_of(l).len());
                assert forall|i: int| 0 <= i < nv.len() implies nv[i] == records_of(l)[i] by {
                    if i < ov.len() {
                        assert(self.records@[i] == old_records[i]);
                        assert(nv[i] == ov[i]);
                        assert(4 * i + 3 < n);
                        assert(l[4 * i] == old_lines[4 * i]);
                        assert(l[4 * i + 1] == old_lines[4 * i + 1]);
                        assert(l[4 * i + 3] == old_lines[4 * i + 3]);
                    } else {
                        assert(i == n / 4);
                        assert(4 * i + 3 == n);
                        assert(l[n] == tv);
                    }
                }
                assert(nv =~= records_of(l));
            }
        } else {
            self.pending.push(t);
            proof {
                let l = self.lines@;
                assert((n + 1) / 4 == n / 4);
                assert((n + 1) % 4 == n % 4 + 1);
                assert(n + 1 - (n + 1) % 4 == n - n % 4);
                assert(self.records@.map_values(|r: FastqRead| read_view(r)) =~= records_of(l));
                assert forall|j: int| 0 <= j < self.pending@.len() implies #[trigger] self.pending@[j]@
                    == l[(n + 1) - (n + 1) % 4 + j] by {
                    if j < old_pending.len() {
                        assert(self.pending@[j] == old_pending[j]);
                    }
                }
            }
        }
    }

    /// Records that the stream has no line left; a record begun and not
    /// completed is dropped.
    pub fn end_of_input(&mut self)
        requires
            old(self).wf(),
        ensures
            final(self).wf(),
            final(self).lines() == old(self).lines(),
            final(self).count() == old(self).count(),
            final(self).finished(),
    {
        self.finished = true;
    }

    /// The records assembled from the complete groups of four lines handed in.
    pub fn into_records(self) -> (r: Vec<FastqRead>)
        requires
            self.wf(),
        ensures
            r@.len() == records_of(self.lines()).len(),
            forall|i: int| 0 <= i < r@.len() ==> read_view(#[trigger] r@[i]) == records_of(self.lines())[i],
            r@.len() <= self.count(),
    {
        proof {
            assert forall|i: int| 0 <= i < self.records@.len() implies read_view(
                #[trigger] self.records@[i],
            ) == records_of(self.lines())[i] by {
                assert(self.records@.map_values(|x: FastqRead| read_view(x))[i] == read_view(
                    self.records@[i],
                ));
            }
        }
        self.records
    }
}

} // verus!
