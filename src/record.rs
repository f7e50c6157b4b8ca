//! One sequence record: header, bases and quality scores.
use vstd::prelude::*;

verus! {

/// One four-line sequence record, with line terminators stripped.
///
/// The separator line is not kept. No relation between the lengths of
/// `sequence` and `quality` is enforced.
pub struct FastqRead {
    pub header: String,
    pub sequence: String,
    pub quality: String,
}

impl FastqRead {
    /// Builds a record from its three kept lines.
    pub fn new(header: String, sequence: String, quality: String) -> (r: FastqRead)
        ensures
            r.header@ == header@,
            r.sequence@ == sequence@,
            r.quality@ == quality@,
    {
        FastqRead { header, sequence, quality }
    }
}

} // verus!
