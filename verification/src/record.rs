//! The atomic change record and the materialised file version.
//!
//! A `LineDifference` fully identifies one changed line at one point in
//! time. The empty string is the encoding's sentinel: an empty `before`
//! marks an insertion, an empty `after` a deletion; a record with both
//! fields non-empty replaces a line.

use vstd::prelude::*;

verus! {

/// Mathematical model of one change record.
#[verifier::ext_equal]
pub ghost struct RecModel {
    pub path: Seq<char>,
    /// 1-based line index within the post-change file.
    pub line_number: int,
    pub before: Seq<char>,
    pub after: Seq<char>,
    pub timestamp: int,
}

/// One changed line at one point in time.
#[derive(Debug)]
pub struct LineDifference {
    /// Absolute file path (non-empty).
    pub path: String,
    /// 1-based line index within the post-change file; deletions keep the
    /// index the line held before removal.
    pub line_number: usize,
    /// Previous text of the line; empty if the line did not exist before.
    pub before: String,
    /// New text of the line; empty if the line was deleted.
    pub after: String,
    /// Wall-clock time the change was observed, in seconds.
    pub timestamp: u64,
}

impl View for LineDifference {
    type V = RecModel;

    open spec fn view(&self) -> RecModel {
        RecModel {
            path: self.path@,
            line_number: self.line_number as int,
            before: self.before@,
            after: self.after@,
            timestamp: self.timestamp as int,
        }
    }
}

impl Clone for LineDifference {
    fn clone(&self) -> (r: Self)
        ensures
            r@ == self@,
    {
        LineDifference {
            path: self.path.clone(),
            line_number: self.line_number,
            before: self.before.clone(),
            after: self.after.clone(),
            timestamp: self.timestamp,
        }
    }
}

impl LineDifference {
    pub fn new(path: String, line_number: usize, before: String, after: String, timestamp: u64) -> (r:
        LineDifference)
        ensures
            r@ == (RecModel {
                path: path@,
                line_number: line_number as int,
                before: before@,
                after: after@,
                timestamp: timestamp as int,
            }),
    {
        LineDifference { path, line_number, before, after, timestamp }
    }
}

/// The models of a sequence of records.
pub open spec fn recs_of(s: Seq<LineDifference>) -> Seq<RecModel> {
    s.map_values(|d: LineDifference| d@)
}

/// Mathematical model of a materialised file version.
#[verifier::ext_equal]
pub ghost struct VersionModel {
    pub path: Seq<char>,
    pub lines: Seq<Seq<char>>,
}

/// The materialised view of one file under the current cursor and time
/// frame: the ordered lines produced by replaying the applied, in-window
/// entries of its change log.
#[derive(Debug)]
pub struct FileVersion {
    pub path: String,
    pub lines: Vec<String>,
}

impl View for FileVersion {
    type V = VersionModel;

    open spec fn view(&self) -> VersionModel {
        VersionModel { path: self.path@, lines: self.lines.deep_view() }
    }
}

} // verus!
