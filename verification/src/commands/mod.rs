//! The tool's commands: what each decides, apart from reading the disk,
//! asking the user and printing.
use vstd::prelude::*;
use crate::text::views;

pub mod diff;
pub mod promote;
pub mod preserve;
pub mod snapshot_log;
pub mod validate;

verus! {

/// Default filter pattern when none specified.
pub const DEFAULT_FILTER: &'static str = ".*";

/// The filters in force: the given ones, or the default filter alone.
pub open spec fn filters_in_force(given: Seq<Seq<char>>) -> Seq<Seq<char>> {
    if given.len() == 0 {
        seq![".*"@]
    } else {
        given
    }
}

/// Returns filter vec with default if empty.
pub fn default_filter(filter_vec: Vec<String>) -> (r: Vec<String>)
    ensures
        views(r@) == filters_in_force(views(filter_vec@)),
{
    if filter_vec.len() == 0 {
        let r = vec![crate::text::owned(DEFAULT_FILTER)];
        proof {
            reveal_strlit(".*");
            assert(views(r@) =~= seq![".*"@]);
        }
        r
    } else {
        filter_vec
    }
}

/// One line of a promotion summary: how many files were copied, or deleted.
pub struct SummaryLine {
    pub count: usize,
    pub deleted: bool,
}

/// The lines of a promotion summary: the copies always, the deletions when
/// deleting and there are some.
pub open spec fn summary_of(copied: usize, deleted: usize, should_delete: bool) -> Seq<SummaryLine> {
    if should_delete && deleted > 0 {
        seq![SummaryLine { count: copied, deleted: false }, SummaryLine { count: deleted, deleted: true }]
    } else {
        seq![SummaryLine { count: copied, deleted: false }]
    }
}

/// The words after the count of a summary line.
pub open spec fn summary_label(line: SummaryLine) -> Seq<char> {
    if line.count == 1 {
        if line.deleted { " file deleted"@ } else { " file copied"@ }
    } else {
        if line.deleted { " files deleted"@ } else { " files copied"@ }
    }
}

impl SummaryLine {
    /// The words after the count, singular for exactly one file.
    pub fn label(&self) -> (r: &'static str)
        ensures
            r@ == summary_label(*self),
    {
        if self.count == 1 {
            if self.deleted { " file deleted" } else { " file copied" }
        } else {
            if self.deleted { " files deleted" } else { " files copied" }
        }
    }
}

/// The lines of the summary printed after a promotion.
pub fn promotion_summary(copied: usize, deleted: usize, should_delete: bool) -> (r: Vec<SummaryLine>)
    ensures
        r@ == summary_of(copied, deleted, should_delete),
{
    let mut r: Vec<SummaryLine> = Vec::new();
    r.push(SummaryLine { count: copied, deleted: false });
    if should_delete && deleted > 0 {
        r.push(SummaryLine { count: deleted, deleted: true });
    }
    assert(r@ =~= summary_of(copied, deleted, should_delete));
    r
}

} // verus!
