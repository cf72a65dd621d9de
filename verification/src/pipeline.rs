//! The tail shared by `status` and `log`: two versions of a file, through a
//! driver, into a `FileSummary`.

use vstd::prelude::*;
use crate::driver::DriverDiffReportView;
use crate::summary::{counts_positive, error_view, summary_of, DetailLevel, FileSummary, FileSummaryView};
use crate::xschem_driver::{xschem_report, XschemDriver};

verus! {

/// The Xschem driver's report on two versions of a file, as a view.
pub open spec fn xschem_report_view(a: Seq<u8>, b: Seq<u8>, path: Seq<char>) -> DriverDiffReportView {
    let r = xschem_report(a, b, path);
    DriverDiffReportView { file_type: r.0, changes: r.1, warnings: r.2 }
}

/// The message of a summary whose changes are too many to count in an `i64`.
pub open spec fn too_many_changes_message() -> Seq<char> {
    "demasiados cambios para contarlos"@
}

/// The summary of two versions of a file at a detail level: the driver's
/// report, summarized.
pub open spec fn pipeline_summary(a: Seq<u8>, b: Seq<u8>, path: Seq<char>, level: DetailLevel) -> FileSummaryView {
    summary_of(xschem_report_view(a, b, path), path, level)
}

/// Diffs two versions of a file with the driver and summarizes the report
/// at the given level.
pub fn summarize(driver: &XschemDriver, before: &[u8], after: &[u8], path: &str, level: DetailLevel) -> (s: FileSummary)
    ensures
        xschem_report(before@, after@, path@).1.len() <= i64::MAX ==> s@ == pipeline_summary(
            before@,
            after@,
            path@,
            level,
        ),
        xschem_report(before@, after@, path@).1.len() > i64::MAX ==> s@ == error_view(
            path@,
            too_many_changes_message(),
        ),
        counts_positive(s@.counts),
{
    let report = driver.diff(before, after, path);
    assert(report@ == xschem_report_view(before@, after@, path@));
    if report.changes.len() as u64 > 9223372036854775807u64 {
        let msg = "demasiados cambios para contarlos".to_string();
        proof {
            reveal_strlit("demasiados cambios para contarlos");
        }
        return FileSummary::error(path, msg);
    }
    FileSummary::from_report_with(&report, path, level)
}


/// A file compared with itself is unchanged, whatever its content and at
/// every level: no count, no detail.
pub proof fn lemma_same_content_unchanged(a: Seq<u8>, path: Seq<char>, level: DetailLevel)
    ensures
        pipeline_summary(a, a, path, level).category == crate::summary::SummaryCategory::Unchanged,
        pipeline_summary(a, a, path, level).counts.len() == 0,
        pipeline_summary(a, a, path, level).details.len() == 0,
{
    crate::parser::lemma_schematic_of_sorted(a);
    crate::semantic_diff::lemma_diff_of_same_schematic_is_empty(crate::parser::schematic_of(a));
    let r = crate::semantic_diff::diff_view(crate::parser::schematic_of(a), crate::parser::schematic_of(a));
    assert(crate::driver::entries_of(r) =~= Seq::<crate::driver::DiffEntryView>::empty());
    let changes = xschem_report(a, a, path).1;
    assert(changes.len() == 0);
    assert(crate::summary::details_of(changes) =~= Seq::<crate::summary::DetailEntryView>::empty());
}

} // verus!
