//! The result sink's decisions: the canonical file name a report is
//! stored under, and which reports are stored at all.

use vstd::prelude::*;
use vstd::string::StringExecFns;

use crate::analysis::CallReport;
use crate::analysis::report_kind;
use crate::analysis::ReportKind;

verus! {

/// The canonical name of a per-package result file:
/// `name-version-callers.json`.
pub open spec fn spec_result_file_name(name: Seq<char>, version: Seq<char>) -> Seq<char> {
    name + "-"@ + version + "-callers.json"@
}

/// The file name a package version's report is emitted under.
pub fn result_file_name(name: &str, version: &str) -> (r: String)
    ensures
        r@ == spec_result_file_name(name@, version@),
{
    let mut s = name.to_owned();
    s.append("-");
    s.append(version);
    s.append("-callers.json");
    s
}

/// Whether a report is emitted to the results directory: exactly the
/// reports that found callers are.
pub fn should_emit(report: &CallReport) -> (r: bool)
    ensures
        r == (report_kind(*report) == ReportKind::Calls),
{
    match report {
        CallReport::Calls(_) => true,
        CallReport::DoesNotCall => false,
        CallReport::NotApplicable => false,
        CallReport::ToolFailure(_) => false,
    }
}

} // verus!
