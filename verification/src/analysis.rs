//! The call-analysis decisions: the bare identifier of the target function,
//! the textual pre-filter over the package sources, and the classification
//! of what the external call-graph tool reported.  The subprocess itself is
//! run by the driver; everything it decides on the way in and out is here.

use vstd::prelude::*;
use vstd::string::StrSliceExecFns;

use crate::text::contains_substr;
use crate::text::occurs;
use crate::text::views_of;

verus! {

/// A function in a package version, identified by its fully qualified
/// path.
#[derive(Debug, Clone, Eq, PartialEq, Hash)]
pub struct FunctionNode {
    pub crate_name: String,
    pub crate_version: String,
    pub function_path: String,
}

impl FunctionNode {
    pub fn new(crate_name: String, crate_version: String, function_path: String) -> (r: Self)
        ensures
            r.crate_name@ == crate_name@,
            r.crate_version@ == crate_version@,
            r.function_path@ == function_path@,
    {
        FunctionNode { crate_name, crate_version, function_path }
    }
}

/// The index of the first `::` separator of `s`, scanning left to right;
/// `s.len()` when there is none.
pub open spec fn first_sep(s: Seq<char>) -> int
    decreases s.len(),
{
    if s.len() < 2 {
        s.len() as int
    } else if s[0] == ':' && s[1] == ':' {
        0
    } else {
        1 + first_sep(s.drop_first())
    }
}

/// `first_sep` either points at a separator with nothing before it, or
/// reports the length.
pub proof fn lemma_first_sep(s: Seq<char>)
    ensures
        0 <= first_sep(s) <= s.len(),
        first_sep(s) < s.len() ==> (first_sep(s) + 2 <= s.len() && s[first_sep(s)] == ':'
            && s[first_sep(s) + 1] == ':'),
        forall|j: int|
            0 <= j < first_sep(s) && j + 2 <= s.len() ==> !(#[trigger] s[j] == ':' && s[j + 1]
                == ':'),
    decreases s.len(),
{
    if s.len() < 2 {
    } else if s[0] == ':' && s[1] == ':' {
    } else {
        lemma_first_sep(s.drop_first());
        assert forall|j: int|
            0 <= j < first_sep(s) && j + 2 <= s.len() implies !(#[trigger] s[j] == ':' && s[j + 1]
            == ':') by {
            if j > 0 {
                assert(s.drop_first()[j - 1] == s[j]);
                assert(s.drop_first()[j] == s[j + 1]);
            }
        }
    }
}

/// `first_sep` is pinned down by its characteristic properties.
proof fn lemma_first_sep_at(s: Seq<char>, k: int)
    requires
        0 <= k,
        k + 2 <= s.len(),
        s[k] == ':',
        s[k + 1] == ':',
        forall|j: int| 0 <= j < k ==> !(#[trigger] s[j] == ':' && s[j + 1] == ':'),
    ensures
        first_sep(s) == k,
    decreases s.len(),
{
    if s.len() < 2 {
    } else if s[0] == ':' && s[1] == ':' {
        assert(k == 0);
    } else {
        assert(k >= 1);
        assert forall|j: int| 0 <= j < k - 1 implies !(#[trigger] s.drop_first()[j] == ':'
            && s.drop_first()[j + 1] == ':') by {
            assert(s.drop_first()[j] == s[j + 1]);
            assert(s.drop_first()[j + 1] == s[j + 2]);
        }
        lemma_first_sep_at(s.drop_first(), k - 1);
    }
}

/// Without any separator, `first_sep` reports the length.
proof fn lemma_first_sep_none(s: Seq<char>)
    requires
        forall|j: int| 0 <= j && j + 2 <= s.len() ==> !(#[trigger] s[j] == ':' && s[j + 1] == ':'),
    ensures
        first_sep(s) == s.len(),
{
    lemma_first_sep(s);
    if first_sep(s) < s.len() {
        assert(!(s[first_sep(s)] == ':' && s[first_sep(s) + 1] == ':'));
    }
}

/// The bare identifier of a fully qualified function path: what follows
/// the last `::` separator, or the whole path when there is none.
pub open spec fn ident_of(path: Seq<char>) -> Seq<char>
    decreases path.len(),
    via ident_of_dec
{
    if first_sep(path) == path.len() {
        path
    } else {
        ident_of(path.skip(first_sep(path) + 2))
    }
}

#[via_fn]
proof fn ident_of_dec(path: Seq<char>) {
    lemma_first_sep(path);
}

/// The last path component of a function path: the text after the final
/// `::`, or the whole text when no `::` occurs.
pub fn function_ident(path: &str) -> (r: String)
    ensures
        r@ == ident_of(path@),
{
    let n = path.unicode_len();
    let mut start: usize = 0;
    let mut i: usize = 0;
    proof {
        assert(path@.skip(0) =~= path@);
    }
    while n >= 2 && i < n - 1
        invariant
            0 <= start <= i <= n,
            n == path@.len(),
            ident_of(path@) == ident_of(path@.skip(start as int)),
            forall|j: int|
                start <= j < i ==> !(#[trigger] path@[j] == ':' && path@[j + 1] == ':'),
        decreases n - i,
    {
        if path.get_char(i) == ':' && path.get_char(i + 1) == ':' {
            proof {
                let tail = path@.skip(start as int);
                assert forall|j: int| 0 <= j < i - start implies !(#[trigger] tail[j] == ':'
                    && tail[j + 1] == ':') by {
                    assert(tail[j] == path@[start + j]);
                    assert(tail[j + 1] == path@[start + j + 1]);
                }
                assert(tail[i - start] == path@[i as int]);
                assert(tail[i - start + 1] == path@[i + 1]);
                lemma_first_sep_at(tail, i - start);
                assert(tail.skip(i - start + 2) =~= path@.skip(i + 2));
                assert(ident_of(tail) == ident_of(path@.skip(i + 2)));
            }
            start = i + 2;
            i = i + 2;
        } else {
            i = i + 1;
        }
    }
    proof {
        let tail = path@.skip(start as int);
        assert forall|j: int| 0 <= j && j + 2 <= tail.len() implies !(#[trigger] tail[j] == ':'
            && tail[j + 1] == ':') by {
            assert(tail[j] == path@[start + j]);
            assert(tail[j + 1] == path@[start + j + 1]);
        }
        lemma_first_sep_none(tail);
        assert(ident_of(tail) == tail);
        assert(tail =~= path@.subrange(start as int, n as int));
    }
    let r = path.substring_char(start, n).to_owned();
    r
}

/// Some source file mentions the identifier.
pub open spec fn sources_mention(texts: Seq<Seq<char>>, ident: Seq<char>) -> bool {
    exists|i: int| 0 <= i < texts.len() && occurs(#[trigger] texts[i], ident)
}

/// The textual pre-filter: whether any of the source files of a package
/// contains the bare identifier of the target function.  A package whose
/// sources never spell the identifier cannot call the function, so a miss
/// is final; a hit only permits the full analysis.
pub fn pre_filter_hit(sources: &Vec<String>, ident: &str) -> (r: bool)
    ensures
        r == sources_mention(views_of(sources@), ident@),
{
    let mut i: usize = 0;
    while i < sources.len()
        invariant
            0 <= i <= sources@.len(),
            forall|j: int| 0 <= j < i ==> !occurs(#[trigger] views_of(sources@)[j], ident@),
        decreases sources@.len() - i,
    {
        if contains_substr(sources[i].as_str(), ident) {
            proof {
                assert(occurs(views_of(sources@)[i as int], ident@));
            }
            return true;
        }
        i = i + 1;
    }
    false
}

/// What one analysis of one package concluded.
#[derive(Debug)]
pub enum CallReport {
    /// The tool reported at least one caller; the payload is the report
    /// text.
    Calls(String),
    /// The tool completed and reported no caller, or produced no report.
    DoesNotCall,
    /// The pre-filter proved the identifier absent; the tool never ran.
    NotApplicable,
    /// The tool exited with a failure; the payload is its error output.
    ToolFailure(String),
}

/// What the external tool's run looked like from outside: whether it
/// exited cleanly, what it wrote to its error stream, and the report file
/// it produced, if any.
#[derive(Debug)]
pub struct ToolOutcome {
    pub exit_ok: bool,
    pub stderr: String,
    pub report: Option<String>,
}

/// The `total_callers` field of a call-graph report, as `serde_json`
/// reads it: `None` when the text is not a JSON object with an integer
/// field of that name.
pub uninterp spec fn total_callers_of(s: Seq<char>) -> Option<i64>;

/// Relies on `serde_json::from_str`, `serde_json::Value::get` and
/// `serde_json::Value::as_i64`: the `total_callers` field of the report,
/// a function of the report text alone.
#[verifier::external_body]
fn read_total_callers(report: &str) -> (r: Option<i64>)
    ensures
        r == total_callers_of(report@),
{
    match serde_json::from_str::<serde_json::Value>(report) {
        Ok(v) => match v.get("total_callers") {
            Some(t) => t.as_i64(),
            None => None,
        },
        Err(_) => None,
    }
}

/// The variant of a report, without its payload.
#[derive(Debug, Clone, Copy, PartialEq, Eq, Structural)]
pub enum ReportKind {
    Calls,
    DoesNotCall,
    NotApplicable,
    ToolFailure,
}

/// The variant of a `CallReport`.
pub open spec fn report_kind(r: CallReport) -> ReportKind {
    match r {
        CallReport::Calls(_) => ReportKind::Calls,
        CallReport::DoesNotCall => ReportKind::DoesNotCall,
        CallReport::NotApplicable => ReportKind::NotApplicable,
        CallReport::ToolFailure(_) => ReportKind::ToolFailure,
    }
}

/// How a tool run is classified: a failed exit is a tool failure; no
/// report file means no caller; a report with a positive `total_callers`
/// means the target is reached, anything else means it is not.
pub open spec fn spec_outcome_kind(t: ToolOutcome) -> ReportKind {
    if !t.exit_ok {
        ReportKind::ToolFailure
    } else {
        match t.report {
            Option::Some(s) => {
                match total_callers_of(s@) {
                    Option::Some(n) => if n > 0 {
                        ReportKind::Calls
                    } else {
                        ReportKind::DoesNotCall
                    },
                    Option::None => ReportKind::DoesNotCall,
                }
            },
            Option::None => ReportKind::DoesNotCall,
        }
    }
}

/// How a whole analysis is classified: a pre-filter miss is final and the
/// tool never runs; otherwise the tool's outcome decides; a missing
/// outcome (the tool could not be spawned) counts as no caller.
pub open spec fn spec_analysis_kind(mention: bool, tool: Option<ToolOutcome>) -> ReportKind {
    if !mention {
        ReportKind::NotApplicable
    } else {
        match tool {
            Option::Some(t) => spec_outcome_kind(t),
            Option::None => ReportKind::DoesNotCall,
        }
    }
}

/// Classify what the external tool reported.
pub fn classify_tool_outcome(outcome: ToolOutcome) -> (r: CallReport)
    ensures
        report_kind(r) == spec_outcome_kind(outcome),
        r matches CallReport::ToolFailure(e) ==> e@ == outcome.stderr@,
        r matches CallReport::Calls(c) ==> (outcome.report matches Some(s) && c@ == s@),
{
    if !outcome.exit_ok {
        CallReport::ToolFailure(outcome.stderr)
    } else {
        match outcome.report {
            Option::Some(s) => {
                match read_total_callers(s.as_str()) {
                    Option::Some(n) => {
                        if n > 0 {
                            CallReport::Calls(s)
                        } else {
                            CallReport::DoesNotCall
                        }
                    },
                    Option::None => CallReport::DoesNotCall,
                }
            },
            Option::None => CallReport::DoesNotCall,
        }
    }
}

/// Analyse one package against the target function: the pre-filter over
/// its source texts decides whether the tool's outcome is consulted at
/// all, and the outcome is then classified.  The driver runs the tool
/// only after a pre-filter hit; `tool` is what that run looked like, or
/// `None` when the tool could not be run.
pub fn analyse_package(sources: &Vec<String>, function_path: &str, tool: Option<ToolOutcome>) -> (r:
    CallReport)
    ensures
        report_kind(r) == spec_analysis_kind(
            sources_mention(views_of(sources@), ident_of(function_path@)),
            tool,
        ),
        r matches CallReport::ToolFailure(e) ==> (tool matches Some(t) && e@ == t.stderr@),
        r matches CallReport::Calls(c) ==> (tool matches Some(t) && t.report matches Some(s) && c@
            == s@),
{
    let ident = function_ident(function_path);
    if !pre_filter_hit(sources, ident.as_str()) {
        CallReport::NotApplicable
    } else {
        match tool {
            Option::Some(t) => classify_tool_outcome(t),
            Option::None => CallReport::DoesNotCall,
        }
    }
}

/// Soundness of the pre-filter: an analysis can classify a package as
/// calling the target only when the bare identifier of the target occurs
/// textually in some source file of the package.
pub proof fn lemma_prefilter_sound(
    sources: Seq<Seq<char>>,
    path: Seq<char>,
    tool: Option<ToolOutcome>,
)
    ensures
        spec_analysis_kind(sources_mention(sources, ident_of(path)), tool) == ReportKind::Calls
            ==> (exists|i: int|
            0 <= i < sources.len() && occurs(#[trigger] sources[i], ident_of(path))),
{
}

} // verus!
