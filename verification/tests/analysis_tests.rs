//! Behaviour of the call-analysis decisions, the requirement filter, the
//! seeding of the frontier, and the result sink's naming.

use cross_pro_cg::analyse_package;
use cross_pro_cg::classify_tool_outcome;
use cross_pro_cg::filter_dependents_by_version_req;
use cross_pro_cg::function_ident;
use cross_pro_cg::pre_filter_hit;
use cross_pro_cg::result_file_name;
use cross_pro_cg::seed_frontier;
use cross_pro_cg::should_emit;
use cross_pro_cg::version_range_is_valid;
use cross_pro_cg::CallReport;
use cross_pro_cg::FunctionNode;
use cross_pro_cg::Krate;
use cross_pro_cg::ReverseDependency;
use cross_pro_cg::ToolOutcome;

fn rdep(name: &str, version: &str, req: &str) -> ReverseDependency {
    ReverseDependency {
        name: name.to_string(),
        version: version.to_string(),
        req: req.to_string(),
    }
}

#[test]
fn function_ident_takes_last_path_component() {
    assert_eq!(function_ident("crossbeam_channel::flavors::list::Channel::drop"), "drop");
    assert_eq!(function_ident("foo::bar"), "bar");
    assert_eq!(function_ident("bar"), "bar");
    assert_eq!(function_ident("foo::"), "");
}

#[test]
fn pre_filter_finds_identifier_in_any_file() {
    let sources = vec![
        "fn main() {}".to_string(),
        "use foo; fn f() { foo::bar(); }".to_string(),
    ];
    assert!(pre_filter_hit(&sources, "bar"));
    assert!(!pre_filter_hit(&sources, "baz"));
    assert!(!pre_filter_hit(&Vec::new(), "bar"));
}

#[test]
fn classify_positive_report_as_calls() {
    let outcome = ToolOutcome {
        exit_ok: true,
        stderr: String::new(),
        report: Some("{\"total_callers\": 2, \"callers\": []}".to_string()),
    };
    let r = classify_tool_outcome(outcome);
    assert!(matches!(r, CallReport::Calls(ref c) if c.contains("total_callers")));
    assert!(should_emit(&r));
}

#[test]
fn classify_zero_callers_as_does_not_call() {
    let outcome = ToolOutcome {
        exit_ok: true,
        stderr: String::new(),
        report: Some("{\"total_callers\": 0}".to_string()),
    };
    let r = classify_tool_outcome(outcome);
    assert!(matches!(r, CallReport::DoesNotCall));
    assert!(!should_emit(&r));
}

#[test]
fn classify_missing_report_as_does_not_call() {
    let outcome = ToolOutcome { exit_ok: true, stderr: String::new(), report: None };
    assert!(matches!(classify_tool_outcome(outcome), CallReport::DoesNotCall));
}

#[test]
fn classify_malformed_report_as_does_not_call() {
    let outcome = ToolOutcome {
        exit_ok: true,
        stderr: String::new(),
        report: Some("not json at all".to_string()),
    };
    assert!(matches!(classify_tool_outcome(outcome), CallReport::DoesNotCall));
}

#[test]
fn classify_failed_exit_as_tool_failure() {
    let outcome = ToolOutcome {
        exit_ok: false,
        stderr: "linker exploded".to_string(),
        report: Some("{\"total_callers\": 5}".to_string()),
    };
    let r = classify_tool_outcome(outcome);
    assert!(matches!(r, CallReport::ToolFailure(ref e) if e == "linker exploded"));
    assert!(!should_emit(&r));
}

#[test]
fn analysis_skips_tool_when_identifier_absent() {
    let sources = vec!["fn quiet() {}".to_string()];
    let r = analyse_package(&sources, "foo::bar", None);
    assert!(matches!(r, CallReport::NotApplicable));
    assert!(!should_emit(&r));
}

#[test]
fn analysis_reports_calls_after_hit_and_positive_report() {
    let sources = vec!["fn f() { foo::bar(); }".to_string()];
    let outcome = ToolOutcome {
        exit_ok: true,
        stderr: String::new(),
        report: Some("{\"total_callers\": 1}".to_string()),
    };
    let r = analyse_package(&sources, "foo::bar", Some(outcome));
    assert!(matches!(r, CallReport::Calls(_)));
}

#[test]
fn requirement_filter_keeps_matching_records() {
    let deps = vec![
        rdep("bar", "2.3.0", "^1.0"),
        rdep("baz", "0.1.0", "^2.0"),
        rdep("qux", "1.1.0", ">=0.9, <1.5"),
        rdep("bad", "1.0.0", "not a requirement"),
    ];
    let kept = filter_dependents_by_version_req(deps, "1.0.0");
    let names: Vec<&str> = kept.iter().map(|d| d.name.as_str()).collect();
    assert_eq!(names, vec!["bar", "qux"]);
}

#[test]
fn requirement_mismatch_suppresses_edge() {
    let deps = vec![rdep("bar", "2.3.0", "^2.0")];
    let kept = filter_dependents_by_version_req(deps, "1.0.0");
    assert!(kept.is_empty());
}

#[test]
fn invalid_precise_version_keeps_nothing() {
    let deps = vec![rdep("bar", "2.3.0", "^1.0")];
    let kept = filter_dependents_by_version_req(deps, "not-a-version");
    assert!(kept.is_empty());
}

#[test]
fn seed_frontier_filters_and_deduplicates_versions() {
    let versions = vec![
        "0.9.0".to_string(),
        "1.0.0".to_string(),
        "1.2.0".to_string(),
        "1.0.0".to_string(),
        "2.0.0".to_string(),
    ];
    let seeds = seed_frontier("foo", &versions, "^1.0");
    let picked: Vec<String> = seeds.iter().map(|k| k.version()).collect();
    assert_eq!(picked, vec!["1.0.0".to_string(), "1.2.0".to_string()]);
    for k in &seeds {
        assert_eq!(k.name(), "foo");
        assert!(k.dependents().is_empty());
    }
}

#[test]
fn seed_frontier_with_invalid_range_is_empty() {
    assert!(!version_range_is_valid("not a range"));
    assert!(version_range_is_valid(">0.5.11, <0.5.15"));
    let seeds = seed_frontier("foo", &vec!["1.0.0".to_string()], "not a range");
    assert!(seeds.is_empty());
}

#[test]
fn multi_clause_range_selects_exact_window() {
    let versions = vec![
        "0.5.11".to_string(),
        "0.5.12".to_string(),
        "0.5.14".to_string(),
        "0.5.15".to_string(),
    ];
    let seeds = seed_frontier("crossbeam-channel", &versions, ">0.5.11, <0.5.15");
    let picked: Vec<String> = seeds.iter().map(|k| k.version()).collect();
    assert_eq!(picked, vec!["0.5.12".to_string(), "0.5.14".to_string()]);
}

#[test]
fn result_file_name_is_canonical() {
    assert_eq!(result_file_name("bar", "2.3.0"), "bar-2.3.0-callers.json");
}

#[test]
fn krate_paths_are_canonical() {
    let k = Krate::new("foo".to_string(), "1.0.0".to_string());
    assert_eq!(k.get_crate_file_path("./downloads"), "./downloads/foo/foo-1.0.0.crate");
    assert_eq!(k.get_extract_dir_path("./downloads"), "./downloads/foo/foo-1.0.0");
    assert_eq!(k.lock_key(), "foo-1.0.0");
}

#[test]
fn function_node_keeps_its_fields() {
    let n = FunctionNode::new(
        "foo".to_string(),
        "1.0.0".to_string(),
        "foo::bar".to_string(),
    );
    assert_eq!(n.crate_name, "foo");
    assert_eq!(n.crate_version, "1.0.0");
    assert_eq!(n.function_path, "foo::bar");
}

#[test]
fn classify_negative_caller_count_as_does_not_call() {
    let outcome = ToolOutcome {
        exit_ok: true,
        stderr: String::new(),
        report: Some("{\"total_callers\": -3}".to_string()),
    };
    assert!(matches!(classify_tool_outcome(outcome), CallReport::DoesNotCall));
}
