//! End-to-end decision chains: the engine, the requirement filter, the
//! dependent pipeline and the sink working together on concrete
//! registries, with the driver's process work simulated.

use cross_pro_cg::analyse_package;
use cross_pro_cg::dep_start;
use cross_pro_cg::dep_step;
use cross_pro_cg::filter_dependents_by_version_req;
use cross_pro_cg::result_file_name;
use cross_pro_cg::seed_frontier;
use cross_pro_cg::should_emit;
use cross_pro_cg::CallReport;
use cross_pro_cg::DepAction;
use cross_pro_cg::DepEvent;
use cross_pro_cg::Krate;
use cross_pro_cg::ReverseDependency;
use cross_pro_cg::ToolOutcome;
use cross_pro_cg::Traversal;

fn rdep(name: &str, version: &str, req: &str) -> ReverseDependency {
    ReverseDependency {
        name: name.to_string(),
        version: version.to_string(),
        req: req.to_string(),
    }
}

/// Run the dependent pipeline for one dependent whose sources and tool
/// report are given; emulate the driver faithfully and return the emitted
/// file name, if any, with the enqueued node.
fn run_dependent(
    dep: &ReverseDependency,
    sources: &Vec<String>,
    function_path: &str,
    tool_report: Option<&str>,
) -> (Option<String>, Option<Krate>) {
    let mut state = dep_start();
    let mut event = DepEvent::Materialised(true);
    let mut emitted: Option<String> = None;
    let mut enqueued: Option<Krate> = None;
    loop {
        let (next, action) = dep_step(state, event);
        state = next;
        event = match action {
            DepAction::PatchManifest => DepEvent::Patched(true),
            DepAction::RunAnalysis => {
                let tool = tool_report.map(|r| ToolOutcome {
                    exit_ok: true,
                    stderr: String::new(),
                    report: Some(r.to_string()),
                });
                DepEvent::Analysed(analyse_package(sources, function_path, tool))
            }
            DepAction::Accept(report) => {
                assert!(should_emit(&CallReport::Calls(report)));
                emitted = Some(result_file_name(&dep.name, &dep.version));
                enqueued = Some(Krate::new(dep.name.clone(), dep.version.clone()));
                break;
            }
            DepAction::Reject | DepAction::Skip(_) | DepAction::Stop => break,
        };
    }
    (emitted, enqueued)
}

#[test]
fn single_hop_positive_emits_one_file() {
    let seeds = seed_frontier("foo", &vec!["1.0.0".to_string()], "^1.0");
    let mut engine = Traversal::new(seeds);

    let level = engine.pop_level();
    assert_eq!(level.len(), 1);
    let parent = &level[0];

    let dependents = vec![rdep("bar", "2.3.0", "^1.0")];
    let filtered = filter_dependents_by_version_req(dependents, &parent.version());
    assert_eq!(filtered.len(), 1);

    let bar_sources = vec!["fn use_it() { foo::bar(); }".to_string()];
    let (emitted, enqueued) = run_dependent(
        &filtered[0],
        &bar_sources,
        "foo::bar",
        Some("{\"total_callers\": 2}"),
    );
    assert_eq!(emitted.as_deref(), Some("bar-2.3.0-callers.json"));

    engine.push_results(enqueued.into_iter().collect());
    let visited: Vec<String> = engine.visited_ids().iter().map(|v| v.name.clone()).collect();
    assert_eq!(visited, vec!["bar".to_string()]);
}

#[test]
fn single_hop_negative_by_pre_filter_emits_nothing() {
    let dep = rdep("bar", "2.3.0", "^1.0");
    // bar's sources never spell the bare identifier, so the tool never runs
    let bar_sources = vec!["fn quiet() {}".to_string()];
    let (emitted, enqueued) = run_dependent(&dep, &bar_sources, "foo::bar", None);
    assert!(emitted.is_none());
    assert!(enqueued.is_none());
}

#[test]
fn two_hop_propagation_follows_the_fixed_target() {
    let seeds = seed_frontier("foo", &vec!["1.0.0".to_string()], "^1.0");
    let mut engine = Traversal::new(seeds);
    let function_path = "foo::bar";

    // level 1: foo@1.0.0
    let level = engine.pop_level();
    let parent = &level[0];
    let filtered =
        filter_dependents_by_version_req(vec![rdep("bar", "2.3.0", "^1.0")], &parent.version());
    let bar_sources = vec!["fn f() { foo::bar(); }".to_string()];
    let (emitted, enqueued) =
        run_dependent(&filtered[0], &bar_sources, function_path, Some("{\"total_callers\": 1}"));
    assert_eq!(emitted.as_deref(), Some("bar-2.3.0-callers.json"));
    engine.push_results(enqueued.into_iter().collect());

    // level 2: bar@2.3.0; baz depends on bar, and the target stays foo::bar,
    // so baz is analysed against the bare identifier of that fixed target
    let level = engine.pop_level();
    assert_eq!(level[0].name(), "bar");
    let filtered =
        filter_dependents_by_version_req(vec![rdep("baz", "0.1.0", "^2.0")], &level[0].version());
    assert_eq!(filtered.len(), 1);
    let baz_sources = vec!["fn g() { bar::baz(); }".to_string()];
    let (emitted, enqueued) =
        run_dependent(&filtered[0], &baz_sources, function_path, Some("{\"total_callers\": 1}"));
    assert_eq!(emitted.as_deref(), Some("baz-0.1.0-callers.json"));
    engine.push_results(enqueued.into_iter().collect());

    // level 3: baz@0.1.0, no dependents
    let level = engine.pop_level();
    assert_eq!(level[0].name(), "baz");
    engine.push_results(Vec::new());
    assert!(engine.is_done());

    let visited: Vec<String> = engine.visited_ids().iter().map(|v| v.name.clone()).collect();
    assert_eq!(visited, vec!["bar".to_string(), "baz".to_string()]);
}

#[test]
fn two_hop_stops_where_the_identifier_disappears() {
    // baz depends on bar, but its sources never spell the identifier of the
    // fixed target foo::bar: the pre-filter keeps it out
    let dep = rdep("baz", "0.1.0", "^2.0");
    let baz_sources = vec!["fn g() { quiet(); }".to_string()];
    let (emitted, enqueued) = run_dependent(&dep, &baz_sources, "foo::bar", None);
    assert!(emitted.is_none());
    assert!(enqueued.is_none());
}

#[test]
fn tool_failure_is_not_emitted_and_not_enqueued() {
    let dep = rdep("bar", "2.3.0", "^1.0");
    let sources = vec!["fn f() { foo::bar(); }".to_string()];
    let mut state = dep_start();
    let mut event = DepEvent::Materialised(true);
    let mut settled = false;
    loop {
        let (next, action) = dep_step(state, event);
        state = next;
        event = match action {
            DepAction::PatchManifest => DepEvent::Patched(true),
            DepAction::RunAnalysis => {
                let tool = Some(ToolOutcome {
                    exit_ok: false,
                    stderr: "no space left".to_string(),
                    report: None,
                });
                DepEvent::Analysed(analyse_package(&sources, "foo::bar", tool))
            }
            DepAction::Reject => {
                settled = true;
                break;
            }
            other => panic!("unexpected action {:?} for {}", other, dep.name),
        };
    }
    assert!(settled);
}
