//! Behaviour of the traversal engine, the in-flight set, the materialise
//! protocol, the dependent pipeline, and batching.

use cross_pro_cg::dep_start;
use cross_pro_cg::dep_step;
use cross_pro_cg::fetch_start;
use cross_pro_cg::fetch_step;
use cross_pro_cg::seed_frontier;
use cross_pro_cg::split_into_batches;
use cross_pro_cg::CallReport;
use cross_pro_cg::DepAction;
use cross_pro_cg::DepState;
use cross_pro_cg::FetchAction;
use cross_pro_cg::FetchError;
use cross_pro_cg::FetchEvent;
use cross_pro_cg::FetchState;
use cross_pro_cg::InFlightSet;
use cross_pro_cg::Krate;
use cross_pro_cg::ReverseDependency;
use cross_pro_cg::SkipReason;
use cross_pro_cg::Traversal;

fn krate(name: &str, version: &str) -> Krate {
    Krate::new(name.to_string(), version.to_string())
}

fn rdep(name: &str, version: &str, req: &str) -> ReverseDependency {
    ReverseDependency {
        name: name.to_string(),
        version: version.to_string(),
        req: req.to_string(),
    }
}

#[test]
fn seed_without_dependents_ends_with_empty_visited() {
    let seeds = seed_frontier("foo", &vec!["1.0.0".to_string()], "^1.0");
    assert_eq!(seeds.len(), 1);
    let mut t = Traversal::new(seeds);
    assert!(!t.is_done());
    let level = t.pop_level();
    assert_eq!(level.len(), 1);
    assert_eq!(level[0].name(), "foo");
    assert_eq!(level[0].version(), "1.0.0");
    t.push_results(Vec::new());
    assert!(t.is_done());
    assert!(t.visited_ids().is_empty());
    assert_eq!(t.level(), 1);
}

#[test]
fn visited_grows_monotonically_and_deduplicates() {
    let mut t = Traversal::new(vec![krate("foo", "1.0.0")]);
    let _ = t.pop_level();
    t.push_results(vec![krate("bar", "2.3.0"), krate("bar", "2.3.0"), krate("qux", "1.1.0")]);
    let after_first: Vec<(String, String)> =
        t.visited_ids().iter().map(|v| (v.name.clone(), v.version.clone())).collect();
    assert_eq!(
        after_first,
        vec![
            ("bar".to_string(), "2.3.0".to_string()),
            ("qux".to_string(), "1.1.0".to_string())
        ]
    );
    let level = t.pop_level();
    let names: Vec<String> = level.iter().map(|k| k.name()).collect();
    assert_eq!(names, vec!["bar".to_string(), "qux".to_string()]);
    t.push_results(vec![krate("bar", "2.3.0"), krate("foo", "1.0.0")]);
    let after_second: Vec<(String, String)> =
        t.visited_ids().iter().map(|v| (v.name.clone(), v.version.clone())).collect();
    assert_eq!(after_second, after_first, "already-visited and root nodes are not re-admitted");
    assert!(t.is_done());
}

#[test]
fn two_hop_propagation_processes_each_node_once() {
    let mut t = Traversal::new(vec![krate("foo", "1.0.0")]);

    let level1 = t.pop_level();
    assert_eq!(level1.len(), 1);
    t.push_results(vec![krate("bar", "2.3.0")]);

    let level2 = t.pop_level();
    assert_eq!(level2.len(), 1);
    assert_eq!(level2[0].name(), "bar");
    t.push_results(vec![krate("baz", "0.1.0")]);

    let level3 = t.pop_level();
    assert_eq!(level3.len(), 1);
    assert_eq!(level3[0].name(), "baz");
    t.push_results(Vec::new());
    assert!(t.is_done());

    let visited: Vec<String> = t.visited_ids().iter().map(|v| v.name.clone()).collect();
    assert_eq!(visited, vec!["bar".to_string(), "baz".to_string()]);

    let processed: Vec<String> = t.processed_ids().iter().map(|v| v.name.clone()).collect();
    assert_eq!(processed, vec!["foo".to_string(), "bar".to_string(), "baz".to_string()]);
    assert_eq!(t.level(), 3);
}

#[test]
fn duplicate_seeds_collapse() {
    let mut t = Traversal::new(vec![krate("foo", "1.0.0"), krate("foo", "1.0.0")]);
    let level = t.pop_level();
    assert_eq!(level.len(), 1);
}

#[test]
fn in_flight_set_admits_one_actor_per_key() {
    let mut set = InFlightSet::new();
    assert!(set.try_acquire("foo-1.0.0"));
    assert!(!set.try_acquire("foo-1.0.0"));
    assert!(set.try_acquire("foo-1.0.1"));
    set.release("foo-1.0.0");
    assert!(set.try_acquire("foo-1.0.0"));
    assert!(!set.try_acquire("foo-1.0.1"));
}

#[test]
fn materialise_happy_path_downloads_and_extracts() {
    let (s, a) = fetch_start();
    assert_eq!(a, FetchAction::CheckExtractDir);
    let (s, a) = fetch_step(s, FetchEvent::DirPresent(false));
    assert_eq!(a, FetchAction::TryLock);
    let (s, a) = fetch_step(s, FetchEvent::LockTry(true));
    assert_eq!(a, FetchAction::CheckArchive);
    let (s, a) = fetch_step(s, FetchEvent::ArchivePresent(false));
    assert_eq!(a, FetchAction::CreateDownloadDir);
    let (s, a) = fetch_step(s, FetchEvent::DirCreated(true));
    assert_eq!(a, FetchAction::RunDownload);
    let (s, a) = fetch_step(s, FetchEvent::Downloaded(Some(4096)));
    assert_eq!(a, FetchAction::RunExtract);
    let (s, a) = fetch_step(s, FetchEvent::Extracted(true));
    assert_eq!(a, FetchAction::CheckExtractDir);
    let (s, a) = fetch_step(s, FetchEvent::DirPresent(true));
    assert_eq!(s, FetchState::Finished);
    assert_eq!(a, FetchAction::Succeed { release_lock: true });
}

#[test]
fn materialise_present_directory_returns_at_once() {
    let (s, _) = fetch_start();
    let (s, a) = fetch_step(s, FetchEvent::DirPresent(true));
    assert_eq!(s, FetchState::Finished);
    assert_eq!(a, FetchAction::Succeed { release_lock: false });
}

#[test]
fn materialise_empty_download_fails() {
    let (s, _) = fetch_start();
    let (s, _) = fetch_step(s, FetchEvent::DirPresent(false));
    let (s, _) = fetch_step(s, FetchEvent::LockTry(true));
    let (s, _) = fetch_step(s, FetchEvent::ArchivePresent(false));
    let (s, _) = fetch_step(s, FetchEvent::DirCreated(true));
    let (s, a) = fetch_step(s, FetchEvent::Downloaded(Some(0)));
    assert_eq!(s, FetchState::Finished);
    assert_eq!(a, FetchAction::Fail { error: FetchError::EmptyDownload, release_lock: true });
}

#[test]
fn materialise_waits_then_times_out() {
    let (s, _) = fetch_start();
    let (s, _) = fetch_step(s, FetchEvent::DirPresent(false));
    let (mut s, a) = fetch_step(s, FetchEvent::LockTry(false));
    assert_eq!(a, FetchAction::CheckExtractDir);
    let mut polls = 0;
    loop {
        let (s2, a2) = fetch_step(s, FetchEvent::DirPresent(false));
        s = s2;
        match a2 {
            FetchAction::SleepThenCheckDir => {
                polls += 1;
            }
            FetchAction::Fail { error, release_lock } => {
                assert_eq!(error, FetchError::WaitTimeout);
                assert!(!release_lock, "a waiting actor never took the lock");
                break;
            }
            other => panic!("unexpected action while waiting: {:?}", other),
        }
    }
    assert_eq!(polls, 40, "forty polls of half a second give the twenty-second wait");
    assert_eq!(s, FetchState::Finished);
}

#[test]
fn materialise_waiting_actor_sees_directory_appear() {
    let (s, _) = fetch_start();
    let (s, _) = fetch_step(s, FetchEvent::DirPresent(false));
    let (s, _) = fetch_step(s, FetchEvent::LockTry(false));
    let (s, _) = fetch_step(s, FetchEvent::DirPresent(false));
    let (s, a) = fetch_step(s, FetchEvent::DirPresent(true));
    assert_eq!(s, FetchState::Finished);
    assert_eq!(a, FetchAction::Succeed { release_lock: false });
}

#[test]
fn dependent_pipeline_accepts_exactly_the_calling_report() {
    let s = dep_start();
    let (s, a) = dep_step(s, cross_pro_cg::DepEvent::Materialised(true));
    assert!(matches!(a, DepAction::PatchManifest));
    let (s, a) = dep_step(s, cross_pro_cg::DepEvent::Patched(true));
    assert!(matches!(a, DepAction::RunAnalysis));
    let (s, a) = dep_step(
        s,
        cross_pro_cg::DepEvent::Analysed(CallReport::Calls("{\"total_callers\": 1}".to_string())),
    );
    assert_eq!(s, DepState::Settled);
    assert!(matches!(a, DepAction::Accept(ref text) if text == "{\"total_callers\": 1}"));
}

#[test]
fn dependent_pipeline_rejects_non_calling_reports() {
    for report in [
        CallReport::DoesNotCall,
        CallReport::NotApplicable,
        CallReport::ToolFailure("boom".to_string()),
    ] {
        let s = dep_start();
        let (s, _) = dep_step(s, cross_pro_cg::DepEvent::Materialised(true));
        let (s, _) = dep_step(s, cross_pro_cg::DepEvent::Patched(true));
        let (_, a) = dep_step(s, cross_pro_cg::DepEvent::Analysed(report));
        assert!(matches!(a, DepAction::Reject));
    }
}

#[test]
fn patch_retry_recovers_from_one_transient_failure() {
    let s = dep_start();
    let (s, _) = dep_step(s, cross_pro_cg::DepEvent::Materialised(true));
    let (s, a) = dep_step(s, cross_pro_cg::DepEvent::Patched(false));
    assert!(matches!(a, DepAction::PatchManifest), "first failure is retried");
    assert_eq!(s, DepState::Patching { attempt: 1 });
    let (s, a) = dep_step(s, cross_pro_cg::DepEvent::Patched(true));
    assert!(matches!(a, DepAction::RunAnalysis));
    let (s, a) = dep_step(s, cross_pro_cg::DepEvent::Analysed(CallReport::DoesNotCall));
    assert_eq!(s, DepState::Settled);
    assert!(matches!(a, DepAction::Reject), "exactly one verdict is reached");
}

#[test]
fn patch_gives_up_after_two_failures() {
    let s = dep_start();
    let (s, _) = dep_step(s, cross_pro_cg::DepEvent::Materialised(true));
    let (s, _) = dep_step(s, cross_pro_cg::DepEvent::Patched(false));
    let (s, a) = dep_step(s, cross_pro_cg::DepEvent::Patched(false));
    assert_eq!(s, DepState::Settled);
    assert!(matches!(a, DepAction::Skip(SkipReason::PatchFailed)));
}

#[test]
fn materialise_failure_skips_dependent() {
    let s = dep_start();
    let (s, a) = dep_step(s, cross_pro_cg::DepEvent::Materialised(false));
    assert_eq!(s, DepState::Settled);
    assert!(matches!(a, DepAction::Skip(SkipReason::MaterialiseFailed)));
}

#[test]
fn batches_partition_in_order() {
    let items: Vec<ReverseDependency> =
        (0..7).map(|i| rdep(&format!("dep{}", i), "1.0.0", "^1.0")).collect();
    let batches = split_into_batches(items, 3);
    assert_eq!(batches.len(), 3);
    assert_eq!(batches[0].len(), 3);
    assert_eq!(batches[1].len(), 3);
    assert_eq!(batches[2].len(), 1);
    let flat: Vec<String> = batches.iter().flatten().map(|d| d.name.clone()).collect();
    let expect: Vec<String> = (0..7).map(|i| format!("dep{}", i)).collect();
    assert_eq!(flat, expect);
}

#[test]
fn batching_empty_input_gives_no_batches() {
    let batches = split_into_batches(Vec::new(), 100);
    assert!(batches.is_empty());
}
