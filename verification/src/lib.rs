//! Reverse-dependency impact analysis for a package registry.
//!
//! Given a seed package, a semantic-version range, and the path of a target
//! function, the library drives a level-synchronous breadth-first traversal
//! over the packages that depend on the seed, deciding for each one whether
//! its sources can call the target function.  The surrounding process work
//! (downloads, subprocesses, the registry store) is performed by a thin
//! unverified driver; every decision it takes comes from this crate.

pub mod analysis;
pub mod artifact;
pub mod krate;
pub mod manifest;
pub mod registry;
pub mod sink;
pub mod text;
pub mod traversal;
pub mod version_req;

pub use artifact::{fetch_start, fetch_step, FetchAction, FetchError, FetchEvent, FetchState, InFlightSet};
pub use analysis::{analyse_package, classify_tool_outcome, function_ident, pre_filter_hit, CallReport, FunctionNode, ReportKind, ToolOutcome};
pub use krate::{Krate, VisitedCrateVersion};
pub use manifest::{patch_dependency_version_in_toml, plan_manifest_patch, PatchOutcome, PatchPlan};
pub use registry::{filter_dependents_by_version_req, seed_frontier, ReverseDependency};
pub use sink::{result_file_name, should_emit};
pub use traversal::{dep_start, dep_step, split_into_batches, DepAction, DepEvent, DepState, SkipReason, Traversal, BATCH_SIZE, MAX_CONCURRENT_TASKS, PATCH_ATTEMPTS, PATCH_TIMEOUT_SECS};
pub use version_req::version_range_is_valid;
