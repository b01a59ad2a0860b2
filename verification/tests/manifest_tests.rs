//! Behaviour of the manifest patcher on the two recognised dependency
//! spellings, on manifests without the dependency, and under repetition.

use cross_pro_cg::patch_dependency_version_in_toml;
use cross_pro_cg::plan_manifest_patch;

#[test]
fn inline_entry_is_pinned() {
    let toml = "[package]\nname = \"bar\"\n\n[dependencies]\nfoo = \"1.0\"\nother = \"0.3\"\n";
    let out = patch_dependency_version_in_toml(toml, "foo", "1.0.0");
    assert!(out.found);
    assert_eq!(
        out.content,
        "[package]\nname = \"bar\"\n\n[dependencies]\nfoo = \"=1.0.0\"\nother = \"0.3\"\n"
    );
}

#[test]
fn inline_table_value_is_pinned() {
    let toml = "[dependencies]\nfoo = { version = \"1.0\", features = [\"std\"] }\n";
    let out = patch_dependency_version_in_toml(toml, "foo", "1.2.3");
    assert!(out.found);
    assert_eq!(out.content, "[dependencies]\nfoo = \"=1.2.3\"\n");
}

#[test]
fn sub_table_version_is_pinned() {
    let toml = "[dependencies.foo]\nversion = \"1.0\"\nfeatures = [\"std\"]\n";
    let out = patch_dependency_version_in_toml(toml, "foo", "1.0.4");
    assert!(out.found);
    assert_eq!(out.content, "[dependencies.foo]\nversion = \"=1.0.4\"\nfeatures = [\"std\"]\n");
}

#[test]
fn absent_dependency_leaves_manifest_unchanged() {
    let toml = "[package]\nname = \"bar\"\n\n[dependencies]\nother = \"0.3\"\n";
    let out = patch_dependency_version_in_toml(toml, "foo", "1.0.0");
    assert!(!out.found);
    assert_eq!(out.content, toml);
}

#[test]
fn dev_dependencies_are_not_touched() {
    let toml = "[dev-dependencies]\nfoo = \"1.0\"\n";
    let out = patch_dependency_version_in_toml(toml, "foo", "1.0.0");
    assert!(!out.found);
    assert_eq!(out.content, toml);
}

#[test]
fn name_prefix_does_not_match_other_dependency() {
    let toml = "[dependencies]\nfoobar = \"1.0\"\n";
    let out = patch_dependency_version_in_toml(toml, "foo", "1.0.0");
    assert!(!out.found);
    assert_eq!(out.content, toml);
}

#[test]
fn patch_is_idempotent_bytewise() {
    let toml = "[package]\nname = \"bar\"\n\n[dependencies]\nfoo = \"1.0\"\n\n[dependencies.baz]\nversion = \"2\"\n";
    let once = patch_dependency_version_in_toml(toml, "foo", "1.0.0");
    let twice = patch_dependency_version_in_toml(&once.content, "foo", "1.0.0");
    assert_eq!(once.content, twice.content);
    assert!(twice.found);
}

#[test]
fn sub_table_patch_is_idempotent_bytewise() {
    let toml = "[dependencies.foo]\nversion = \"1.0\"\n";
    let once = patch_dependency_version_in_toml(toml, "foo", "1.0.0");
    let twice = patch_dependency_version_in_toml(&once.content, "foo", "1.0.0");
    assert_eq!(once.content, twice.content);
}

#[test]
fn trailing_newline_is_preserved() {
    let toml = "[dependencies]\nfoo = \"1.0\"\n";
    let out = patch_dependency_version_in_toml(toml, "foo", "2.0.0");
    assert_eq!(out.content, "[dependencies]\nfoo = \"=2.0.0\"\n");
}

#[test]
fn indented_entries_are_recognised() {
    let toml = "[dependencies]\n  foo = \"1.0\"\n";
    let out = patch_dependency_version_in_toml(toml, "foo", "1.0.0");
    assert!(out.found);
    assert_eq!(out.content, "[dependencies]\nfoo = \"=1.0.0\"\n");
}

#[test]
fn plan_reports_prior_only_when_found() {
    let with_dep = "[dependencies]\nfoo = \"1.0\"\n";
    let plan = plan_manifest_patch(with_dep, "foo", "1.0.0");
    assert_eq!(plan.prior.as_deref(), Some(with_dep));
    assert_eq!(plan.write.as_deref(), Some("[dependencies]\nfoo = \"=1.0.0\"\n"));

    let without = "[dependencies]\nother = \"1.0\"\n";
    let plan = plan_manifest_patch(without, "foo", "1.0.0");
    assert!(plan.prior.is_none());
    assert!(plan.write.is_none());
}

#[test]
fn plan_skips_write_when_already_pinned() {
    let pinned = "[dependencies]\nfoo = \"=1.0.0\"\n";
    let plan = plan_manifest_patch(pinned, "foo", "1.0.0");
    assert_eq!(plan.prior.as_deref(), Some(pinned));
    assert!(plan.write.is_none());
}

#[test]
fn carriage_returns_do_not_hide_a_match() {
    let toml = "[dependencies]\r\nfoo = \"1.0\"\r\n";
    let out = patch_dependency_version_in_toml(toml, "foo", "1.0.0");
    assert!(out.found);
    assert_eq!(out.content, "[dependencies]\r\nfoo = \"=1.0.0\"\n");
}

#[test]
fn empty_manifest_is_unchanged() {
    let out = patch_dependency_version_in_toml("", "foo", "1.0.0");
    assert!(!out.found);
    assert_eq!(out.content, "");
}
