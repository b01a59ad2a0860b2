//! The manifest patcher: rewrites the dependency entry of a parent package
//! in a dependent's `Cargo.toml` so that the declared version becomes the
//! exact string `"=version"`.  Two spellings are recognised: an inline entry
//! `name = ...` under `[dependencies]`, and the `version = ...` line of a
//! `[dependencies.name]` sub-table.  Other tables are left alone.
//!
//! The transformation is defined line by line over the split of the file,
//! and is proved idempotent; when the dependency is absent the file is
//! returned unchanged, character for character.

use vstd::prelude::*;
use vstd::string::StringExecFns;

use crate::text::has_prefix;
use crate::text::is_prefix;
use crate::text::is_ws;
use crate::text::join_lines;
use crate::text::join_lines_vec;
use crate::text::lemma_first_non_ws_unique;
use crate::text::lemma_join_split;
use crate::text::lemma_last_non_ws_end_unique;
use crate::text::lemma_split_join;
use crate::text::lemma_split_lines_no_newline;
use crate::text::lemma_split_lines_nonempty;
use crate::text::split_lines;
use crate::text::split_lines_vec;
use crate::text::str_eq;
use crate::text::trim_ws;
use crate::text::trimmed;
use crate::text::views_of;

verus! {

/// Which dependency section of the manifest the scan is currently inside.
pub struct PatchState {
    pub in_deps: bool,
    pub in_table: bool,
}

/// The header line that opens the plain dependency table.
pub open spec fn deps_header() -> Seq<char> {
    "[dependencies]"@
}

/// The header line that opens the sub-table of one dependency.
pub open spec fn table_header(dep: Seq<char>) -> Seq<char> {
    "[dependencies."@ + dep + "]"@
}

/// The replacement for an inline dependency entry: `dep = "=ver"`.
pub open spec fn pin_inline(dep: Seq<char>, ver: Seq<char>) -> Seq<char> {
    dep + " = \"="@ + ver + "\""@
}

/// The replacement for the version line of a dependency sub-table:
/// `version = "=ver"`.
pub open spec fn pin_version(ver: Seq<char>) -> Seq<char> {
    "version = \"="@ + ver + "\""@
}

/// The trimmed line opens `[dependencies]`.
pub open spec fn is_deps_header_line(t: Seq<char>, dep: Seq<char>) -> bool {
    is_prefix(t, deps_header()) && !is_prefix(t, table_header(dep))
}

/// The trimmed line is exactly `[dependencies.dep]`.
pub open spec fn is_dep_table_line(t: Seq<char>, dep: Seq<char>) -> bool {
    t == table_header(dep)
}

/// The trimmed line opens some other table.
pub open spec fn is_other_table_line(t: Seq<char>, dep: Seq<char>) -> bool {
    is_prefix(t, "["@) && !is_prefix(t, deps_header()) && !is_prefix(t, table_header(dep))
}

/// The section state after one line has been scanned.
pub open spec fn next_state(line: Seq<char>, dep: Seq<char>, st: PatchState) -> PatchState {
    let t = trimmed(line);
    if is_deps_header_line(t, dep) {
        PatchState { in_deps: true, in_table: false }
    } else if is_dep_table_line(t, dep) {
        PatchState { in_deps: false, in_table: true }
    } else if is_other_table_line(t, dep) {
        PatchState { in_deps: false, in_table: false }
    } else {
        st
    }
}

/// The line is an inline entry for `dep` inside `[dependencies]`.
pub open spec fn inline_match(line: Seq<char>, dep: Seq<char>, st: PatchState) -> bool {
    let t = trimmed(line);
    &&& !is_deps_header_line(t, dep)
    &&& !is_dep_table_line(t, dep)
    &&& !is_other_table_line(t, dep)
    &&& st.in_deps
    &&& (is_prefix(t, dep + " "@) || is_prefix(t, dep + "="@))
}

/// The line is the version line inside `[dependencies.dep]`.
pub open spec fn version_match(line: Seq<char>, dep: Seq<char>, st: PatchState) -> bool {
    let t = trimmed(line);
    &&& !is_deps_header_line(t, dep)
    &&& !is_dep_table_line(t, dep)
    &&& !is_other_table_line(t, dep)
    &&& !(st.in_deps && (is_prefix(t, dep + " "@) || is_prefix(t, dep + "="@)))
    &&& st.in_table
    &&& is_prefix(t, "version"@)
}

/// The line is rewritten by the patcher.
pub open spec fn line_matched(line: Seq<char>, dep: Seq<char>, st: PatchState) -> bool {
    inline_match(line, dep, st) || version_match(line, dep, st)
}

/// What one line becomes.
pub open spec fn patched_line(line: Seq<char>, dep: Seq<char>, ver: Seq<char>, st: PatchState) -> Seq<
    char,
> {
    if inline_match(line, dep, st) {
        pin_inline(dep, ver)
    } else if version_match(line, dep, st) {
        pin_version(ver)
    } else {
        line
    }
}

/// What a sequence of lines becomes, threading the section state through.
pub open spec fn patch_lines(
    lines: Seq<Seq<char>>,
    dep: Seq<char>,
    ver: Seq<char>,
    st: PatchState,
) -> Seq<Seq<char>>
    decreases lines.len(),
{
    if lines.len() == 0 {
        Seq::empty()
    } else {
        seq![patched_line(lines[0], dep, ver, st)] + patch_lines(
            lines.drop_first(),
            dep,
            ver,
            next_state(lines[0], dep, st),
        )
    }
}

/// Whether any line of the sequence is rewritten.
pub open spec fn any_match(lines: Seq<Seq<char>>, dep: Seq<char>, st: PatchState) -> bool
    decreases lines.len(),
{
    if lines.len() == 0 {
        false
    } else {
        line_matched(lines[0], dep, st) || any_match(
            lines.drop_first(),
            dep,
            next_state(lines[0], dep, st),
        )
    }
}

/// The section state after a sequence of lines has been scanned.
pub open spec fn state_after(lines: Seq<Seq<char>>, dep: Seq<char>, st: PatchState) -> PatchState
    decreases lines.len(),
{
    if lines.len() == 0 {
        st
    } else {
        state_after(lines.drop_first(), dep, next_state(lines[0], dep, st))
    }
}

/// The state in which a scan of the manifest starts.
pub open spec fn initial_state() -> PatchState {
    PatchState { in_deps: false, in_table: false }
}

/// The whole file transformation: split at newlines, rewrite the matching
/// lines, join back.
pub open spec fn spec_patch(content: Seq<char>, dep: Seq<char>, ver: Seq<char>) -> Seq<char> {
    join_lines(patch_lines(split_lines(content), dep, ver, initial_state()))
}

/// Whether the manifest holds a dependency entry for `dep` that the patcher
/// rewrites.
pub open spec fn spec_patch_found(content: Seq<char>, dep: Seq<char>) -> bool {
    any_match(split_lines(content), dep, initial_state())
}

/// Processing one more line extends the output by one line and advances the
/// state.
proof fn lemma_patch_snoc(lines: Seq<Seq<char>>, l: Seq<char>, dep: Seq<char>, ver: Seq<char>, st: PatchState)
    ensures
        patch_lines(lines.push(l), dep, ver, st) == patch_lines(lines, dep, ver, st).push(
            patched_line(l, dep, ver, state_after(lines, dep, st)),
        ),
        state_after(lines.push(l), dep, st) == next_state(l, dep, state_after(lines, dep, st)),
        any_match(lines.push(l), dep, st) == (any_match(lines, dep, st) || line_matched(
            l,
            dep,
            state_after(lines, dep, st),
        )),
    decreases lines.len(),
{
    if lines.len() == 0 {
        let st1 = next_state(l, dep, st);
        assert(lines.push(l)[0] == l);
        assert(lines.push(l).drop_first() =~= Seq::<Seq<char>>::empty());
        assert(patch_lines(Seq::<Seq<char>>::empty(), dep, ver, st1) =~= Seq::<Seq<char>>::empty());
        assert(state_after(Seq::<Seq<char>>::empty(), dep, st1) == st1);
        assert(!any_match(Seq::<Seq<char>>::empty(), dep, st1));
        assert(state_after(lines, dep, st) == st);
        assert(!any_match(lines, dep, st));
        assert(patch_lines(lines, dep, ver, st) =~= Seq::<Seq<char>>::empty());
        assert(patch_lines(lines.push(l), dep, ver, st) =~= patch_lines(lines, dep, ver, st).push(
            patched_line(l, dep, ver, st),
        ));
    } else {
        let st1 = next_state(lines[0], dep, st);
        lemma_patch_snoc(lines.drop_first(), l, dep, ver, st1);
        assert(lines.push(l)[0] == lines[0]);
        assert(lines.push(l).drop_first() =~= lines.drop_first().push(l));
        assert(patch_lines(lines.push(l), dep, ver, st) =~= patch_lines(lines, dep, ver, st).push(
            patched_line(l, dep, ver, state_after(lines, dep, st)),
        ));
    }
}

/// The patcher keeps the number of lines.
proof fn lemma_patch_lines_len(lines: Seq<Seq<char>>, dep: Seq<char>, ver: Seq<char>, st: PatchState)
    ensures
        patch_lines(lines, dep, ver, st).len() == lines.len(),
    decreases lines.len(),
{
    if lines.len() == 0 {
    } else {
        lemma_patch_lines_len(lines.drop_first(), dep, ver, next_state(lines[0], dep, st));
    }
}

/// Rewrite the dependency entry for `dep_name` in a manifest so that its
/// version becomes exactly `"=dep_version"`.  `content` is the rewritten
/// file; `found` reports whether any entry for `dep_name` was seen.
pub struct PatchOutcome {
    pub content: String,
    pub found: bool,
}

/// Rewrite the version of one dependency in the text of a `Cargo.toml`.
///
/// Inline entries `dep_name = ...` under `[dependencies]` become
/// `dep_name = "=dep_version"`; the `version = ...` line under
/// `[dependencies.dep_name]` becomes `version = "=dep_version"`.  Every
/// other line is kept, character for character.
pub fn patch_dependency_version_in_toml(
    toml_content: &str,
    dep_name: &str,
    dep_version: &str,
) -> (r: PatchOutcome)
    ensures
        r.content@ == spec_patch(toml_content@, dep_name@, dep_version@),
        r.found == spec_patch_found(toml_content@, dep_name@),
{
    let ghost dep = dep_name@;
    let ghost ver = dep_version@;

    let mut table_hdr = "[dependencies.".to_owned();
    table_hdr.append(dep_name);
    table_hdr.append("]");
    let mut dep_sp = dep_name.to_owned();
    dep_sp.append(" ");
    let mut dep_eq = dep_name.to_owned();
    dep_eq.append("=");
    let mut pin1 = dep_name.to_owned();
    pin1.append(" = \"=");
    pin1.append(dep_version);
    pin1.append("\"");
    let mut pin2 = "version = \"=".to_owned();
    pin2.append(dep_version);
    pin2.append("\"");

    let lines = split_lines_vec(toml_content);
    let ghost all = views_of(lines@);
    let mut out: Vec<String> = Vec::new();
    let mut in_deps = false;
    let mut in_table = false;
    let mut found = false;
    let mut i: usize = 0;
    proof {
        assert(all.take(0) =~= Seq::<Seq<char>>::empty());
        assert(views_of(out@) =~= Seq::<Seq<char>>::empty());
        assert(patch_lines(all.take(0), dep, ver, initial_state()) =~= Seq::<Seq<char>>::empty());
    }
    while i < lines.len()
        invariant
            0 <= i <= lines@.len(),
            all == views_of(lines@),
            table_hdr@ == table_header(dep),
            dep_sp@ == dep + " "@,
            dep_eq@ == dep + "="@,
            pin1@ == pin_inline(dep, ver),
            pin2@ == pin_version(ver),
            (PatchState { in_deps, in_table }) == state_after(
                all.take(i as int),
                dep,
                initial_state(),
            ),
            views_of(out@) == patch_lines(all.take(i as int), dep, ver, initial_state()),
            found == any_match(all.take(i as int), dep, initial_state()),
        decreases lines@.len() - i,
    {
        let ghost st = (PatchState { in_deps, in_table });
        let ghost lv = all[i as int];
        let t = trim_ws(lines[i].as_str());
        let c_hdr = has_prefix(t, "[dependencies]") && !has_prefix(t, table_hdr.as_str());
        let c_tbl = str_eq(t, table_hdr.as_str());
        proof {
            assert(c_hdr == is_deps_header_line(trimmed(lv), dep));
            assert(c_tbl == is_dep_table_line(trimmed(lv), dep));
        }
        if c_hdr {
            in_deps = true;
            in_table = false;
            out.push(lines[i].clone());
            proof {
                assert(!line_matched(lv, dep, st));
                assert(patched_line(lv, dep, ver, st) == lv);
                assert((PatchState { in_deps, in_table }) == next_state(lv, dep, st));
            }
        } else if c_tbl {
            in_deps = false;
            in_table = true;
            out.push(lines[i].clone());
            proof {
                assert(!line_matched(lv, dep, st));
                assert(patched_line(lv, dep, ver, st) == lv);
                assert((PatchState { in_deps, in_table }) == next_state(lv, dep, st));
            }
        } else {
            let c_other = has_prefix(t, "[") && !has_prefix(t, "[dependencies]") && !has_prefix(
                t,
                table_hdr.as_str(),
            );
            proof {
                assert(c_other == is_other_table_line(trimmed(lv), dep));
            }
            if c_other {
                in_deps = false;
                in_table = false;
            }
            proof {
                assert((PatchState { in_deps, in_table }) == next_state(lv, dep, st));
            }
            let m1 = in_deps && (has_prefix(t, dep_sp.as_str()) || has_prefix(t, dep_eq.as_str()));
            proof {
                assert(m1 == inline_match(lv, dep, st));
            }
            if m1 {
                out.push(pin1.clone());
                found = true;
                proof {
                    assert(patched_line(lv, dep, ver, st) == pin_inline(dep, ver));
                }
            } else {
                let m2 = in_table && has_prefix(t, "version");
                proof {
                    assert(m2 == version_match(lv, dep, st));
                }
                if m2 {
                    out.push(pin2.clone());
                    found = true;
                    proof {
                        assert(patched_line(lv, dep, ver, st) == pin_version(ver));
                    }
                } else {
                    out.push(lines[i].clone());
                    proof {
                        assert(!line_matched(lv, dep, st));
                        assert(patched_line(lv, dep, ver, st) == lv);
                    }
                }
            }
        }
        proof {
            let prefix = all.take(i as int);
            lemma_patch_snoc(prefix, lv, dep, ver, initial_state());
            assert(all.take(i + 1) =~= prefix.push(lv));
            assert(st == state_after(prefix, dep, initial_state()));
            assert(views_of(out@) =~= patch_lines(prefix, dep, ver, initial_state()).push(
                patched_line(lv, dep, ver, st),
            ));
        }
        i = i + 1;
    }
    proof {
        assert(all.take(lines@.len() as int) =~= all);
    }
    let content = join_lines_vec(&out);
    PatchOutcome { content, found }
}

/// A scan is never inside the plain dependency table and a sub-table at
/// once.
pub open spec fn state_ok(st: PatchState) -> bool {
    !(st.in_deps && st.in_table)
}

/// A dependency name the patcher can be held to: non-empty, not starting
/// with whitespace or a table bracket, and without a newline.  Registry
/// package names satisfy all of this.
pub open spec fn patchable_name(dep: Seq<char>) -> bool {
    dep.len() > 0 && !is_ws(dep[0]) && dep[0] != '[' && !dep.contains('\n')
}

proof fn lemma_next_state_ok(line: Seq<char>, dep: Seq<char>, st: PatchState)
    requires
        state_ok(st),
    ensures
        state_ok(next_state(line, dep, st)),
{
}

/// Shape facts about the replacement lines the patcher writes.
proof fn lemma_pin_facts(dep: Seq<char>, ver: Seq<char>)
    requires
        patchable_name(dep),
        !ver.contains('\n'),
    ensures
        trimmed(pin_inline(dep, ver)) == pin_inline(dep, ver),
        trimmed(pin_version(ver)) == pin_version(ver),
        is_prefix(pin_inline(dep, ver), dep + " "@),
        is_prefix(pin_version(ver), "version"@),
        pin_inline(dep, ver)[0] == dep[0],
        pin_version(ver)[0] == 'v',
        !pin_inline(dep, ver).contains('\n'),
        !pin_version(ver).contains('\n'),
{
    reveal_strlit(" = \"=");
    reveal_strlit("\"");
    reveal_strlit("version = \"=");
    reveal_strlit(" ");
    reveal_strlit("version");
    let p1 = pin_inline(dep, ver);
    let p2 = pin_version(ver);
    let mid = " = \"="@;
    let quote = "\""@;
    let vhead = "version = \"="@;
    assert(p1.len() == dep.len() + mid.len() + ver.len() + quote.len());
    assert(p1[0] == dep[0]);
    assert(p1[p1.len() - 1] == quote[0]);
    assert(!is_ws(p1[p1.len() - 1]));
    assert(forall|k: int| 0 <= k < dep.len() ==> p1[k] == dep[k]);
    assert forall|k: int| 0 <= k < p1.len() implies p1[k] != '\n' by {
        if k < dep.len() {
            assert(p1[k] == dep[k]);
        } else if k < dep.len() + mid.len() {
            assert(p1[k] == mid[k - dep.len()]);
        } else if k < dep.len() + mid.len() + ver.len() {
            assert(p1[k] == ver[k - dep.len() - mid.len()]);
        } else {
            assert(p1[k] == quote[k - dep.len() - mid.len() - ver.len()]);
        }
    }
    assert(!p1.contains('\n'));
    lemma_first_non_ws_unique(p1, 0);
    lemma_last_non_ws_end_unique(p1, p1.len() as int);
    assert(trimmed(p1) =~= p1);
    assert(p1.subrange(0, dep.len() as int + 1) =~= dep + " "@);
    assert(is_prefix(p1, dep + " "@));
    assert(p2.len() == vhead.len() + ver.len() + quote.len());
    assert(p2[0] == vhead[0]);
    assert(p2[0] == 'v');
    assert(p2[p2.len() - 1] == quote[0]);
    assert forall|k: int| 0 <= k < p2.len() implies p2[k] != '\n' by {
        if k < vhead.len() {
            assert(p2[k] == vhead[k]);
        } else if k < vhead.len() + ver.len() {
            assert(p2[k] == ver[k - vhead.len()]);
        } else {
            assert(p2[k] == quote[k - vhead.len() - ver.len()]);
        }
    }
    assert(!p2.contains('\n'));
    lemma_first_non_ws_unique(p2, 0);
    lemma_last_non_ws_end_unique(p2, p2.len() as int);
    assert(trimmed(p2) =~= p2);
    assert(p2.subrange(0, 7) =~= "version"@);
    assert(is_prefix(p2, "version"@));
}

/// A line the patcher has rewritten is rewritten to itself on a second
/// pass, from the same state, and moves the scan to the same state.
proof fn lemma_stable_line(line: Seq<char>, dep: Seq<char>, ver: Seq<char>, st: PatchState)
    requires
        patchable_name(dep),
        !ver.contains('\n'),
        state_ok(st),
    ensures
        next_state(patched_line(line, dep, ver, st), dep, st) == next_state(line, dep, st),
        patched_line(patched_line(line, dep, ver, st), dep, ver, st) == patched_line(
            line,
            dep,
            ver,
            st,
        ),
{
    reveal_strlit("[dependencies]");
    reveal_strlit("[dependencies.");
    reveal_strlit("[");
    lemma_pin_facts(dep, ver);
    if inline_match(line, dep, st) {
        let p = pin_inline(dep, ver);
        assert(p[0] != '[');
        assert(trimmed(p) == p);
        assert(!is_prefix(p, deps_header())) by {
            if is_prefix(p, deps_header()) {
                assert(p.subrange(0, deps_header().len() as int)[0] == deps_header()[0]);
            }
        }
        assert(!is_dep_table_line(p, dep)) by {
            if p == table_header(dep) {
                assert(p[0] == ("[dependencies."@ + dep + "]"@)[0]);
            }
        }
        assert(!is_prefix(p, "["@)) by {
            if is_prefix(p, "["@) {
                assert(p.subrange(0, 1)[0] == ("["@)[0]);
            }
        }
        assert(inline_match(p, dep, st));
        assert(next_state(p, dep, st) == st);
        assert(next_state(line, dep, st) == st);
    } else if version_match(line, dep, st) {
        let p = pin_version(ver);
        assert(p[0] == 'v');
        assert(p[0] != '[');
        assert(trimmed(p) == p);
        assert(!is_prefix(p, deps_header())) by {
            if is_prefix(p, deps_header()) {
                assert(p.subrange(0, deps_header().len() as int)[0] == deps_header()[0]);
            }
        }
        assert(!is_dep_table_line(p, dep)) by {
            if p == table_header(dep) {
                assert(p[0] == ("[dependencies."@ + dep + "]"@)[0]);
            }
        }
        assert(!is_prefix(p, "["@)) by {
            if is_prefix(p, "["@) {
                assert(p.subrange(0, 1)[0] == ("["@)[0]);
            }
        }
        assert(!st.in_deps);
        assert(version_match(p, dep, st));
        assert(next_state(p, dep, st) == st);
        assert(next_state(line, dep, st) == st);
    }
}

/// Rewriting the rewritten lines changes nothing further.
proof fn lemma_patch_lines_idem(lines: Seq<Seq<char>>, dep: Seq<char>, ver: Seq<char>, st: PatchState)
    requires
        patchable_name(dep),
        !ver.contains('\n'),
        state_ok(st),
    ensures
        patch_lines(patch_lines(lines, dep, ver, st), dep, ver, st) == patch_lines(
            lines,
            dep,
            ver,
            st,
        ),
    decreases lines.len(),
{
    if lines.len() == 0 {
        assert(patch_lines(lines, dep, ver, st) =~= Seq::<Seq<char>>::empty());
        assert(patch_lines(patch_lines(lines, dep, ver, st), dep, ver, st) =~= patch_lines(
            lines,
            dep,
            ver,
            st,
        ));
    } else {
        let p0 = patched_line(lines[0], dep, ver, st);
        let st1 = next_state(lines[0], dep, st);
        lemma_stable_line(lines[0], dep, ver, st);
        lemma_next_state_ok(lines[0], dep, st);
        lemma_patch_lines_idem(lines.drop_first(), dep, ver, st1);
        let rest = patch_lines(lines.drop_first(), dep, ver, st1);
        let whole = patch_lines(lines, dep, ver, st);
        assert(whole == seq![p0] + rest);
        assert(whole.len() == rest.len() + 1);
        assert(whole[0] == p0);
        assert(whole.drop_first() =~= rest);
        assert(patch_lines(whole, dep, ver, st) == seq![patched_line(p0, dep, ver, st)]
            + patch_lines(whole.drop_first(), dep, ver, next_state(p0, dep, st)));
        assert(patched_line(p0, dep, ver, st) == p0);
        assert(next_state(p0, dep, st) == st1);
        assert(patch_lines(whole, dep, ver, st) =~= whole);
    }
}

/// The rewritten lines have no newline when the input lines have none.
proof fn lemma_patch_lines_no_newline(
    lines: Seq<Seq<char>>,
    dep: Seq<char>,
    ver: Seq<char>,
    st: PatchState,
)
    requires
        patchable_name(dep),
        !ver.contains('\n'),
        forall|i: int| 0 <= i < lines.len() ==> !#[trigger] lines[i].contains('\n'),
    ensures
        forall|i: int|
            0 <= i < patch_lines(lines, dep, ver, st).len() ==> !#[trigger] patch_lines(
                lines,
                dep,
                ver,
                st,
            )[i].contains('\n'),
    decreases lines.len(),
{
    if lines.len() == 0 {
    } else {
        let st1 = next_state(lines[0], dep, st);
        assert(forall|i: int|
            0 <= i < lines.drop_first().len() ==> !#[trigger] lines.drop_first()[i].contains('\n'));
        lemma_patch_lines_no_newline(lines.drop_first(), dep, ver, st1);
        lemma_pin_facts(dep, ver);
        let whole = patch_lines(lines, dep, ver, st);
        let rest = patch_lines(lines.drop_first(), dep, ver, st1);
        assert(whole == seq![patched_line(lines[0], dep, ver, st)] + rest);
        assert(!lines[0].contains('\n'));
        assert(!patched_line(lines[0], dep, ver, st).contains('\n'));
        assert(forall|i: int| 1 <= i < whole.len() ==> whole[i] == #[trigger] rest[i - 1]);
    }
}

/// Without a match every line is kept.
proof fn lemma_patch_lines_id(lines: Seq<Seq<char>>, dep: Seq<char>, ver: Seq<char>, st: PatchState)
    requires
        !any_match(lines, dep, st),
    ensures
        patch_lines(lines, dep, ver, st) == lines,
    decreases lines.len(),
{
    if lines.len() == 0 {
        assert(patch_lines(lines, dep, ver, st) =~= lines);
    } else {
        lemma_patch_lines_id(lines.drop_first(), dep, ver, next_state(lines[0], dep, st));
        assert(patched_line(lines[0], dep, ver, st) == lines[0]);
        assert(patch_lines(lines, dep, ver, st) =~= lines);
    }
}

/// With a match, some rewritten line is one of the two pin spellings.
proof fn lemma_patch_lines_pin(lines: Seq<Seq<char>>, dep: Seq<char>, ver: Seq<char>, st: PatchState)
    requires
        any_match(lines, dep, st),
    ensures
        exists|i: int|
            0 <= i < patch_lines(lines, dep, ver, st).len() && (#[trigger] patch_lines(
                lines,
                dep,
                ver,
                st,
            )[i] == pin_inline(dep, ver) || patch_lines(lines, dep, ver, st)[i] == pin_version(
                ver,
            )),
    decreases lines.len(),
{
    let whole = patch_lines(lines, dep, ver, st);
    if line_matched(lines[0], dep, st) {
        assert(whole[0] == patched_line(lines[0], dep, ver, st));
        assert(whole[0] == pin_inline(dep, ver) || whole[0] == pin_version(ver));
    } else {
        let st1 = next_state(lines[0], dep, st);
        lemma_patch_lines_pin(lines.drop_first(), dep, ver, st1);
        let rest = patch_lines(lines.drop_first(), dep, ver, st1);
        let j = choose|j: int|
            0 <= j < rest.len() && (#[trigger] rest[j] == pin_inline(dep, ver) || rest[j]
                == pin_version(ver));
        assert(whole[j + 1] == rest[j]);
    }
}

/// Pin correctness of the manifest patcher: when the manifest has no entry
/// for the dependency, the file is returned unchanged, character for
/// character; when it has one, the rewritten file contains a line that pins
/// the dependency to the exact version, in one of the two recognised
/// spellings.
pub proof fn lemma_patch_pin_correctness(content: Seq<char>, dep: Seq<char>, ver: Seq<char>)
    requires
        patchable_name(dep),
        !ver.contains('\n'),
    ensures
        !spec_patch_found(content, dep) ==> spec_patch(content, dep, ver) == content,
        spec_patch_found(content, dep) ==> (exists|i: int|
            0 <= i < split_lines(spec_patch(content, dep, ver)).len() && (#[trigger] split_lines(
                spec_patch(content, dep, ver),
            )[i] == pin_inline(dep, ver) || split_lines(spec_patch(content, dep, ver))[i]
                == pin_version(ver))),
{
    let ls = split_lines(content);
    let pls = patch_lines(ls, dep, ver, initial_state());
    if !spec_patch_found(content, dep) {
        lemma_patch_lines_id(ls, dep, ver, initial_state());
        lemma_join_split(content);
    } else {
        lemma_split_lines_no_newline(content);
        lemma_patch_lines_no_newline(ls, dep, ver, initial_state());
        lemma_patch_lines_len(ls, dep, ver, initial_state());
        lemma_split_lines_nonempty(content);
        lemma_split_join(pls);
        lemma_patch_lines_pin(ls, dep, ver, initial_state());
        let j = choose|j: int|
            0 <= j < pls.len() && (#[trigger] pls[j] == pin_inline(dep, ver) || pls[j]
                == pin_version(ver));
        assert(split_lines(spec_patch(content, dep, ver)) == pls);
        assert(split_lines(spec_patch(content, dep, ver))[j] == pls[j]);
    }
}

/// Idempotence of the manifest patcher: applying the same patch twice
/// yields the same file as applying it once, character for character.
pub proof fn lemma_patch_idempotent(content: Seq<char>, dep: Seq<char>, ver: Seq<char>)
    requires
        patchable_name(dep),
        !ver.contains('\n'),
    ensures
        spec_patch(spec_patch(content, dep, ver), dep, ver) == spec_patch(content, dep, ver),
{
    let ls = split_lines(content);
    let pls = patch_lines(ls, dep, ver, initial_state());
    lemma_split_lines_no_newline(content);
    lemma_patch_lines_no_newline(ls, dep, ver, initial_state());
    lemma_patch_lines_len(ls, dep, ver, initial_state());
    lemma_split_lines_nonempty(content);
    lemma_split_join(pls);
    lemma_patch_lines_idem(ls, dep, ver, initial_state());
}

/// What the patch operation on a dependent's manifest decides: `write`
/// holds the new file contents when the file must be rewritten, and
/// `prior` holds the prior contents exactly when the manifest has an entry
/// for the parent; when it has none, nothing is written and `prior` is
/// `None`.
pub struct PatchPlan {
    pub write: Option<String>,
    pub prior: Option<String>,
}

/// Decide what patching a dependent's manifest must do.  The driver writes
/// `write` back to the file when it is present; `prior` is handed to the
/// caller for optional later restoration.
pub fn plan_manifest_patch(manifest: &str, parent_name: &str, parent_version: &str) -> (r:
    PatchPlan)
    ensures
        r.prior is Some <==> spec_patch_found(manifest@, parent_name@),
        r.prior matches Some(p) ==> p@ == manifest@,
        r.write is Some <==> (spec_patch_found(manifest@, parent_name@) && spec_patch(
            manifest@,
            parent_name@,
            parent_version@,
        ) != manifest@),
        r.write matches Some(w) ==> w@ == spec_patch(manifest@, parent_name@, parent_version@),
{
    let out = patch_dependency_version_in_toml(manifest, parent_name, parent_version);
    if !out.found {
        PatchPlan { write: None, prior: None }
    } else if str_eq(out.content.as_str(), manifest) {
        PatchPlan { write: None, prior: Some(manifest.to_owned()) }
    } else {
        PatchPlan { write: Some(out.content), prior: Some(manifest.to_owned()) }
    }
}

} // verus!
