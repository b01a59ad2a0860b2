//! What the traversal engine computes from registry answers: the reverse
//! dependency record, the requirement filter that restricts propagation to
//! the exact release under analysis, and the seeding of the first frontier
//! from the published versions of the seed package.

use vstd::prelude::*;

use crate::krate::Krate;
use crate::text::str_eq;
use crate::text::views_of;
use crate::version_req::req_matches_version;
use crate::version_req::spec_matches;
use crate::version_req::ver_wf;
use crate::version_req::vreq_wf;

verus! {

/// One row of the registry's reverse-dependency query: a package-version
/// that declares a dependency on the analysed package, and the version
/// requirement it declares.
#[derive(Debug)]
pub struct ReverseDependency {
    pub name: String,
    pub version: String,
    pub req: String,
}

/// The declared requirement of the record admits the exact version `ver`.
pub open spec fn dep_admits(d: ReverseDependency, ver: Seq<char>) -> bool {
    vreq_wf(d.req@) && ver_wf(ver) && spec_matches(d.req@, ver)
}

/// The records whose declared requirement admits `ver`, in order.
pub open spec fn spec_filter_dependents(ds: Seq<ReverseDependency>, ver: Seq<char>) -> Seq<
    ReverseDependency,
>
    decreases ds.len(),
{
    if ds.len() == 0 {
        Seq::empty()
    } else {
        let prev = spec_filter_dependents(ds.drop_last(), ver);
        if dep_admits(ds.last(), ver) {
            prev.push(ds.last())
        } else {
            prev
        }
    }
}

/// Requirement filtering keeps exactly the admitting records: every kept
/// record admits the version and comes from the input, and every admitting
/// input record is kept.
pub proof fn lemma_filter_dependents_exact(ds: Seq<ReverseDependency>, ver: Seq<char>)
    ensures
        forall|i: int|
            0 <= i < spec_filter_dependents(ds, ver).len() ==> (dep_admits(
                #[trigger] spec_filter_dependents(ds, ver)[i],
                ver,
            ) && ds.contains(spec_filter_dependents(ds, ver)[i])),
        forall|i: int|
            0 <= i < ds.len() && dep_admits(#[trigger] ds[i], ver) ==> spec_filter_dependents(
                ds,
                ver,
            ).contains(ds[i]),
    decreases ds.len(),
{
    if ds.len() == 0 {
    } else {
        lemma_filter_dependents_exact(ds.drop_last(), ver);
        let prev = spec_filter_dependents(ds.drop_last(), ver);
        let whole = spec_filter_dependents(ds, ver);
        assert(forall|i: int| 0 <= i < ds.len() - 1 ==> #[trigger] ds[i] == ds.drop_last()[i]);
        assert forall|i: int| 0 <= i < whole.len() implies (dep_admits(#[trigger] whole[i], ver)
            && ds.contains(whole[i])) by {
            if i < prev.len() {
                assert(whole[i] == prev[i]);
                let w = choose|t: int| 0 <= t < ds.drop_last().len() && ds.drop_last()[t] == prev[i];
                assert(ds[w] == whole[i]);
            } else {
                assert(whole[i] == ds.last());
                assert(ds[ds.len() - 1] == ds.last());
            }
        }
        assert forall|i: int| 0 <= i < ds.len() && dep_admits(#[trigger] ds[i], ver) implies whole
            .contains(ds[i]) by {
            if i < ds.len() - 1 {
                assert(ds.drop_last()[i] == ds[i]);
                assert(prev.contains(ds[i]));
                let w = choose|t: int| 0 <= t < prev.len() && prev[t] == ds[i];
                assert(whole[w] == ds[i]);
            } else {
                assert(whole[whole.len() - 1] == ds.last());
            }
        }
    }
}

/// Keep exactly the reverse dependents whose declared requirement admits
/// the exact version under analysis.  A record whose requirement fails to
/// parse, or an analysed version that is not an exact semantic version,
/// drops the record.
pub fn filter_dependents_by_version_req(
    dependents: Vec<ReverseDependency>,
    precise_version: &str,
) -> (r: Vec<ReverseDependency>)
    ensures
        r@ == spec_filter_dependents(dependents@, precise_version@),
{
    let mut out: Vec<ReverseDependency> = Vec::new();
    let mut i: usize = 0;
    proof {
        assert(dependents@.take(0) =~= Seq::<ReverseDependency>::empty());
        assert(out@ =~= spec_filter_dependents(dependents@.take(0), precise_version@));
    }
    while i < dependents.len()
        invariant
            0 <= i <= dependents@.len(),
            out@ == spec_filter_dependents(dependents@.take(i as int), precise_version@),
        decreases dependents@.len() - i,
    {
        let d = &dependents[i];
        let keep = req_matches_version(d.req.as_str(), precise_version);
        proof {
            assert(keep == dep_admits(dependents@[i as int], precise_version@));
        }
        if keep {
            out.push(
                ReverseDependency {
                    name: d.name.clone(),
                    version: d.version.clone(),
                    req: d.req.clone(),
                },
            );
            proof {
                assert(out@.last() == dependents@[i as int]);
            }
        }
        proof {
            let prefix = dependents@.take(i as int);
            let next = dependents@.take(i + 1);
            assert(next.drop_last() =~= prefix);
            assert(next.last() == dependents@[i as int]);
            assert(out@ =~= spec_filter_dependents(next, precise_version@));
        }
        i = i + 1;
    }
    proof {
        assert(dependents@.take(dependents@.len() as int) =~= dependents@);
    }
    out
}

/// The version strings of a sequence of packages.
pub open spec fn versions_of(ks: Seq<Krate>) -> Seq<Seq<char>> {
    ks.map_values(|k: Krate| k.spec_version())
}

/// The versions that seed the first frontier: those published versions
/// that the range admits, first occurrence of each, in order.
pub open spec fn spec_seed_versions(vs: Seq<Seq<char>>, range: Seq<char>) -> Seq<Seq<char>>
    decreases vs.len(),
{
    if vs.len() == 0 {
        Seq::empty()
    } else {
        let prev = spec_seed_versions(vs.drop_last(), range);
        let v = vs.last();
        if vreq_wf(range) && ver_wf(v) && spec_matches(range, v) && !prev.contains(v) {
            prev.push(v)
        } else {
            prev
        }
    }
}

/// The versions picked for the frontier are admitted by the range, occur
/// among the published versions, and are free of duplicates.
pub proof fn lemma_seed_versions_sound(vs: Seq<Seq<char>>, range: Seq<char>)
    ensures
        forall|i: int|
            0 <= i < spec_seed_versions(vs, range).len() ==> (vreq_wf(range) && ver_wf(
                #[trigger] spec_seed_versions(vs, range)[i],
            ) && spec_matches(range, spec_seed_versions(vs, range)[i]) && vs.contains(
                spec_seed_versions(vs, range)[i],
            )),
        forall|i: int, j: int|
            0 <= i < j < spec_seed_versions(vs, range).len() ==> #[trigger] spec_seed_versions(
                vs,
                range,
            )[i] != #[trigger] spec_seed_versions(vs, range)[j],
    decreases vs.len(),
{
    if vs.len() == 0 {
    } else {
        lemma_seed_versions_sound(vs.drop_last(), range);
        let prev = spec_seed_versions(vs.drop_last(), range);
        let whole = spec_seed_versions(vs, range);
        assert(forall|i: int|
            0 <= i < vs.len() - 1 ==> #[trigger] vs.drop_last()[i] == vs[i]);
        assert forall|i: int| 0 <= i < whole.len() implies (vreq_wf(range) && ver_wf(
            #[trigger] whole[i],
        ) && spec_matches(range, whole[i]) && vs.contains(whole[i])) by {
            if i < prev.len() {
                assert(whole[i] == prev[i]);
                let w = choose|t: int|
                    0 <= t < vs.drop_last().len() && vs.drop_last()[t] == prev[i];
                assert(vs[w] == whole[i]);
            } else {
                assert(whole[i] == vs.last());
                assert(vs[vs.len() - 1] == vs.last());
            }
        }
        if whole.len() == prev.len() + 1 {
            assert forall|i: int, j: int| 0 <= i < j < whole.len() implies #[trigger] whole[i]
                != #[trigger] whole[j] by {
                if j == prev.len() {
                    assert(!prev.contains(whole[j]));
                    assert(whole[i] == prev[i]);
                    if whole[i] == whole[j] {
                        assert(prev.contains(whole[j]));
                    }
                }
            }
        }
    }
}

/// Build the seed frontier for a traversal: one node `(seed_name, v)` for
/// each published version `v` that the range admits, duplicates collapsed
/// to their first occurrence.  An ill-formed range admits nothing, so the
/// frontier is then empty.
pub fn seed_frontier(seed_name: &str, versions: &Vec<String>, range: &str) -> (r: Vec<Krate>)
    ensures
        versions_of(r@) == spec_seed_versions(views_of(versions@), range@),
        forall|i: int|
            0 <= i < r@.len() ==> (#[trigger] r@[i].spec_name() == seed_name@
                && r@[i].spec_dependents() == Seq::<Krate>::empty()),
{
    let ghost all = views_of(versions@);
    let mut out: Vec<Krate> = Vec::new();
    let mut seen: Vec<String> = Vec::new();
    let mut i: usize = 0;
    proof {
        assert(all.take(0) =~= Seq::<Seq<char>>::empty());
        assert(versions_of(out@) =~= spec_seed_versions(all.take(0), range@));
        assert(views_of(seen@) =~= spec_seed_versions(all.take(0), range@));
    }
    while i < versions.len()
        invariant
            0 <= i <= versions@.len(),
            all == views_of(versions@),
            versions_of(out@) == spec_seed_versions(all.take(i as int), range@),
            views_of(seen@) == spec_seed_versions(all.take(i as int), range@),
            forall|t: int|
                0 <= t < out@.len() ==> (#[trigger] out@[t].spec_name() == seed_name@
                    && out@[t].spec_dependents() == Seq::<Krate>::empty()),
        decreases versions@.len() - i,
    {
        let v = &versions[i];
        let admitted = req_matches_version(range, v.as_str());
        let mut fresh = true;
        let mut j: usize = 0;
        while j < seen.len() && fresh
            invariant
                0 <= j <= seen@.len(),
                fresh ==> (forall|t: int| 0 <= t < j ==> seen@[t]@ != v@),
                !fresh ==> (exists|t: int| 0 <= t < seen@.len() && #[trigger] seen@[t]@ == v@),
            decreases seen@.len() - j + (if fresh { 1int } else { 0int }),
        {
            if str_eq(seen[j].as_str(), v.as_str()) {
                fresh = false;
            } else {
                j = j + 1;
            }
        }
        proof {
            if fresh {
                assert(forall|t: int|
                    0 <= t < views_of(seen@).len() ==> #[trigger] views_of(seen@)[t] != v@);
                assert(!views_of(seen@).contains(v@));
            } else {
                let t = choose|t: int| 0 <= t < seen@.len() && #[trigger] seen@[t]@ == v@;
                assert(views_of(seen@)[t] == v@);
                assert(views_of(seen@).contains(v@));
            }
        }
        if admitted && fresh {
            out.push(Krate::new(seed_name.to_owned(), v.clone()));
            seen.push(v.clone());
        }
        proof {
            let prefix = all.take(i as int);
            let next = all.take(i + 1);
            assert(next.drop_last() =~= prefix);
            assert(next.last() == all[i as int]);
            assert(all[i as int] == v@);
            assert(versions_of(out@) =~= spec_seed_versions(next, range@));
            assert(views_of(seen@) =~= spec_seed_versions(next, range@));
        }
        i = i + 1;
    }
    proof {
        assert(all.take(versions@.len() as int) =~= all);
    }
    out
}

} // verus!
