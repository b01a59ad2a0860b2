//! The level-synchronous traversal engine: the queue of frontier nodes,
//! the monotonic visited set, the merge that deduplicates each level's
//! contributions, and the per-dependent pipeline that decides patching,
//! analysis, emission and enqueueing.
//!
//! Ownership of the queue and the visited set stays with the engine's
//! serial control path: workers return their contributions by value and
//! `push_results` merges them between levels, so nodes of one level never
//! observe each other's effects.

use vstd::prelude::*;

use crate::analysis::CallReport;
use crate::krate::Krate;
use crate::krate::VisitedCrateVersion;
use crate::registry::ReverseDependency;

verus! {

/// How many frontier nodes may be under analysis at once.
pub const MAX_CONCURRENT_TASKS: usize = 6;

/// How many reverse dependents are analysed per batch of one node.
pub const BATCH_SIZE: usize = 100;

/// How many times the manifest patch of one dependent is attempted.
pub const PATCH_ATTEMPTS: u8 = 2;

/// The per-attempt timeout of one manifest patch, in seconds.
pub const PATCH_TIMEOUT_SECS: u64 = 60;

/// The mathematical identity of a package version: its name and version
/// strings.
pub type PkgKey = (Seq<char>, Seq<char>);

/// The identities of a sequence of packages.
pub open spec fn krate_keys(s: Seq<Krate>) -> Seq<PkgKey> {
    s.map_values(|k: Krate| k.key())
}

/// The identities of a sequence of visited records.
pub open spec fn id_keys(s: Seq<VisitedCrateVersion>) -> Seq<PkgKey> {
    s.map_values(|v: VisitedCrateVersion| v.key())
}

/// No identity appears twice.
pub open spec fn unique_keys(s: Seq<PkgKey>) -> bool {
    forall|i: int, j: int| 0 <= i < j < s.len() ==> #[trigger] s[i] != #[trigger] s[j]
}

/// No identity appears in both sequences.
pub open spec fn disjoint_keys(a: Seq<PkgKey>, b: Seq<PkgKey>) -> bool {
    forall|k: PkgKey| #[trigger] a.contains(k) ==> !b.contains(k)
}

/// Every identity of `a` appears among the visited or the root
/// identities.
pub open spec fn keys_within(a: Seq<PkgKey>, visited: Seq<PkgKey>, roots: Seq<PkgKey>) -> bool {
    forall|k: PkgKey| #[trigger] a.contains(k) ==> (visited.contains(k) || roots.contains(k))
}

/// Which nodes of a level's contribution are admitted to the next level:
/// those whose identity is not yet visited, is not a root, and has not
/// already been admitted earlier in the same batch.  First occurrences
/// win; order is kept.
pub open spec fn spec_admit(visited: Seq<PkgKey>, roots: Seq<PkgKey>, batch: Seq<Krate>) -> Seq<
    Krate,
>
    decreases batch.len(),
{
    if batch.len() == 0 {
        Seq::empty()
    } else {
        let b = batch.first();
        let rest = batch.drop_first();
        if visited.contains(b.key()) || roots.contains(b.key()) {
            spec_admit(visited, roots, rest)
        } else {
            seq![b] + spec_admit(visited.push(b.key()), roots, rest)
        }
    }
}

/// Which identities the merge admits: exactly the batch identities that
/// are neither visited nor roots, each once.
pub proof fn lemma_admit_keys(visited: Seq<PkgKey>, roots: Seq<PkgKey>, batch: Seq<Krate>)
    ensures
        forall|k: PkgKey|
            #[trigger] krate_keys(spec_admit(visited, roots, batch)).contains(k) <==> (krate_keys(
                batch,
            ).contains(k) && !visited.contains(k) && !roots.contains(k)),
    decreases batch.len(),
{
    if batch.len() == 0 {
        assert forall|k: PkgKey| !krate_keys(spec_admit(visited, roots, batch)).contains(k) by {
            assert(krate_keys(spec_admit(visited, roots, batch)).len() == 0);
        }
        assert forall|k: PkgKey| !krate_keys(batch).contains(k) by {
            assert(krate_keys(batch).len() == 0);
        }
    } else {
        let b = batch.first();
        let rest = batch.drop_first();
        let whole = spec_admit(visited, roots, batch);
        assert(krate_keys(batch)[0] == b.key());
        assert(krate_keys(batch).contains(b.key()));
        assert forall|k: PkgKey| #[trigger] krate_keys(batch).contains(k) implies (k == b.key()
            || krate_keys(rest).contains(k)) by {
            let t = choose|t: int| 0 <= t < krate_keys(batch).len() && krate_keys(batch)[t] == k;
            if t > 0 {
                assert(rest[t - 1] == batch[t]);
                assert(krate_keys(rest)[t - 1] == k);
            }
        }
        assert forall|k: PkgKey| #[trigger] krate_keys(rest).contains(k) implies krate_keys(
            batch,
        ).contains(k) by {
            let t = choose|t: int| 0 <= t < krate_keys(rest).len() && krate_keys(rest)[t] == k;
            assert(rest[t] == batch[t + 1]);
            assert(krate_keys(batch)[t + 1] == k);
        }
        if visited.contains(b.key()) || roots.contains(b.key()) {
            assert(whole == spec_admit(visited, roots, rest));
            lemma_admit_keys(visited, roots, rest);
            assert forall|k: PkgKey| #[trigger] krate_keys(whole).contains(k) <==> (krate_keys(
                batch,
            ).contains(k) && !visited.contains(k) && !roots.contains(k)) by {
                if k == b.key() {
                } else {
                    assert(krate_keys(batch).contains(k) <==> krate_keys(rest).contains(k));
                }
            }
        } else {
            let sub = spec_admit(visited.push(b.key()), roots, rest);
            assert(whole == seq![b] + sub);
            lemma_admit_keys(visited.push(b.key()), roots, rest);
            assert(whole[0] == b);
            assert(krate_keys(whole)[0] == b.key());
            assert(krate_keys(whole).contains(b.key()));
            assert forall|k: PkgKey| #[trigger] krate_keys(whole).contains(k) implies (k
                == b.key() || krate_keys(sub).contains(k)) by {
                let t = choose|t: int|
                    0 <= t < krate_keys(whole).len() && krate_keys(whole)[t] == k;
                if t > 0 {
                    assert(sub[t - 1] == whole[t]);
                    assert(krate_keys(sub)[t - 1] == k);
                }
            }
            assert forall|k: PkgKey| #[trigger] krate_keys(sub).contains(k) implies krate_keys(
                whole,
            ).contains(k) by {
                let t = choose|t: int| 0 <= t < krate_keys(sub).len() && krate_keys(sub)[t] == k;
                assert(sub[t] == whole[t + 1]);
                assert(krate_keys(whole)[t + 1] == k);
            }
            let pushed = visited.push(b.key());
            assert(pushed[visited.len() as int] == b.key());
            assert(pushed.contains(b.key()));
            assert forall|k: PkgKey| #[trigger] pushed.contains(k) implies (visited.contains(k)
                || k == b.key()) by {
                let t = choose|t: int| 0 <= t < pushed.len() && pushed[t] == k;
                if t < visited.len() {
                    assert(visited[t] == k);
                }
            }
            assert forall|k: PkgKey| #[trigger] visited.contains(k) implies pushed.contains(k) by {
                let t = choose|t: int| 0 <= t < visited.len() && visited[t] == k;
                assert(pushed[t] == k);
            }
            assert forall|k: PkgKey| #[trigger] krate_keys(whole).contains(k) <==> (krate_keys(
                batch,
            ).contains(k) && !visited.contains(k) && !roots.contains(k)) by {
                if k == b.key() {
                } else {
                    assert(krate_keys(whole).contains(k) <==> krate_keys(sub).contains(k));
                    assert(krate_keys(batch).contains(k) <==> krate_keys(rest).contains(k));
                    assert(pushed.contains(k) <==> visited.contains(k));
                }
            }
        }
    }
}

/// Determinism of the merge at set level: two contributions that name the
/// same identities are admitted as the same identities, whatever order
/// the unordered per-level workers delivered them in.
pub proof fn lemma_merge_order_insensitive(
    visited: Seq<PkgKey>,
    roots: Seq<PkgKey>,
    b1: Seq<Krate>,
    b2: Seq<Krate>,
)
    requires
        forall|k: PkgKey| #[trigger] krate_keys(b1).contains(k) <==> krate_keys(b2).contains(k),
    ensures
        forall|k: PkgKey|
            #[trigger] krate_keys(spec_admit(visited, roots, b1)).contains(k) <==> krate_keys(
                spec_admit(visited, roots, b2),
            ).contains(k),
{
    lemma_admit_keys(visited, roots, b1);
    lemma_admit_keys(visited, roots, b2);
}

/// Whether a list of visited records holds the identity of `id`.
fn contains_id(v: &Vec<VisitedCrateVersion>, id: &VisitedCrateVersion) -> (r: bool)
    ensures
        r == id_keys(v@).contains(id.key()),
{
    let mut i: usize = 0;
    while i < v.len()
        invariant
            0 <= i <= v@.len(),
            forall|j: int| 0 <= j < i ==> #[trigger] id_keys(v@)[j] != id.key(),
        decreases v@.len() - i,
    {
        if v[i] == *id {
            proof {
                assert(id_keys(v@)[i as int] == id.key());
            }
            return true;
        }
        i = i + 1;
    }
    proof {
        if id_keys(v@).contains(id.key()) {
            let t = choose|t: int| 0 <= t < id_keys(v@).len() && id_keys(v@)[t] == id.key();
            assert(id_keys(v@)[t] != id.key());
        }
    }
    false
}

/// The engine of the level-synchronous traversal.  `queue` holds the
/// nodes of the current and coming levels; `visited` the identities of
/// every dependent ever admitted, never removed; `roots` the identities
/// of the seed nodes, which are starting points only and are never
/// re-enqueued; `processed` the identities of every node handed out for
/// processing, in order.
pub struct Traversal {
    queue: Vec<Krate>,
    visited: Vec<VisitedCrateVersion>,
    roots: Vec<VisitedCrateVersion>,
    processed: Vec<VisitedCrateVersion>,
    level: usize,
}

impl Traversal {
    pub closed spec fn spec_queue(&self) -> Seq<Krate> {
        self.queue@
    }

    pub closed spec fn spec_visited(&self) -> Seq<VisitedCrateVersion> {
        self.visited@
    }

    pub closed spec fn spec_roots(&self) -> Seq<VisitedCrateVersion> {
        self.roots@
    }

    pub closed spec fn spec_processed(&self) -> Seq<VisitedCrateVersion> {
        self.processed@
    }

    pub closed spec fn spec_level(&self) -> int {
        self.level as int
    }

    /// The engine's invariant: identities are unique in each record, the
    /// queue never holds a node already handed out, every queued or
    /// processed identity was admitted through the visited set or is a
    /// root, and no root is ever entered into the visited set.
    pub open spec fn inv(&self) -> bool {
        &&& unique_keys(id_keys(self.spec_visited()))
        &&& unique_keys(krate_keys(self.spec_queue()))
        &&& unique_keys(id_keys(self.spec_processed()))
        &&& unique_keys(id_keys(self.spec_roots()))
        &&& disjoint_keys(krate_keys(self.spec_queue()), id_keys(self.spec_processed()))
        &&& disjoint_keys(id_keys(self.spec_visited()), id_keys(self.spec_roots()))
        &&& keys_within(
            krate_keys(self.spec_queue()),
            id_keys(self.spec_visited()),
            id_keys(self.spec_roots()),
        )
        &&& keys_within(
            id_keys(self.spec_processed()),
            id_keys(self.spec_visited()),
            id_keys(self.spec_roots()),
        )
    }

    /// Seed the engine.  Seeds are deduplicated by identity; each one
    /// becomes a root, to be queried for dependents but never re-entered
    /// into the traversal.
    pub fn new(seeds: Vec<Krate>) -> (r: Self)
        ensures
            r.inv(),
            r.spec_queue() == spec_admit(
                Seq::<PkgKey>::empty(),
                Seq::<PkgKey>::empty(),
                seeds@,
            ),
            id_keys(r.spec_roots()) == krate_keys(r.spec_queue()),
            r.spec_visited() == Seq::<VisitedCrateVersion>::empty(),
            r.spec_processed() == Seq::<VisitedCrateVersion>::empty(),
            r.spec_level() == 0,
    {
        let ghost seeds0 = seeds@;
        let mut remaining = seeds;
        let mut queue: Vec<Krate> = Vec::new();
        let mut roots: Vec<VisitedCrateVersion> = Vec::new();
        proof {
            assert(id_keys(roots@) =~= Seq::<PkgKey>::empty());
            assert(krate_keys(queue@) =~= Seq::<PkgKey>::empty());
            assert(remaining@ == seeds0);
            assert(queue@ + spec_admit(id_keys(roots@), Seq::<PkgKey>::empty(), remaining@)
                =~= spec_admit(Seq::<PkgKey>::empty(), Seq::<PkgKey>::empty(), seeds0));
        }
        while remaining.len() > 0
            invariant
                queue@ + spec_admit(id_keys(roots@), Seq::<PkgKey>::empty(), remaining@)
                    == spec_admit(Seq::<PkgKey>::empty(), Seq::<PkgKey>::empty(), seeds0),
                id_keys(roots@) == krate_keys(queue@),
                unique_keys(id_keys(roots@)),
            decreases remaining@.len(),
        {
            let ghost rem0 = remaining@;
            let b = remaining.remove(0);
            proof {
                assert(rem0.first() == b);
                assert(remaining@ =~= rem0.drop_first());
            }
            let vid = b.visited_id();
            if !contains_id(&roots, &vid) {
                let ghost oldq = queue@;
                let ghost oldr = roots@;
                queue.push(b);
                roots.push(vid);
                proof {
                    assert(id_keys(roots@) =~= id_keys(oldr).push(vid.key()));
                    assert(krate_keys(queue@) =~= krate_keys(oldq).push(rem0.first().key()));
                    assert(spec_admit(id_keys(oldr), Seq::<PkgKey>::empty(), rem0) =~= seq![
                        rem0.first(),
                    ] + spec_admit(id_keys(oldr).push(rem0.first().key()), Seq::<PkgKey>::empty(),
                    rem0.drop_first()));
                    assert(queue@ + spec_admit(id_keys(roots@), Seq::<PkgKey>::empty(), remaining@)
                        =~= spec_admit(Seq::<PkgKey>::empty(), Seq::<PkgKey>::empty(), seeds0));
                    assert forall|i: int, j: int|
                        0 <= i < j < id_keys(roots@).len() implies #[trigger] id_keys(roots@)[i]
                        != #[trigger] id_keys(roots@)[j] by {
                        if j < id_keys(oldr).len() {
                        } else {
                            assert(id_keys(roots@)[j] == vid.key());
                            assert(id_keys(roots@)[i] == id_keys(oldr)[i]);
                            assert(id_keys(oldr).contains(id_keys(oldr)[i]));
                        }
                    }
                }
            } else {
                proof {
                    assert(spec_admit(id_keys(roots@), Seq::<PkgKey>::empty(), rem0)
                        == spec_admit(id_keys(roots@), Seq::<PkgKey>::empty(), rem0.drop_first()));
                }
            }
        }
        proof {
            assert(remaining@ =~= Seq::<Krate>::empty());
            assert(spec_admit(id_keys(roots@), Seq::<PkgKey>::empty(), remaining@)
                =~= Seq::<Krate>::empty());
            assert(queue@ =~= spec_admit(Seq::<PkgKey>::empty(), Seq::<PkgKey>::empty(), seeds0));
        }
        let r = Traversal { queue, visited: Vec::new(), roots, processed: Vec::new(), level: 0 };
        proof {
            assert(r.spec_visited() =~= Seq::<VisitedCrateVersion>::empty());
            assert(r.spec_processed() =~= Seq::<VisitedCrateVersion>::empty());
            assert(id_keys(r.spec_visited()) =~= Seq::<PkgKey>::empty());
            assert(id_keys(r.spec_processed()) =~= Seq::<PkgKey>::empty());
        }
        r
    }

    /// Whether the traversal is over: no node awaits processing.
    pub fn is_done(&self) -> (r: bool)
        ensures
            r == (self.spec_queue().len() == 0),
    {
        self.queue.len() == 0
    }

    /// The identities of every dependent admitted so far, in admission
    /// order.
    pub fn visited_ids(&self) -> (r: &Vec<VisitedCrateVersion>)
        ensures
            r@ == self.spec_visited(),
    {
        &self.visited
    }

    /// The identities of every node handed out for processing, in order.
    pub fn processed_ids(&self) -> (r: &Vec<VisitedCrateVersion>)
        ensures
            r@ == self.spec_processed(),
    {
        &self.processed
    }

    /// How many levels have been drained.
    pub fn level(&self) -> (r: usize)
        ensures
            r as int == self.spec_level(),
    {
        self.level
    }

    /// Drain the whole frontier: the returned nodes form the current
    /// level, the queue is left empty, and the visited set is untouched.
    /// Nodes of one level are processed against this snapshot alone.
    pub fn pop_level(&mut self) -> (r: Vec<Krate>)
        requires
            old(self).inv(),
            old(self).spec_level() < usize::MAX,
        ensures
            final(self).inv(),
            r@ == old(self).spec_queue(),
            final(self).spec_queue() == Seq::<Krate>::empty(),
            final(self).spec_visited() == old(self).spec_visited(),
            final(self).spec_roots() == old(self).spec_roots(),
            id_keys(final(self).spec_processed()) == id_keys(old(self).spec_processed())
                + krate_keys(old(self).spec_queue()),
            final(self).spec_level() == old(self).spec_level() + 1,
    {
        let mut popped: Vec<Krate> = Vec::new();
        core::mem::swap(&mut popped, &mut self.queue);
        let ghost oldp = self.processed@;
        let ghost pk = krate_keys(popped@);
        let mut i: usize = 0;
        proof {
            assert(self.queue@ =~= Seq::<Krate>::empty());
            assert(oldp == old(self).spec_processed());
            assert(id_keys(oldp) + pk.take(0) =~= id_keys(oldp));
        }
        while i < popped.len()
            invariant
                0 <= i <= popped@.len(),
                old(self).inv(),
                popped@ == old(self).spec_queue(),
                pk == krate_keys(popped@),
                oldp == old(self).spec_processed(),
                self.queue@ == Seq::<Krate>::empty(),
                self.visited@ == old(self).spec_visited(),
                self.roots@ == old(self).spec_roots(),
                self.level == old(self).level,
                id_keys(self.processed@) == id_keys(oldp) + pk.take(i as int),
            decreases popped@.len() - i,
        {
            let vid = popped[i].visited_id();
            self.processed.push(vid);
            proof {
                assert(id_keys(self.processed@) =~= (id_keys(oldp) + pk.take(i as int)).push(
                    popped@[i as int].key(),
                ));
                assert(pk.take(i + 1) =~= pk.take(i as int).push(pk[i as int]));
                assert(id_keys(self.processed@) =~= id_keys(oldp) + pk.take(i + 1));
            }
            i = i + 1;
        }
        self.level = self.level + 1;
        proof {
            assert(pk.take(popped@.len() as int) =~= pk);
            let newp = id_keys(self.processed@);
            let oldpk = id_keys(oldp);
            assert(newp == oldpk + pk);
            assert forall|a: int, b: int| 0 <= a < b < newp.len() implies #[trigger] newp[a]
                != #[trigger] newp[b] by {
                if b < oldpk.len() {
                } else if a >= oldpk.len() {
                    assert(newp[a] == pk[a - oldpk.len()]);
                    assert(newp[b] == pk[b - oldpk.len()]);
                } else {
                    assert(newp[a] == oldpk[a]);
                    assert(newp[b] == pk[b - oldpk.len()]);
                    assert(pk.contains(pk[b - oldpk.len()]));
                    assert(oldpk.contains(oldpk[a]));
                }
            }
            assert forall|k: PkgKey| #[trigger] newp.contains(k) implies (id_keys(
                self.spec_visited(),
            ).contains(k) || id_keys(self.spec_roots()).contains(k)) by {
                let t = choose|t: int| 0 <= t < newp.len() && newp[t] == k;
                if t < oldpk.len() {
                    assert(oldpk[t] == k);
                    assert(oldpk.contains(k));
                } else {
                    assert(pk[t - oldpk.len()] == k);
                    assert(pk.contains(k));
                }
            }
            assert(krate_keys(self.spec_queue()) =~= Seq::<PkgKey>::empty());
            assert forall|k: PkgKey|
                #[trigger] krate_keys(self.spec_queue()).contains(k) implies !newp.contains(k) by {
                assert(krate_keys(self.spec_queue()).len() == 0);
            }
        }
        popped
    }

    /// Merge one level's contributions: every contributed node whose
    /// identity is new — not yet visited and not a root — is entered into
    /// the visited set and enqueued for the next level, first occurrence
    /// first.  The visited set only ever grows.
    pub fn push_results(&mut self, batch: Vec<Krate>)
        requires
            old(self).inv(),
        ensures
            final(self).inv(),
            final(self).spec_queue() == old(self).spec_queue() + spec_admit(
                id_keys(old(self).spec_visited()),
                id_keys(old(self).spec_roots()),
                batch@,
            ),
            id_keys(final(self).spec_visited()) == id_keys(old(self).spec_visited()) + krate_keys(
                spec_admit(
                    id_keys(old(self).spec_visited()),
                    id_keys(old(self).spec_roots()),
                    batch@,
                ),
            ),
            id_keys(old(self).spec_visited()).is_prefix_of(id_keys(final(self).spec_visited())),
            final(self).spec_roots() == old(self).spec_roots(),
            final(self).spec_processed() == old(self).spec_processed(),
            final(self).spec_level() == old(self).spec_level(),
    {
        let ghost batch0 = batch@;
        let ghost vk0 = id_keys(self.visited@);
        let ghost rk = id_keys(self.roots@);
        let ghost q0 = self.queue@;
        let mut remaining = batch;
        proof {
            assert(self.queue@ + spec_admit(id_keys(self.visited@), rk, remaining@) =~= q0
                + spec_admit(vk0, rk, batch0));
            assert(id_keys(self.visited@) =~= vk0 + krate_keys(self.queue@.skip(
                q0.len() as int,
            )));
        }
        while remaining.len() > 0
            invariant
                old(self).inv(),
                rk == id_keys(self.roots@),
                self.roots@ == old(self).spec_roots(),
                self.processed@ == old(self).spec_processed(),
                self.level == old(self).level,
                vk0 == id_keys(old(self).spec_visited()),
                q0 == old(self).spec_queue(),
                q0.len() <= self.queue@.len(),
                q0.is_prefix_of(self.queue@),
                self.queue@ + spec_admit(id_keys(self.visited@), rk, remaining@) == q0
                    + spec_admit(vk0, rk, batch0),
                id_keys(self.visited@) == vk0 + krate_keys(self.queue@.skip(q0.len() as int)),
                vk0.is_prefix_of(id_keys(self.visited@)),
                unique_keys(id_keys(self.visited@)),
                unique_keys(krate_keys(self.queue@)),
                disjoint_keys(id_keys(self.visited@), rk),
                disjoint_keys(krate_keys(self.queue@), id_keys(self.processed@)),
                keys_within(
                    krate_keys(self.queue@),
                    id_keys(self.visited@),
                    id_keys(self.roots@),
                ),
            decreases remaining@.len(),
        {
            let ghost rem0 = remaining@;
            let ghost vk = id_keys(self.visited@);
            let ghost qk = krate_keys(self.queue@);
            let b = remaining.remove(0);
            proof {
                assert(rem0.first() == b);
                assert(remaining@ =~= rem0.drop_first());
            }
            let vid = b.visited_id();
            let fresh = !contains_id(&self.visited, &vid) && !contains_id(&self.roots, &vid);
            if fresh {
                let ghost oldq = self.queue@;
                let ghost oldv = self.visited@;
                self.visited.push(vid);
                self.queue.push(b);
                proof {
                    let key = rem0.first().key();
                    assert(id_keys(self.visited@) =~= vk.push(key));
                    assert(krate_keys(self.queue@) =~= qk.push(key));
                    assert(spec_admit(vk, rk, rem0) =~= seq![rem0.first()] + spec_admit(
                        vk.push(key),
                        rk,
                        rem0.drop_first(),
                    ));
                    assert(self.queue@ =~= oldq.push(rem0.first()));
                    assert(self.queue@ + spec_admit(id_keys(self.visited@), rk, remaining@) =~= q0
                        + spec_admit(vk0, rk, batch0));
                    assert(self.queue@.skip(q0.len() as int) =~= oldq.skip(q0.len() as int).push(
                        rem0.first(),
                    ));
                    assert(krate_keys(self.queue@.skip(q0.len() as int)) =~= krate_keys(
                        oldq.skip(q0.len() as int),
                    ).push(key));
                    assert(id_keys(self.visited@) =~= vk0 + krate_keys(self.queue@.skip(
                        q0.len() as int,
                    )));
                    assert(q0.is_prefix_of(self.queue@)) by {
                        assert(forall|t: int|
                            0 <= t < q0.len() ==> #[trigger] self.queue@[t] == oldq[t]);
                        assert(q0 =~= self.queue@.take(q0.len() as int));
                    }
                    assert forall|a: int, c: int|
                        0 <= a < c < id_keys(self.visited@).len() implies #[trigger] id_keys(
                        self.visited@,
                    )[a] != #[trigger] id_keys(self.visited@)[c] by {
                        if c == vk.len() {
                            assert(id_keys(self.visited@)[c] == key);
                            assert(id_keys(self.visited@)[a] == vk[a]);
                            assert(vk.contains(vk[a]));
                        }
                    }
                    assert forall|a: int, c: int|
                        0 <= a < c < krate_keys(self.queue@).len() implies #[trigger] krate_keys(
                        self.queue@,
                    )[a] != #[trigger] krate_keys(self.queue@)[c] by {
                        if c == qk.len() {
                            assert(krate_keys(self.queue@)[c] == key);
                            assert(krate_keys(self.queue@)[a] == qk[a]);
                            assert(qk.contains(qk[a]));
                            assert(vk.contains(qk[a]) || rk.contains(qk[a]));
                            assert(!vk.contains(key));
                            assert(!rk.contains(key));
                        }
                    }
                    assert forall|k: PkgKey|
                        #[trigger] id_keys(self.visited@).contains(k) implies !rk.contains(k) by {
                        let t = choose|t: int|
                            0 <= t < id_keys(self.visited@).len() && id_keys(self.visited@)[t]
                                == k;
                        if t < vk.len() {
                            assert(vk[t] == k);
                            assert(vk.contains(k));
                        } else {
                            assert(k == key);
                        }
                    }
                    assert forall|k: PkgKey|
                        #[trigger] krate_keys(self.queue@).contains(k) implies !id_keys(
                        self.processed@,
                    ).contains(k) by {
                        let t = choose|t: int|
                            0 <= t < krate_keys(self.queue@).len() && krate_keys(self.queue@)[t]
                                == k;
                        if t < qk.len() {
                            assert(qk[t] == k);
                            assert(qk.contains(k));
                        } else {
                            assert(k == key);
                            assert(keys_within(
                                id_keys(old(self).spec_processed()),
                                vk0,
                                id_keys(old(self).spec_roots()),
                            ));
                            if id_keys(self.processed@).contains(k) {
                                assert(vk0.contains(k) || rk.contains(k));
                                assert(vk0.is_prefix_of(vk));
                                if vk0.contains(k) {
                                    let u = choose|u: int|
                                        0 <= u < vk0.len() && vk0[u] == k;
                                    assert(vk[u] == k);
                                    assert(vk.contains(k));
                                }
                            }
                        }
                    }
                    assert forall|k: PkgKey|
                        #[trigger] krate_keys(self.queue@).contains(k) implies (id_keys(
                        self.visited@,
                    ).contains(k) || id_keys(self.roots@).contains(k)) by {
                        let t = choose|t: int|
                            0 <= t < krate_keys(self.queue@).len() && krate_keys(self.queue@)[t]
                                == k;
                        if t < qk.len() {
                            assert(qk[t] == k);
                            assert(qk.contains(k));
                            assert(vk.contains(k) || rk.contains(k));
                            if vk.contains(k) {
                                let u = choose|u: int| 0 <= u < vk.len() && vk[u] == k;
                                assert(id_keys(self.visited@)[u] == k);
                            }
                        } else {
                            assert(k == key);
                            assert(id_keys(self.visited@)[vk.len() as int] == key);
                        }
                    }
                }
            } else {
                proof {
                    assert(spec_admit(vk, rk, rem0) == spec_admit(vk, rk, rem0.drop_first()));
                }
            }
        }
        proof {
            assert(remaining@ =~= Seq::<Krate>::empty());
            assert(spec_admit(id_keys(self.visited@), rk, remaining@) =~= Seq::<Krate>::empty());
            assert(self.queue@ =~= q0 + spec_admit(vk0, rk, batch0));
            assert(self.queue@.skip(q0.len() as int) =~= spec_admit(vk0, rk, batch0));
            assert forall|k: PkgKey|
                #[trigger] id_keys(self.processed@).contains(k) implies (id_keys(
                self.visited@,
            ).contains(k) || id_keys(self.roots@).contains(k)) by {
                assert(keys_within(
                    id_keys(old(self).spec_processed()),
                    vk0,
                    id_keys(old(self).spec_roots()),
                ));
                if vk0.contains(k) {
                    let u = choose|u: int| 0 <= u < vk0.len() && vk0[u] == k;
                    assert(id_keys(self.visited@)[u] == k);
                }
            }
        }
    }
}

/// Monotonicity of the traversal: no package version is ever handed out
/// for processing twice.  Together with the `is_prefix_of` clause of
/// `push_results` — the visited set only ever grows — this is the
/// engine's no-rework guarantee.
pub proof fn lemma_no_package_processed_twice(t: &Traversal)
    requires
        t.inv(),
    ensures
        unique_keys(id_keys(t.spec_processed())),
{
}

/// The views of a sequence of batches.
pub open spec fn batch_views(s: Seq<Vec<ReverseDependency>>) -> Seq<Seq<ReverseDependency>> {
    s.map_values(|v: Vec<ReverseDependency>| v@)
}

/// Partition the filtered dependents of one node into batches of at most
/// `batch_size`, keeping their order: all batches but the last are full,
/// and concatenating the batches gives the input back.
pub fn split_into_batches(items: Vec<ReverseDependency>, batch_size: usize) -> (r: Vec<
    Vec<ReverseDependency>,
>)
    requires
        batch_size > 0,
    ensures
        batch_views(r@).flatten() == items@,
        forall|t: int| 0 <= t < r@.len() ==> 0 < #[trigger] r@[t]@.len() <= batch_size,
        forall|t: int| 0 <= t < r@.len() - 1 ==> #[trigger] r@[t]@.len() == batch_size,
{
    let ghost items0 = items@;
    let mut remaining = items;
    let mut out: Vec<Vec<ReverseDependency>> = Vec::new();
    let mut cur: Vec<ReverseDependency> = Vec::new();
    proof {
        assert(batch_views(out@) =~= Seq::<Seq<ReverseDependency>>::empty());
        assert(batch_views(out@).flatten() =~= Seq::<ReverseDependency>::empty());
        assert(batch_views(out@).flatten() + cur@ + remaining@ =~= items0);
    }
    while remaining.len() > 0
        invariant
            batch_size > 0,
            batch_views(out@).flatten() + cur@ + remaining@ == items0,
            cur@.len() < batch_size,
            forall|t: int| 0 <= t < out@.len() ==> #[trigger] out@[t]@.len() == batch_size,
        decreases remaining@.len(),
    {
        let ghost rem0 = remaining@;
        let x = remaining.remove(0);
        proof {
            assert(rem0.first() == x);
            assert(remaining@ =~= rem0.drop_first());
        }
        let ghost flat = batch_views(out@).flatten();
        cur.push(x);
        proof {
            assert(flat + cur@ + remaining@ =~= items0);
        }
        if cur.len() == batch_size {
            let ghost bv0 = batch_views(out@);
            let full = cur;
            out.push(full);
            cur = Vec::new();
            proof {
                assert(batch_views(out@) =~= bv0.push(out@.last()@));
                assert(batch_views(out@).flatten() =~= bv0.flatten() + out@.last()@) by {
                    bv0.lemma_flatten_push(out@.last()@);
                }
                assert(batch_views(out@).flatten() + cur@ + remaining@ =~= items0);
            }
        }
    }
    if cur.len() > 0 {
        let ghost bv0 = batch_views(out@);
        out.push(cur);
        proof {
            assert(batch_views(out@) =~= bv0.push(out@.last()@));
            assert(batch_views(out@).flatten() =~= bv0.flatten() + out@.last()@) by {
                bv0.lemma_flatten_push(out@.last()@);
            }
            assert(remaining@ =~= Seq::<ReverseDependency>::empty());
            assert(batch_views(out@).flatten() =~= items0);
        }
    } else {
        proof {
            assert(remaining@ =~= Seq::<ReverseDependency>::empty());
            assert(cur@ =~= Seq::<ReverseDependency>::empty());
            assert(batch_views(out@).flatten() =~= items0);
        }
    }
    out
}

/// Where the pipeline of one reverse dependent stands.
#[derive(Debug, Clone, Copy, PartialEq, Eq)]
pub enum DepState {
    /// Materialising the dependent's sources.
    Materialising,
    /// Patching the dependent's manifest to pin the parent; `attempt`
    /// counts the tries already made.
    Patching { attempt: u8 },
    /// Running the call analysis.
    Analysing,
    /// The pipeline has ended.
    Settled,
}

/// Why a dependent was dropped without an analysis verdict.
#[derive(Debug, Clone, Copy, PartialEq, Eq)]
pub enum SkipReason {
    /// Its sources could not be materialised.
    MaterialiseFailed,
    /// Its manifest could not be patched, twice.
    PatchFailed,
}

/// What the driver observed while performing the last action of the
/// dependent pipeline.
#[derive(Debug)]
pub enum DepEvent {
    /// Whether the sources are on disk.
    Materialised(bool),
    /// Whether the manifest patch was written within its timeout.
    Patched(bool),
    /// What the call analysis concluded.
    Analysed(CallReport),
}

/// What the driver must do next for this dependent.
#[derive(Debug)]
pub enum DepAction {
    /// Patch the dependent's manifest, pinning the parent to its exact
    /// version; report `Patched`.
    PatchManifest,
    /// Run the pre-filter and, on a hit, the external tool; report
    /// `Analysed`.
    RunAnalysis,
    /// Drop this dependent; the traversal continues without it.
    Skip(SkipReason),
    /// The dependent calls the target: emit the report under the sink's
    /// canonical name and contribute the dependent to the next level.
    Accept(String),
    /// The dependent does not call the target: contribute nothing.
    Reject,
    /// Nothing further; the pipeline had already ended.
    Stop,
}

/// One step of the dependent pipeline: materialise, then patch with one
/// retry, then analyse; a report of callers is accepted, anything else
/// rejected.
pub open spec fn spec_dep_step(s: DepState, e: DepEvent) -> (DepState, DepAction) {
    match (s, e) {
        (DepState::Materialising, DepEvent::Materialised(true)) => (
            DepState::Patching { attempt: 0 },
            DepAction::PatchManifest,
        ),
        (DepState::Materialising, DepEvent::Materialised(false)) => (
            DepState::Settled,
            DepAction::Skip(SkipReason::MaterialiseFailed),
        ),
        (DepState::Patching { attempt }, DepEvent::Patched(true)) => (
            DepState::Analysing,
            DepAction::RunAnalysis,
        ),
        (DepState::Patching { attempt }, DepEvent::Patched(false)) => if attempt + 1
            < PATCH_ATTEMPTS {
            (DepState::Patching { attempt: (attempt + 1) as u8 }, DepAction::PatchManifest)
        } else {
            (DepState::Settled, DepAction::Skip(SkipReason::PatchFailed))
        },
        (DepState::Analysing, DepEvent::Analysed(report)) => match report {
            CallReport::Calls(text) => (DepState::Settled, DepAction::Accept(text)),
            _ => (DepState::Settled, DepAction::Reject),
        },
        _ => (DepState::Settled, DepAction::Stop),
    }
}

/// The state in which the pipeline of one dependent starts, and the
/// driver's first task: materialise its sources.
pub fn dep_start() -> (r: DepState)
    ensures
        r == DepState::Materialising,
{
    DepState::Materialising
}

/// Advance the pipeline of one dependent by one observation.
pub fn dep_step(s: DepState, e: DepEvent) -> (r: (DepState, DepAction))
    ensures
        r == spec_dep_step(s, e),
{
    match (s, e) {
        (DepState::Materialising, DepEvent::Materialised(true)) => (
            DepState::Patching { attempt: 0 },
            DepAction::PatchManifest,
        ),
        (DepState::Materialising, DepEvent::Materialised(false)) => (
            DepState::Settled,
            DepAction::Skip(SkipReason::MaterialiseFailed),
        ),
        (DepState::Patching { attempt: _ }, DepEvent::Patched(true)) => (
            DepState::Analysing,
            DepAction::RunAnalysis,
        ),
        (DepState::Patching { attempt }, DepEvent::Patched(false)) => {
            if attempt < PATCH_ATTEMPTS - 1 {
                (DepState::Patching { attempt: attempt + 1 }, DepAction::PatchManifest)
            } else {
                (DepState::Settled, DepAction::Skip(SkipReason::PatchFailed))
            }
        },
        (DepState::Analysing, DepEvent::Analysed(report)) => match report {
            CallReport::Calls(text) => (DepState::Settled, DepAction::Accept(text)),
            CallReport::DoesNotCall => (DepState::Settled, DepAction::Reject),
            CallReport::NotApplicable => (DepState::Settled, DepAction::Reject),
            CallReport::ToolFailure(_) => (DepState::Settled, DepAction::Reject),
        },
        _ => (DepState::Settled, DepAction::Stop),
    }
}

/// A dependent reaches its call analysis only through a successful
/// manifest patch: the pipeline enters `Analysing` by no other road, so
/// every analysed dependent was analysed with the parent edge pinned.
pub proof fn lemma_analysis_only_after_patch(s: DepState, e: DepEvent)
    ensures
        spec_dep_step(s, e).0 == DepState::Analysing ==> ((s matches DepState::Patching {
            attempt: _ }) && e == (DepEvent::Patched(true))),
        spec_dep_step(s, e).1 is Accept ==> s == DepState::Analysing,
{
}

/// Result correspondence at the decision point: an analysis verdict leads
/// to `Accept` — one emitted result file and one contribution to the next
/// level — exactly when it found callers, and the accepted text is the
/// report itself.
pub proof fn lemma_accept_iff_calls(r: CallReport)
    ensures
        (spec_dep_step(DepState::Analysing, DepEvent::Analysed(r)).1 is Accept) <==> (r is Calls),
        r matches CallReport::Calls(c) ==> spec_dep_step(
            DepState::Analysing,
            DepEvent::Analysed(r),
        ).1 == DepAction::Accept(c),
{
}

} // verus!
