//! What resolution reaches, pass after pass: that it ends, how soon, and
//! what the set is like when it does.

use crate::closure::{
    answers, closed, coherent, grounded, joined_from, leads_to, lemma_absorbed_sources,
    lemma_fixed_set_is_closed, lemma_new_mod_parent, lemma_new_mods_lead_on, lemma_pass_keeps_set,
    lemma_pass_stays_grounded, pass, with_projects, Registry,
};
use crate::modrinth::ModView;
use crate::resolve::{
    arrival, distinct_projects, edges, lemma_absorbed_extends, planned, selected, Arrival,
};
use vstd::prelude::*;

verus! {

/// The set after `n` passes against `reg`.
pub open spec fn passes(
    reg: Registry,
    mods: Seq<ModView>,
    excluded: Seq<Seq<char>>,
    n: nat,
) -> Seq<ModView>
    decreases n,
{
    if n == 0 {
        mods
    } else {
        pass(reg, passes(reg, mods, excluded, (n - 1) as nat), excluded)
    }
}

/// Whether the pass after the first `n` adds nothing.
pub open spec fn settled(
    reg: Registry,
    mods: Seq<ModView>,
    excluded: Seq<Seq<char>>,
    n: nat,
) -> bool {
    pass(reg, passes(reg, mods, excluded, n), excluded) == passes(reg, mods, excluded, n)
}

/// Whether each of `mods` belongs to a project of `universe`.
pub open spec fn within(mods: Seq<ModView>, universe: Set<Seq<char>>) -> bool {
    forall|i: int| 0 <= i < mods.len() ==> universe.contains(#[trigger] mods[i].project_id)
}

/// Whether every project that the registry gives is one of `universe`.
pub open spec fn serves_from(reg: Registry, universe: Set<Seq<char>>) -> bool {
    forall|id: Seq<char>|
        (#[trigger] (reg.project)(id)) matches Ok(project) ==> universe.contains(project.id)
}

/// A set with one mod for each project holds no more mods than there are
/// projects.
proof fn lemma_distinct_bounded(mods: Seq<ModView>, universe: Set<Seq<char>>)
    requires
        universe.finite(),
        distinct_projects(mods),
        within(mods, universe),
    ensures
        mods.len() <= universe.len(),
    decreases mods.len(),
{
    if mods.len() > 0 {
        let shorter = mods.drop_last();
        let rest = universe.remove(mods.last().project_id);
        assert(within(shorter, rest)) by {
            assert forall|i: int| 0 <= i < shorter.len() implies rest.contains(
                #[trigger] shorter[i].project_id,
            ) by {
                assert(shorter[i] == mods[i]);
                assert(mods[i].project_id != mods[mods.len() - 1].project_id);
            }
        }
        assert(distinct_projects(shorter)) by {
            assert forall|i: int, j: int| 0 <= i < j < shorter.len() implies #[trigger] shorter[i].project_id
                != #[trigger] shorter[j].project_id by {
                assert(shorter[i] == mods[i] && shorter[j] == mods[j]);
            }
        }
        assert(universe.contains(mods[mods.len() - 1].project_id));
        lemma_distinct_bounded(shorter, rest);
    }
}

/// A pass adds mods of such projects only as the registry gives.
proof fn lemma_pass_within(
    reg: Registry,
    mods: Seq<ModView>,
    excluded: Seq<Seq<char>>,
    universe: Set<Seq<char>>,
)
    requires
        within(mods, universe),
        serves_from(reg, universe),
    ensures
        within(pass(reg, mods, excluded), universe),
{
    let requests = planned(mods, excluded, edges(mods));
    let versions = selected(mods, excluded, answers(reg, requests));
    let fetched = with_projects(reg, versions);
    let after = pass(reg, mods, excluded);
    lemma_absorbed_extends(mods, excluded, fetched);
    lemma_absorbed_sources(mods, excluded, fetched);
    assert forall|i: int| 0 <= i < after.len() implies universe.contains(
        #[trigger] after[i].project_id,
    ) by {
        if i < mods.len() {
            assert(after.take(mods.len() as int)[i] == after[i]);
        } else {
            assert(joined_from(mods, excluded, fetched, after[i]));
            let k = choose|k: int|
                0 <= k < fetched.len() && arrival(
                    mods,
                    excluded,
                    (#[trigger] fetched[k]).0,
                    fetched[k].1,
                ) == Arrival::Entry(after[i]);
            assert(fetched[k].1 == (reg.project)(versions[k].project_id));
        }
    }
}

/// Until a pass adds nothing, each pass adds a mod.
proof fn lemma_passes_grow(
    reg: Registry,
    roots: Seq<ModView>,
    excluded: Seq<Seq<char>>,
    universe: Set<Seq<char>>,
    n: nat,
)
    requires
        distinct_projects(roots),
        within(roots, universe),
        serves_from(reg, universe),
    ensures
        distinct_projects(passes(reg, roots, excluded, n)),
        within(passes(reg, roots, excluded, n), universe),
        (exists|k: nat| k < n && settled(reg, roots, excluded, k)) || passes(
            reg,
            roots,
            excluded,
            n,
        ).len() >= roots.len() + n,
    decreases n,
{
    if n > 0 {
        let m = (n - 1) as nat;
        lemma_passes_grow(reg, roots, excluded, universe, m);
        let before = passes(reg, roots, excluded, m);
        let after = passes(reg, roots, excluded, n);
        lemma_pass_keeps_set(reg, before, excluded);
        lemma_pass_within(reg, before, excluded, universe);
        if !(exists|k: nat| k < m && settled(reg, roots, excluded, k)) {
            if settled(reg, roots, excluded, m) {
            } else if after.len() == before.len() {
                assert(after.take(before.len() as int) =~= after);
            }
        } else {
            let k = choose|k: nat| k < m && settled(reg, roots, excluded, k);
            assert(k < n && settled(reg, roots, excluded, k));
        }
    }
}

/// Resolution ends. Where the projects that the registry gives, and those
/// of the first set, are among finitely many, some pass adds nothing, and
/// it is not later than the pass after as many passes as there are
/// projects.
pub proof fn lemma_resolution_ends(
    reg: Registry,
    roots: Seq<ModView>,
    excluded: Seq<Seq<char>>,
    universe: Set<Seq<char>>,
)
    requires
        universe.finite(),
        distinct_projects(roots),
        within(roots, universe),
        serves_from(reg, universe),
    ensures
        exists|n: nat| n <= universe.len() && settled(reg, roots, excluded, n),
{
    let bound = universe.len() + 1;
    lemma_passes_grow(reg, roots, excluded, universe, bound);
    lemma_distinct_bounded(passes(reg, roots, excluded, bound), universe);
    let k = choose|k: nat| k < bound && settled(reg, roots, excluded, k);
    assert(k <= universe.len() && settled(reg, roots, excluded, k));
}

/// What resolution reaches. Passes keep the first set in its place, and
/// where that set has one mod for each project they give no project two
/// mods; they add no mod of a project that the caller has ruled out, and
/// none that no edge leads to. Once a pass adds nothing, every edge that
/// leads to a mod leads to a project that is taken, where the registry
/// speaks of the edges with one voice.
pub proof fn lemma_resolution(
    reg: Registry,
    roots: Seq<ModView>,
    excluded: Seq<Seq<char>>,
    n: nat,
)
    ensures
        passes(reg, roots, excluded, n).len() >= roots.len(),
        passes(reg, roots, excluded, n).take(roots.len() as int) == roots,
        distinct_projects(roots) ==> distinct_projects(passes(reg, roots, excluded, n)),
        grounded(reg, passes(reg, roots, excluded, n), roots.len() as int),
        forall|i: int|
            roots.len() <= i < passes(reg, roots, excluded, n).len() ==> !excluded.contains(
                #[trigger] passes(reg, roots, excluded, n)[i].project_id,
            ),
        settled(reg, roots, excluded, n) && coherent(reg, passes(reg, roots, excluded, n))
            ==> closed(reg, passes(reg, roots, excluded, n), excluded),
    decreases n,
{
    let reached = passes(reg, roots, excluded, n);
    if n == 0 {
        assert(roots.take(roots.len() as int) =~= roots);
    } else {
        let before = passes(reg, roots, excluded, (n - 1) as nat);
        lemma_resolution(reg, roots, excluded, (n - 1) as nat);
        lemma_pass_keeps_set(reg, before, excluded);
        lemma_pass_stays_grounded(reg, before, excluded, roots.len() as int);
        assert(reached.take(roots.len() as int) =~= before.take(roots.len() as int)) by {
            assert forall|i: int| 0 <= i < roots.len() implies reached[i] == before[i] by {
                assert(reached.take(before.len() as int)[i] == reached[i]);
            }
        }
        assert forall|i: int| roots.len() <= i < reached.len() implies !excluded.contains(
            #[trigger] reached[i].project_id,
        ) by {
            if i < before.len() {
                assert(reached.take(before.len() as int)[i] == reached[i]);
            }
        }
    }
    if settled(reg, roots, excluded, n) && coherent(reg, reached) {
        lemma_fixed_set_is_closed(reg, reached, excluded);
    }
}

/// Whether the mod at position `i` of `mods` stands `links` edges behind
/// one of the first `roots` mods.
pub open spec fn chain_to(reg: Registry, mods: Seq<ModView>, roots: int, i: int, links: nat) -> bool
    decreases links,
{
    if links == 0 {
        0 <= i < roots
    } else {
        exists|a: int|
            0 <= a < i && leads_to(reg, #[trigger] mods[a], mods[i]) && chain_to(
                reg,
                mods,
                roots,
                a,
                (links - 1) as nat,
            )
    }
}

/// A chain of edges in a set is one in each set that begins with that set.
proof fn lemma_chain_extends(
    reg: Registry,
    mods: Seq<ModView>,
    longer: Seq<ModView>,
    roots: int,
    i: int,
    links: nat,
)
    requires
        mods.len() <= longer.len(),
        longer.take(mods.len() as int) == mods,
        roots <= mods.len(),
        0 <= i < mods.len(),
        chain_to(reg, mods, roots, i, links),
    ensures
        chain_to(reg, longer, roots, i, links),
    decreases links,
{
    if links > 0 {
        let a = choose|a: int|
            0 <= a < i && leads_to(reg, #[trigger] mods[a], mods[i]) && chain_to(
                reg,
                mods,
                roots,
                a,
                (links - 1) as nat,
            );
        lemma_chain_extends(reg, mods, longer, roots, a, (links - 1) as nat);
        assert(longer.take(mods.len() as int)[a] == longer[a]);
        assert(longer.take(mods.len() as int)[i] == longer[i]);
        assert(leads_to(reg, longer[a], longer[i]));
    }
}

/// A mod that the `k`-th pass adds stands `k` edges behind a root: every
/// pass goes one edge further along the chains and no pass goes back.
pub proof fn lemma_pass_depth(
    reg: Registry,
    roots: Seq<ModView>,
    excluded: Seq<Seq<char>>,
    k: nat,
    i: int,
)
    requires
        k >= 1,
        passes(reg, roots, excluded, (k - 1) as nat).len() <= i < passes(
            reg,
            roots,
            excluded,
            k,
        ).len(),
    ensures
        chain_to(reg, passes(reg, roots, excluded, k), roots.len() as int, i, k),
    decreases k,
{
    let mods = passes(reg, roots, excluded, (k - 1) as nat);
    let after = passes(reg, roots, excluded, k);
    lemma_pass_keeps_set(reg, mods, excluded);
    lemma_resolution(reg, roots, excluded, (k - 1) as nat);
    if k == 1 {
        let a = lemma_new_mod_parent(reg, roots, excluded, i);
        assert(after.take(roots.len() as int)[a] == after[a]);
        assert(leads_to(reg, after[a], after[i]));
        assert(chain_to(reg, after, roots.len() as int, a, 0));
    } else {
        let earlier = passes(reg, roots, excluded, (k - 2) as nat);
        let a = lemma_new_mods_lead_on(reg, earlier, excluded, i);
        lemma_pass_depth(reg, roots, excluded, (k - 1) as nat, a);
        lemma_chain_extends(reg, mods, after, roots.len() as int, a, (k - 1) as nat);
        assert(after.take(mods.len() as int)[a] == after[a]);
        assert(leads_to(reg, after[a], after[i]));
    }
}

/// The passes that add a mod are no more than the longest chain of edges
/// has links: where the `k`-th pass adds a mod, a chain of `k` edges leads
/// from a root to a mod of the set.
pub proof fn lemma_passes_follow_chains(
    reg: Registry,
    roots: Seq<ModView>,
    excluded: Seq<Seq<char>>,
    k: nat,
)
    requires
        k >= 1,
        passes(reg, roots, excluded, k) != passes(reg, roots, excluded, (k - 1) as nat),
    ensures
        exists|i: int|
            0 <= i < passes(reg, roots, excluded, k).len() && #[trigger] chain_to(
                reg,
                passes(reg, roots, excluded, k),
                roots.len() as int,
                i,
                k,
            ),
{
    let mods = passes(reg, roots, excluded, (k - 1) as nat);
    let after = passes(reg, roots, excluded, k);
    lemma_pass_keeps_set(reg, mods, excluded);
    if after.len() == mods.len() {
        assert(after.take(mods.len() as int) =~= after);
    }
    lemma_pass_depth(reg, roots, excluded, k, mods.len() as int);
}

} // verus!
