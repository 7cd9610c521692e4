//! What resolution reaches: the laws of a pass, stated against a registry.
//!
//! Nothing here runs. A registry is taken as what it answers to each
//! request, and a pass as the composition of the steps of
//! [`crate::resolve`] with those answers.

use crate::modrinth::{entry_of, DependencyView, ModErrorView, ModView, ProjectView, VersionView};
use crate::resolve::{
    absorbed, arrival, distinct_projects, edges, has_project, lemma_absorbed_distinct,
    lemma_absorbed_extends, lookup_for, names_project, names_version, no_dependency, planned,
    selected, taken, wanted, Arrival, LookupView,
};
use vstd::prelude::*;

verus! {

/// A registry, as a pass sees it: its answer to each request.
pub struct Registry {
    /// The answer to the request for the version with a given id.
    pub version: spec_fn(Seq<char>) -> Result<VersionView, ModErrorView>,
    /// The answer to the request for the first version of the project with
    /// a given id that meets the query.
    pub latest: spec_fn(Seq<char>) -> Result<VersionView, ModErrorView>,
    /// The answer to the request for the project with a given id.
    pub project: spec_fn(Seq<char>) -> Result<ProjectView, ModErrorView>,
}

/// The registry's answer to the request that settles `edge`.
pub open spec fn answer(reg: Registry, edge: DependencyView) -> Result<VersionView, ModErrorView> {
    match lookup_for(edge) {
        Some(LookupView::ByVersion(id)) => (reg.version)(id),
        Some(LookupView::ByProject(id)) => (reg.latest)(id),
        None => Err(no_dependency()),
    }
}

/// The registry's answers to the requests of a pass.
pub open spec fn answers(reg: Registry, requests: Seq<DependencyView>) -> Seq<
    Result<VersionView, ModErrorView>,
> {
    Seq::new(requests.len(), |i: int| answer(reg, requests[i]))
}

/// Each version with the registry's answer for its project.
pub open spec fn with_projects(reg: Registry, versions: Seq<VersionView>) -> Seq<
    (VersionView, Result<ProjectView, ModErrorView>),
> {
    Seq::new(versions.len(), |i: int| (versions[i], (reg.project)(versions[i].project_id)))
}

/// The set that one pass against `reg` makes of `mods`.
pub open spec fn pass(reg: Registry, mods: Seq<ModView>, excluded: Seq<Seq<char>>) -> Seq<
    ModView,
> {
    let requests = planned(mods, excluded, edges(mods));
    let versions = selected(mods, excluded, answers(reg, requests));
    absorbed(mods, excluded, with_projects(reg, versions))
}

/// The mod that `edge` leads to, where the registry gives its version, the
/// project of that version, and the version has a file.
pub open spec fn target(reg: Registry, edge: DependencyView) -> Option<ModView> {
    match answer(reg, edge) {
        Ok(version) => match (reg.project)(version.project_id) {
            Ok(project) => entry_of(project, version),
            Err(_) => None,
        },
        Err(_) => None,
    }
}

/// Whether every edge of `mods` that leads to a mod leads to a project
/// that is taken.
pub open spec fn closed(reg: Registry, mods: Seq<ModView>, excluded: Seq<Seq<char>>) -> bool {
    forall|k: int|
        0 <= k < edges(mods).len() ==> match target(reg, #[trigger] edges(mods)[k]) {
            Some(entry) => taken(mods, excluded, entry.project_id),
            None => true,
        }
}

/// Whether an edge of `from` leads to `to`.
pub open spec fn leads_to(reg: Registry, from: ModView, to: ModView) -> bool {
    exists|e: DependencyView| #[trigger] from.dependencies.contains(e) && target(reg, e) == Some(to)
}

/// Whether the mod at position `i` of `mods` is led to by one that stands
/// before it.
pub open spec fn has_parent(reg: Registry, mods: Seq<ModView>, i: int) -> bool {
    exists|a: int| 0 <= a < i && leads_to(reg, #[trigger] mods[a], mods[i])
}

/// Whether every mod of `mods` behind the first `roots` is led to by a mod
/// that stands before it: followed back, each one ends at a root.
pub open spec fn grounded(reg: Registry, mods: Seq<ModView>, roots: int) -> bool {
    forall|i: int| roots <= i < mods.len() ==> #[trigger] has_parent(reg, mods, i)
}

/// Whether the registry speaks of the edges of `mods` with one voice: the
/// mod that an edge leads to belongs to the project of the version that
/// settles the edge, and to the project that the edge names, if it names
/// one; and of two edges that name one project, both lead to a mod or
/// neither does.
pub open spec fn coherent(reg: Registry, mods: Seq<ModView>) -> bool {
    &&& forall|k: int|
        0 <= k < edges(mods).len() ==> match target(reg, #[trigger] edges(mods)[k]) {
            Some(entry) => {
                &&& answer(reg, edges(mods)[k])->Ok_0.project_id == entry.project_id
                &&& edges(mods)[k].project_id matches Some(project) ==> project
                    == entry.project_id
            },
            None => true,
        }
    &&& forall|k: int, n: int|
        0 <= k < edges(mods).len() && 0 <= n < edges(mods).len() && (#[trigger] edges(
            mods,
        )[k]).project_id is Some && edges(mods)[k].project_id == (#[trigger] edges(
            mods,
        )[n]).project_id && target(reg, edges(mods)[k]) is Some ==> target(
            reg,
            edges(mods)[n],
        ) is Some
}

/// Each edge of a set is an edge of one of its mods; gives that mod's place.
proof fn lemma_edges_sources(mods: Seq<ModView>, k: int) -> (a: int)
    requires
        0 <= k < edges(mods).len(),
    ensures
        0 <= a < mods.len(),
        mods[a].dependencies.contains(edges(mods)[k]),
    decreases mods.len(),
{
    let before = edges(mods.drop_last());
    if k < before.len() {
        let a = lemma_edges_sources(mods.drop_last(), k);
        assert(mods[a] == mods.drop_last()[a]);
        a
    } else {
        let a = mods.len() - 1;
        assert(mods[a].dependencies[k - before.len()] == edges(mods)[k]);
        a
    }
}

/// Every edge that is planned is one of the candidates.
proof fn lemma_planned_sources(
    mods: Seq<ModView>,
    excluded: Seq<Seq<char>>,
    candidates: Seq<DependencyView>,
)
    ensures
        forall|k: int|
            0 <= k < planned(mods, excluded, candidates).len() ==> candidates.contains(
                #[trigger] planned(mods, excluded, candidates)[k],
            ),
    decreases candidates.len(),
{
    if candidates.len() != 0 {
        let shorter = candidates.drop_last();
        lemma_planned_sources(mods, excluded, shorter);
        let kept = planned(mods, excluded, shorter);
        let all = planned(mods, excluded, candidates);
        assert forall|k: int| 0 <= k < all.len() implies candidates.contains(#[trigger] all[k]) by {
            if k < kept.len() {
                assert(shorter.contains(kept[k]));
                let n = choose|n: int| 0 <= n < shorter.len() && shorter[n] == kept[k];
                assert(candidates[n] == all[k]);
            } else {
                assert(candidates[candidates.len() - 1] == all[k]);
            }
        }
    }
}

/// Whether `requests` holds an edge that stands for `edge`: one to the same
/// project or, for an edge that names only a version, to the same version.
pub(crate) open spec fn stood_for(requests: Seq<DependencyView>, edge: DependencyView) -> bool {
    match edge.project_id {
        Some(project) => names_project(requests, project),
        None => match edge.version_id {
            Some(version) => names_version(requests, version),
            None => false,
        },
    }
}

/// An edge that some request stands for is still stood for after another
/// request joins them.
proof fn lemma_stood_for_grows(
    requests: Seq<DependencyView>,
    more: DependencyView,
    edge: DependencyView,
)
    requires
        stood_for(requests, edge),
    ensures
        stood_for(requests.push(more), edge),
{
    let longer = requests.push(more);
    match edge.project_id {
        Some(project) => {
            let k = choose|k: int|
                0 <= k < requests.len() && #[trigger] requests[k].project_id == Some(project);
            assert(longer[k].project_id == Some(project));
        },
        None => {
            let version = edge.version_id->0;
            let k = choose|k: int|
                0 <= k < requests.len() && (#[trigger] requests[k]).project_id is None
                    && requests[k].version_id == Some(version);
            assert(longer[k].project_id is None && longer[k].version_id == Some(version));
        },
    }
}

/// Every candidate that can be settled is stood for by a planned edge,
/// unless it names a project that is taken.
proof fn lemma_planned_covers(
    mods: Seq<ModView>,
    excluded: Seq<Seq<char>>,
    candidates: Seq<DependencyView>,
    n: int,
)
    requires
        0 <= n < candidates.len(),
        lookup_for(candidates[n]) is Some,
    ensures
        stood_for(planned(mods, excluded, candidates), candidates[n]) || (
        candidates[n].project_id matches Some(project) && taken(mods, excluded, project)),
    decreases candidates.len(),
{
    let shorter = candidates.drop_last();
    let kept = planned(mods, excluded, shorter);
    let all = planned(mods, excluded, candidates);
    let edge = candidates[n];
    let last = candidates.last();
    if n < candidates.len() - 1 {
        lemma_planned_covers(mods, excluded, shorter, n);
        if stood_for(kept, edge) && wanted(mods, excluded, kept, last) {
            lemma_stood_for_grows(kept, last, edge);
        }
    } else if wanted(mods, excluded, kept, last) {
        assert(all == kept.push(last));
        assert(all[kept.len() as int] == last);
    }
}

/// Every version that is selected is one of the answers.
proof fn lemma_selected_sources(
    mods: Seq<ModView>,
    excluded: Seq<Seq<char>>,
    given: Seq<Result<VersionView, ModErrorView>>,
)
    ensures
        forall|k: int|
            0 <= k < selected(mods, excluded, given).len() ==> given.contains(
                Ok(#[trigger] selected(mods, excluded, given)[k]),
            ),
    decreases given.len(),
{
    if given.len() != 0 {
        let shorter = given.drop_last();
        lemma_selected_sources(mods, excluded, shorter);
        let before = selected(mods, excluded, shorter);
        let all = selected(mods, excluded, given);
        assert forall|k: int| 0 <= k < all.len() implies given.contains(Ok(#[trigger] all[k])) by {
            if k < before.len() {
                assert(shorter.contains(Ok(before[k])));
                let n = choose|n: int|
                    0 <= n < shorter.len() && shorter[n] == Ok::<VersionView, ModErrorView>(
                        before[k],
                    );
                assert(given[n] == Ok::<VersionView, ModErrorView>(all[k]));
            } else {
                assert(given[given.len() - 1] == Ok::<VersionView, ModErrorView>(all[k]));
            }
        }
    }
}

/// Every answer with a version of a project that is not taken is selected.
proof fn lemma_selected_covers(
    mods: Seq<ModView>,
    excluded: Seq<Seq<char>>,
    given: Seq<Result<VersionView, ModErrorView>>,
    n: int,
)
    requires
        0 <= n < given.len(),
        given[n] is Ok,
        !taken(mods, excluded, given[n]->Ok_0.project_id),
    ensures
        selected(mods, excluded, given).contains(given[n]->Ok_0),
    decreases given.len(),
{
    let shorter = given.drop_last();
    let before = selected(mods, excluded, shorter);
    let all = selected(mods, excluded, given);
    if n < given.len() - 1 {
        lemma_selected_covers(mods, excluded, shorter, n);
        let k = choose|k: int| 0 <= k < before.len() && before[k] == given[n]->Ok_0;
        assert(all[k] == given[n]->Ok_0);
    } else {
        assert(all[before.len() as int] == given[n]->Ok_0);
    }
}

/// A run of arrivals leaves a set as it is exactly when none of them, held
/// against that set, is a new mod.
proof fn lemma_absorbed_same(
    mods: Seq<ModView>,
    excluded: Seq<Seq<char>>,
    fetched: Seq<(VersionView, Result<ProjectView, ModErrorView>)>,
)
    ensures
        absorbed(mods, excluded, fetched) == mods <==> forall|k: int|
            0 <= k < fetched.len() ==> !(arrival(
                mods,
                excluded,
                (#[trigger] fetched[k]).0,
                fetched[k].1,
            ) is Entry),
    decreases fetched.len(),
{
    if fetched.len() != 0 {
        let shorter = fetched.drop_last();
        lemma_absorbed_same(mods, excluded, shorter);
        lemma_absorbed_extends(mods, excluded, shorter);
        lemma_absorbed_extends(mods, excluded, fetched);
        let before = absorbed(mods, excluded, shorter);
        let after = absorbed(mods, excluded, fetched);
        let quiet = forall|k: int|
            0 <= k < fetched.len() ==> !(arrival(
                mods,
                excluded,
                (#[trigger] fetched[k]).0,
                fetched[k].1,
            ) is Entry);
        if after == mods {
            assert(before.len() == mods.len());
            assert(before =~= before.take(mods.len() as int));
            assert(before == mods);
            assert forall|k: int| 0 <= k < fetched.len() implies !(arrival(
                mods,
                excluded,
                (#[trigger] fetched[k]).0,
                fetched[k].1,
            ) is Entry) by {
                if k < shorter.len() {
                    assert(shorter[k] == fetched[k]);
                }
            }
        }
        if quiet {
            assert forall|k: int| 0 <= k < shorter.len() implies !(arrival(
                mods,
                excluded,
                (#[trigger] shorter[k]).0,
                shorter[k].1,
            ) is Entry) by {
                assert(shorter[k] == fetched[k]);
            }
            assert(before == mods);
            assert(fetched.last() == fetched[fetched.len() - 1]);
        }
    }
}

/// Whether one of `fetched`, arriving at `mods`, is the new mod `entry`.
pub(crate) open spec fn joined_from(
    mods: Seq<ModView>,
    excluded: Seq<Seq<char>>,
    fetched: Seq<(VersionView, Result<ProjectView, ModErrorView>)>,
    entry: ModView,
) -> bool {
    exists|k: int|
        0 <= k < fetched.len() && arrival(mods, excluded, (#[trigger] fetched[k]).0, fetched[k].1)
            == Arrival::Entry(entry)
}

/// Whether every project with a mod among `fewer` has one among `more`.
pub(crate) open spec fn covers(more: Seq<ModView>, fewer: Seq<ModView>) -> bool {
    forall|i: int| 0 <= i < fewer.len() ==> has_project(more, #[trigger] fewer[i].project_id)
}

/// A set covers each set that it begins with.
pub(crate) proof fn lemma_covers_prefix(more: Seq<ModView>, n: int)
    requires
        0 <= n <= more.len(),
    ensures
        covers(more, more.take(n)),
{
    assert forall|i: int| 0 <= i < n implies has_project(
        more,
        #[trigger] more.take(n)[i].project_id,
    ) by {
        assert(more[i].project_id == more.take(n)[i].project_id);
    }
}

/// A project that is taken stays taken in a set that covers the first.
pub(crate) proof fn lemma_taken_grows(
    more: Seq<ModView>,
    fewer: Seq<ModView>,
    excluded: Seq<Seq<char>>,
    project: Seq<char>,
)
    requires
        covers(more, fewer),
        taken(fewer, excluded, project),
    ensures
        taken(more, excluded, project),
{
    if has_project(fewer, project) {
        let i = choose|i: int| 0 <= i < fewer.len() && #[trigger] fewer[i].project_id == project;
    }
}

/// What arrives as a new mod at a set arrives as the same mod at each set
/// that the first covers.
pub(crate) proof fn lemma_arrival_earlier(
    more: Seq<ModView>,
    fewer: Seq<ModView>,
    excluded: Seq<Seq<char>>,
    version: VersionView,
    project: Result<ProjectView, ModErrorView>,
)
    requires
        covers(more, fewer),
        arrival(more, excluded, version, project) is Entry,
    ensures
        arrival(fewer, excluded, version, project) == arrival(more, excluded, version, project),
{
    let entry = arrival(more, excluded, version, project)->Entry_0;
    if taken(fewer, excluded, version.project_id) {
        lemma_taken_grows(more, fewer, excluded, version.project_id);
    }
    if taken(fewer, excluded, entry.project_id) {
        lemma_taken_grows(more, fewer, excluded, entry.project_id);
    }
}

/// Every mod that a run of arrivals adds is one of them, arriving at the
/// set that the run started from.
pub(crate) proof fn lemma_absorbed_sources(
    mods: Seq<ModView>,
    excluded: Seq<Seq<char>>,
    fetched: Seq<(VersionView, Result<ProjectView, ModErrorView>)>,
)
    ensures
        forall|i: int|
            mods.len() <= i < absorbed(mods, excluded, fetched).len() ==> joined_from(
                mods,
                excluded,
                fetched,
                #[trigger] absorbed(mods, excluded, fetched)[i],
            ),
    decreases fetched.len(),
{
    if fetched.len() != 0 {
        let shorter = fetched.drop_last();
        lemma_absorbed_sources(mods, excluded, shorter);
        lemma_absorbed_extends(mods, excluded, shorter);
        let before = absorbed(mods, excluded, shorter);
        let after = absorbed(mods, excluded, fetched);
        assert forall|i: int| mods.len() <= i < after.len() implies joined_from(
            mods,
            excluded,
            fetched,
            #[trigger] after[i],
        ) by {
            if i < before.len() {
                assert(joined_from(mods, excluded, shorter, before[i]));
                let k = choose|k: int|
                    0 <= k < shorter.len() && arrival(
                        mods,
                        excluded,
                        (#[trigger] shorter[k]).0,
                        shorter[k].1,
                    ) == Arrival::Entry(before[i]);
                assert(fetched[k] == shorter[k]);
                assert(after[i] == before[i]);
            } else {
                let k = fetched.len() - 1;
                lemma_covers_prefix(before, mods.len() as int);
                lemma_arrival_earlier(before, mods, excluded, fetched[k].0, fetched[k].1);
            }
        }
    }
}

/// Once a run of arrivals is over, none of them would bring anything new.
pub(crate) proof fn lemma_absorbed_settles(
    mods: Seq<ModView>,
    excluded: Seq<Seq<char>>,
    fetched: Seq<(VersionView, Result<ProjectView, ModErrorView>)>,
)
    ensures
        forall|k: int|
            0 <= k < fetched.len() ==> !(arrival(
                absorbed(mods, excluded, fetched),
                excluded,
                (#[trigger] fetched[k]).0,
                fetched[k].1,
            ) is Entry),
    decreases fetched.len(),
{
    if fetched.len() != 0 {
        let shorter = fetched.drop_last();
        lemma_absorbed_settles(mods, excluded, shorter);
        let before = absorbed(mods, excluded, shorter);
        let after = absorbed(mods, excluded, fetched);
        assert(covers(after, before)) by {
            assert forall|i: int| 0 <= i < before.len() implies has_project(
                after,
                #[trigger] before[i].project_id,
            ) by {
                assert(after[i].project_id == before[i].project_id);
            }
        }
        assert forall|k: int| 0 <= k < fetched.len() implies !(arrival(
            after,
            excluded,
            (#[trigger] fetched[k]).0,
            fetched[k].1,
        ) is Entry) by {
            if arrival(after, excluded, fetched[k].0, fetched[k].1) is Entry {
                lemma_arrival_earlier(after, before, excluded, fetched[k].0, fetched[k].1);
                if k < shorter.len() {
                    assert(shorter[k] == fetched[k]);
                } else {
                    let entry = arrival(before, excluded, fetched[k].0, fetched[k].1)->Entry_0;
                    assert(after == before.push(entry));
                    assert(after[before.len() as int].project_id == entry.project_id);
                }
            }
        }
    }
}

/// Whether the candidate at position `c` is planned when its turn comes.
pub(crate) open spec fn kept_at(
    mods: Seq<ModView>,
    excluded: Seq<Seq<char>>,
    candidates: Seq<DependencyView>,
    c: int,
) -> bool {
    wanted(mods, excluded, planned(mods, excluded, candidates.take(c)), candidates[c])
}

/// Whether `edge` is a candidate that is planned when its turn comes.
pub(crate) open spec fn kept_somewhere(
    mods: Seq<ModView>,
    excluded: Seq<Seq<char>>,
    candidates: Seq<DependencyView>,
    edge: DependencyView,
) -> bool {
    exists|c: int|
        0 <= c < candidates.len() && #[trigger] candidates[c] == edge && kept_at(
            mods,
            excluded,
            candidates,
            c,
        )
}

/// Every edge that is planned is a candidate that was wanted at its turn.
pub(crate) proof fn lemma_planned_places(
    mods: Seq<ModView>,
    excluded: Seq<Seq<char>>,
    candidates: Seq<DependencyView>,
)
    ensures
        forall|k: int|
            0 <= k < planned(mods, excluded, candidates).len() ==> kept_somewhere(
                mods,
                excluded,
                candidates,
                #[trigger] planned(mods, excluded, candidates)[k],
            ),
    decreases candidates.len(),
{
    if candidates.len() != 0 {
        let shorter = candidates.drop_last();
        lemma_planned_places(mods, excluded, shorter);
        let kept = planned(mods, excluded, shorter);
        let all = planned(mods, excluded, candidates);
        assert forall|k: int| 0 <= k < all.len() implies kept_somewhere(
            mods,
            excluded,
            candidates,
            #[trigger] all[k],
        ) by {
            if k < kept.len() {
                assert(kept_somewhere(mods, excluded, shorter, kept[k]));
                let c = choose|c: int|
                    0 <= c < shorter.len() && #[trigger] shorter[c] == kept[k] && kept_at(
                        mods,
                        excluded,
                        shorter,
                        c,
                    );
                assert(shorter.take(c) =~= candidates.take(c));
                assert(candidates[c] == all[k]);
            } else {
                let c = candidates.len() - 1;
                assert(candidates.take(c) =~= shorter);
                assert(candidates[c] == all[k]);
            }
        }
    }
}

/// A candidate that is wanted at its turn is planned.
pub(crate) proof fn lemma_kept_is_planned(
    mods: Seq<ModView>,
    excluded: Seq<Seq<char>>,
    candidates: Seq<DependencyView>,
    c: int,
)
    requires
        0 <= c < candidates.len(),
        kept_at(mods, excluded, candidates, c),
    ensures
        planned(mods, excluded, candidates).contains(candidates[c]),
    decreases candidates.len(),
{
    let shorter = candidates.drop_last();
    let kept = planned(mods, excluded, shorter);
    let all = planned(mods, excluded, candidates);
    if c < candidates.len() - 1 {
        assert(shorter.take(c) =~= candidates.take(c));
        lemma_kept_is_planned(mods, excluded, shorter, c);
        let k = choose|k: int| 0 <= k < kept.len() && kept[k] == shorter[c];
        assert(all[k] == candidates[c]);
    } else {
        assert(candidates.take(c) =~= shorter);
        assert(all[kept.len() as int] == candidates[c]);
    }
}

/// An edge that a plan for a smaller set stands for is stood for by the
/// plan for a larger set too, unless the edge names a project that is
/// taken there.
pub(crate) proof fn lemma_plan_stands_for(
    more: Seq<ModView>,
    fewer: Seq<ModView>,
    excluded: Seq<Seq<char>>,
    candidates: Seq<DependencyView>,
    edge: DependencyView,
)
    requires
        edge.project_id matches Some(project) ==> !taken(more, excluded, project),
        stood_for(planned(fewer, excluded, candidates), edge),
    ensures
        stood_for(planned(more, excluded, candidates), edge),
    decreases candidates.len(),
{
    if candidates.len() != 0 {
        let shorter = candidates.drop_last();
        let last = candidates.last();
        let kept_fewer = planned(fewer, excluded, shorter);
        let kept_more = planned(more, excluded, shorter);
        if stood_for(kept_fewer, edge) {
            lemma_plan_stands_for(more, fewer, excluded, shorter, edge);
        }
        if stood_for(kept_more, edge) {
            if wanted(more, excluded, kept_more, last) {
                lemma_stood_for_grows(kept_more, last, edge);
            }
        } else {
            // The last candidate stands for the edge, and is wanted here too.
            let all_fewer = planned(fewer, excluded, candidates);
            assert(all_fewer == kept_fewer.push(last));
            match edge.project_id {
                Some(project) => {
                    let k = choose|k: int|
                        0 <= k < all_fewer.len() && #[trigger] all_fewer[k].project_id == Some(
                            project,
                        );
                    if k < kept_fewer.len() {
                        assert(kept_fewer[k].project_id == Some(project));
                    }
                    assert(last.project_id == Some(project));
                },
                None => {
                    let version = edge.version_id->0;
                    let k = choose|k: int|
                        0 <= k < all_fewer.len() && (#[trigger] all_fewer[k]).project_id is None
                            && all_fewer[k].version_id == Some(version);
                    if k < kept_fewer.len() {
                        assert(kept_fewer[k].project_id is None && kept_fewer[k].version_id
                            == Some(version));
                    }
                    assert(last.project_id is None && last.version_id == Some(version));
                },
            }
            assert(wanted(more, excluded, kept_more, last));
            let all_more = planned(more, excluded, candidates);
            assert(all_more[kept_more.len() as int] == last);
        }
    }
}

/// A candidate that is wanted at its turn in the plan for a set is wanted
/// at its turn in the plan for each set that the first covers.
pub(crate) proof fn lemma_kept_earlier(
    more: Seq<ModView>,
    fewer: Seq<ModView>,
    excluded: Seq<Seq<char>>,
    candidates: Seq<DependencyView>,
    c: int,
)
    requires
        covers(more, fewer),
        0 <= c < candidates.len(),
        kept_at(more, excluded, candidates, c),
    ensures
        kept_at(fewer, excluded, candidates, c),
{
    let edge = candidates[c];
    let before = candidates.take(c);
    if stood_for(planned(fewer, excluded, before), edge) {
        lemma_plan_stands_for(more, fewer, excluded, before, edge);
    }
    if edge.project_id matches Some(project) && taken(fewer, excluded, project) {
        lemma_taken_grows(more, fewer, excluded, edge.project_id->0);
    }
}

/// The edges of a set begin with the edges of each set that it begins with.
pub(crate) proof fn lemma_edges_prefix(mods: Seq<ModView>, n: int)
    requires
        0 <= n <= mods.len(),
    ensures
        edges(mods.take(n)).len() <= edges(mods).len(),
        edges(mods).take(edges(mods.take(n)).len() as int) == edges(mods.take(n)),
    decreases mods.len() - n,
{
    if n == mods.len() {
        assert(mods.take(n) =~= mods);
        assert(edges(mods).take(edges(mods).len() as int) =~= edges(mods));
    } else {
        lemma_edges_prefix(mods, n + 1);
        assert(mods.take(n + 1).drop_last() =~= mods.take(n));
        let longer = edges(mods.take(n + 1));
        assert(longer == edges(mods.take(n)) + mods.take(n + 1).last().dependencies);
        assert(edges(mods).take(edges(mods.take(n)).len() as int) =~= longer.take(
            edges(mods.take(n)).len() as int,
        ));
        assert(longer.take(edges(mods.take(n)).len() as int) =~= edges(mods.take(n)));
    }
}

/// An edge that is not among those of the first `n` mods of a set is an
/// edge of a later one; gives that mod's place.
pub(crate) proof fn lemma_late_edge_source(mods: Seq<ModView>, n: int, k: int) -> (a: int)
    requires
        0 <= n <= mods.len(),
        edges(mods.take(n)).len() <= k < edges(mods).len(),
    ensures
        n <= a < mods.len(),
        mods[a].dependencies.contains(edges(mods)[k]),
    decreases mods.len(),
{
    if n == mods.len() {
        assert(mods.take(n) =~= mods);
        0
    } else {
        let shorter = mods.drop_last();
        let before = edges(shorter);
        if k < before.len() {
            assert(shorter.take(n) =~= mods.take(n));
            let a = lemma_late_edge_source(shorter, n, k);
            assert(mods[a] == shorter[a]);
            a
        } else {
            let a = mods.len() - 1;
            assert(mods[a].dependencies[k - before.len()] == edges(mods)[k]);
            a
        }
    }
}

/// A pass keeps what it found, gives no project two mods and no mod to a
/// project that the caller has ruled out.
pub proof fn lemma_pass_keeps_set(reg: Registry, mods: Seq<ModView>, excluded: Seq<Seq<char>>)
    ensures
        pass(reg, mods, excluded).len() >= mods.len(),
        pass(reg, mods, excluded).take(mods.len() as int) == mods,
        distinct_projects(mods) ==> distinct_projects(pass(reg, mods, excluded)),
        forall|i: int|
            mods.len() <= i < pass(reg, mods, excluded).len() ==> !excluded.contains(
                #[trigger] pass(reg, mods, excluded)[i].project_id,
            ),
{
    let requests = planned(mods, excluded, edges(mods));
    let versions = selected(mods, excluded, answers(reg, requests));
    let fetched = with_projects(reg, versions);
    lemma_absorbed_extends(mods, excluded, fetched);
    lemma_absorbed_distinct(mods, excluded, fetched);
}

/// A pass over a closed set adds nothing: resolution that is run again on
/// its own result changes nothing.
pub proof fn lemma_closed_set_is_fixed(reg: Registry, mods: Seq<ModView>, excluded: Seq<Seq<char>>)
    requires
        closed(reg, mods, excluded),
    ensures
        pass(reg, mods, excluded) == mods,
{
    let candidates = edges(mods);
    let requests = planned(mods, excluded, candidates);
    let given = answers(reg, requests);
    let versions = selected(mods, excluded, given);
    let fetched = with_projects(reg, versions);
    lemma_planned_sources(mods, excluded, candidates);
    lemma_selected_sources(mods, excluded, given);
    assert forall|k: int| 0 <= k < fetched.len() implies !(arrival(
        mods,
        excluded,
        (#[trigger] fetched[k]).0,
        fetched[k].1,
    ) is Entry) by {
        let version = versions[k];
        assert(given.contains(Ok(version)));
        let n = choose|n: int|
            0 <= n < given.len() && given[n] == Ok::<VersionView, ModErrorView>(version);
        assert(candidates.contains(requests[n]));
        let c = choose|c: int| 0 <= c < candidates.len() && candidates[c] == requests[n];
        assert(answer(reg, candidates[c]) == Ok::<VersionView, ModErrorView>(version));
        assert(target(reg, edges(mods)[c]) matches Some(entry) ==> taken(
            mods,
            excluded,
            entry.project_id,
        ));
    }
    lemma_absorbed_same(mods, excluded, fetched);
}

/// A set that a pass leaves as it is is closed: where resolution ends,
/// every edge that leads to a mod leads to a project that is taken. This
/// holds of a registry that speaks of the edges with one voice.
pub proof fn lemma_fixed_set_is_closed(reg: Registry, mods: Seq<ModView>, excluded: Seq<Seq<char>>)
    requires
        pass(reg, mods, excluded) == mods,
        coherent(reg, mods),
    ensures
        closed(reg, mods, excluded),
{
    let candidates = edges(mods);
    let requests = planned(mods, excluded, candidates);
    let given = answers(reg, requests);
    let versions = selected(mods, excluded, given);
    let fetched = with_projects(reg, versions);
    lemma_absorbed_same(mods, excluded, fetched);
    lemma_planned_sources(mods, excluded, candidates);
    // An edge that is looked up and leads to a mod leads to a taken project.
    assert forall|n: int|
        0 <= n < requests.len() && target(reg, #[trigger] requests[n]) is Some implies taken(
        mods,
        excluded,
        target(reg, requests[n])->0.project_id,
    ) by {
        let entry = target(reg, requests[n])->0;
        let version = answer(reg, requests[n])->Ok_0;
        assert(candidates.contains(requests[n]));
        let c = choose|c: int| 0 <= c < candidates.len() && candidates[c] == requests[n];
        assert(version.project_id == entry.project_id) by {
            assert(target(reg, edges(mods)[c]) is Some);
        }
        assert(given[n] == Ok::<VersionView, ModErrorView>(version));
        if !taken(mods, excluded, version.project_id) {
            lemma_selected_covers(mods, excluded, given, n);
            let k = choose|k: int| 0 <= k < versions.len() && versions[k] == version;
            assert(!(arrival(mods, excluded, fetched[k].0, fetched[k].1) is Entry));
        }
    }
    assert forall|c: int| 0 <= c < edges(mods).len() implies match target(
        reg,
        #[trigger] edges(mods)[c],
    ) {
        Some(entry) => taken(mods, excluded, entry.project_id),
        None => true,
    } by {
        let edge = candidates[c];
        if target(reg, edge) is Some {
            let entry = target(reg, edge)->0;
            lemma_planned_covers(mods, excluded, candidates, c);
            if stood_for(requests, edge) {
                match edge.project_id {
                    Some(project) => {
                        let n = choose|n: int|
                            0 <= n < requests.len() && #[trigger] requests[n].project_id == Some(
                                project,
                            );
                        assert(candidates.contains(requests[n]));
                        let d = choose|d: int|
                            0 <= d < candidates.len() && candidates[d] == requests[n];
                        assert(edges(mods)[c].project_id == edges(mods)[d].project_id);
                        assert(target(reg, edges(mods)[d]) is Some);
                        assert(target(reg, requests[n])->0.project_id == project);
                    },
                    None => {
                        let version = edge.version_id->0;
                        let n = choose|n: int|
                            0 <= n < requests.len() && (#[trigger] requests[n]).project_id is None
                                && requests[n].version_id == Some(version);
                        assert(lookup_for(requests[n]) == lookup_for(edge));
                        assert(target(reg, requests[n]) == target(reg, edge));
                    },
                }
            }
        }
    }
}

/// Each mod that a pass adds is led to by an edge of a mod that was there
/// before. Gives the place of that mod.
pub proof fn lemma_new_mod_parent(
    reg: Registry,
    mods: Seq<ModView>,
    excluded: Seq<Seq<char>>,
    i: int,
) -> (a: int)
    requires
        mods.len() <= i < pass(reg, mods, excluded).len(),
    ensures
        0 <= a < mods.len(),
        leads_to(reg, mods[a], pass(reg, mods, excluded)[i]),
{
    let candidates = edges(mods);
    let requests = planned(mods, excluded, candidates);
    let given = answers(reg, requests);
    let versions = selected(mods, excluded, given);
    let fetched = with_projects(reg, versions);
    let after = pass(reg, mods, excluded);
    lemma_absorbed_sources(mods, excluded, fetched);
    lemma_planned_sources(mods, excluded, candidates);
    lemma_selected_sources(mods, excluded, given);
    assert(joined_from(mods, excluded, fetched, after[i]));
    let k = choose|k: int|
        0 <= k < fetched.len() && arrival(mods, excluded, (#[trigger] fetched[k]).0, fetched[k].1)
            == Arrival::Entry(after[i]);
    let version = versions[k];
    assert(given.contains(Ok(version)));
    let n = choose|n: int|
        0 <= n < given.len() && given[n] == Ok::<VersionView, ModErrorView>(version);
    assert(candidates.contains(requests[n]));
    let c = choose|c: int| 0 <= c < candidates.len() && candidates[c] == requests[n];
    let a = lemma_edges_sources(mods, c);
    assert(target(reg, candidates[c]) == Some(after[i]));
    a
}

/// A pass adds no mod that nothing leads to: where each mod behind the
/// roots was led to by one before it, that is so after the pass too.
pub proof fn lemma_pass_stays_grounded(
    reg: Registry,
    mods: Seq<ModView>,
    excluded: Seq<Seq<char>>,
    roots: int,
)
    requires
        0 <= roots <= mods.len(),
        grounded(reg, mods, roots),
    ensures
        grounded(reg, pass(reg, mods, excluded), roots),
{
    let after = pass(reg, mods, excluded);
    lemma_pass_keeps_set(reg, mods, excluded);
    assert forall|i: int| roots <= i < after.len() implies #[trigger] has_parent(
        reg,
        after,
        i,
    ) by {
        if i < mods.len() {
            assert(has_parent(reg, mods, i));
            let a = choose|a: int| 0 <= a < i && leads_to(reg, #[trigger] mods[a], mods[i]);
            assert(after.take(mods.len() as int)[a] == after[a]);
            assert(after.take(mods.len() as int)[i] == after[i]);
            assert(leads_to(reg, after[a], after[i]));
        } else {
            let a = lemma_new_mod_parent(reg, mods, excluded, i);
            assert(after.take(mods.len() as int)[a] == after[a]);
            assert(leads_to(reg, after[a], after[i]));
        }
    }
}

/// What a pass adds to the set that the pass before it left is led to by
/// what that pass added: an edge of an older mod brings nothing that it did
/// not bring the first time. Gives the place of the mod that leads there.
pub proof fn lemma_new_mods_lead_on(
    reg: Registry,
    earlier: Seq<ModView>,
    excluded: Seq<Seq<char>>,
    i: int,
) -> (a: int)
    requires
        pass(reg, earlier, excluded).len() <= i < pass(
            reg,
            pass(reg, earlier, excluded),
            excluded,
        ).len(),
    ensures
        earlier.len() <= a < pass(reg, earlier, excluded).len(),
        leads_to(
            reg,
            pass(reg, earlier, excluded)[a],
            pass(reg, pass(reg, earlier, excluded), excluded)[i],
        ),
{
    let first_requests = planned(earlier, excluded, edges(earlier));
    let first_given = answers(reg, first_requests);
    let first_versions = selected(earlier, excluded, first_given);
    let first_fetched = with_projects(reg, first_versions);
    let mods = pass(reg, earlier, excluded);
    let candidates = edges(mods);
    let requests = planned(mods, excluded, candidates);
    let given = answers(reg, requests);
    let versions = selected(mods, excluded, given);
    let fetched = with_projects(reg, versions);
    let after = pass(reg, mods, excluded);
    let entry = after[i];

    lemma_absorbed_sources(mods, excluded, fetched);
    assert(joined_from(mods, excluded, fetched, entry));
    let k = choose|k: int|
        0 <= k < fetched.len() && arrival(mods, excluded, (#[trigger] fetched[k]).0, fetched[k].1)
            == Arrival::Entry(entry);
    let version = versions[k];
    lemma_selected_sources(mods, excluded, given);
    assert(given.contains(Ok(version)));
    let n = choose|n: int|
        0 <= n < given.len() && given[n] == Ok::<VersionView, ModErrorView>(version);
    let edge = requests[n];
    lemma_planned_places(mods, excluded, candidates);
    assert(kept_somewhere(mods, excluded, candidates, edge));
    let c = choose|c: int|
        0 <= c < candidates.len() && #[trigger] candidates[c] == edge && kept_at(
            mods,
            excluded,
            candidates,
            c,
        );
    assert(target(reg, edge) == Some(entry));

    lemma_pass_keeps_set(reg, earlier, excluded);
    let old = earlier.len() as int;
    lemma_covers_prefix(mods, old);
    lemma_edges_prefix(mods, old);
    let old_edges = edges(earlier);
    if c < old_edges.len() {
        lemma_kept_earlier(mods, earlier, excluded, candidates, c);
        assert(old_edges.take(c) =~= candidates.take(c));
        assert(old_edges[c] == candidates[c]);
        lemma_kept_is_planned(earlier, excluded, old_edges, c);
        let m = choose|m: int| 0 <= m < first_requests.len() && first_requests[m] == edge;
        assert(first_given[m] == Ok::<VersionView, ModErrorView>(version));
        if taken(earlier, excluded, version.project_id) {
            lemma_taken_grows(mods, earlier, excluded, version.project_id);
        }
        lemma_selected_covers(earlier, excluded, first_given, m);
        let j = choose|j: int| 0 <= j < first_versions.len() && first_versions[j] == version;
        assert(first_fetched[j] == fetched[k]);
        lemma_absorbed_settles(earlier, excluded, first_fetched);
        assert(false);
    }
    let a = lemma_late_edge_source(mods, old, c);
    assert(leads_to(reg, mods[a], entry));
    a
}

} // verus!
