//! Closing a set of mods under their required dependencies.
//!
//! The set grows in passes. A pass plans which edges to look up, takes the
//! registry's answers, picks the versions that bring something new, takes
//! the projects of those, and joins each pair into a mod. The caller asks
//! the registry; each function here decides what to ask and what to keep.
//! A pass that adds nothing ends the work.

use crate::modrinth::{
    entry_of, no_file_message, DependencyView, Mod, ModError, ModErrorView, ModView, Project,
    ProjectView, RequiredDependency, Version, VersionView,
};
use vstd::prelude::*;

verus! {

/// Whether one of `mods` belongs to `project`.
pub open spec fn has_project(mods: Seq<ModView>, project: Seq<char>) -> bool {
    exists|i: int| 0 <= i < mods.len() && #[trigger] mods[i].project_id == project
}

/// Whether no project has two mods among `mods`.
pub open spec fn distinct_projects(mods: Seq<ModView>) -> bool {
    forall|i: int, j: int|
        0 <= i < j < mods.len() ==> #[trigger] mods[i].project_id != #[trigger] mods[j].project_id
}

/// Whether `project` needs no mod: it has one, or the caller has ruled it
/// out.
pub open spec fn taken(mods: Seq<ModView>, excluded: Seq<Seq<char>>, project: Seq<char>) -> bool {
    has_project(mods, project) || excluded.contains(project)
}

/// Whether one of `edges` names `project`.
pub open spec fn names_project(edges: Seq<DependencyView>, project: Seq<char>) -> bool {
    exists|k: int| 0 <= k < edges.len() && #[trigger] edges[k].project_id == Some(project)
}

/// Whether one of `edges` names `version` and no project.
pub open spec fn names_version(edges: Seq<DependencyView>, version: Seq<char>) -> bool {
    exists|k: int|
        0 <= k < edges.len() && (#[trigger] edges[k]).project_id is None && edges[k].version_id
            == Some(version)
}

/// The request that settles an edge.
#[derive(Debug)]
pub enum Lookup {
    /// Ask for the version with this id.
    ByVersion(String),
    /// Ask for the versions of the project with this id that meet the
    /// query, and take the first.
    ByProject(String),
}

/// Mathematical value of a [`Lookup`].
pub enum LookupView {
    ByVersion(Seq<char>),
    ByProject(Seq<char>),
}

impl View for Lookup {
    type V = LookupView;

    open spec fn view(&self) -> LookupView {
        match *self {
            Lookup::ByVersion(id) => LookupView::ByVersion(id@),
            Lookup::ByProject(id) => LookupView::ByProject(id@),
        }
    }
}

/// The request that settles `edge`: by its version where it names one, else
/// by its project; none where it names neither.
pub open spec fn lookup_for(edge: DependencyView) -> Option<LookupView> {
    match edge.version_id {
        Some(version) => Some(LookupView::ByVersion(version)),
        None => match edge.project_id {
            Some(project) => Some(LookupView::ByProject(project)),
            None => None,
        },
    }
}

/// The error for an edge that names neither a version nor a project.
pub open spec fn no_dependency() -> ModErrorView {
    ModErrorView::NoDependency("Could not resolve dependency"@)
}

impl RequiredDependency {
    /// Says how this edge is settled. An edge that names neither a version
    /// nor a project cannot be settled.
    pub fn lookup(&self) -> (res: Result<Lookup, ModError>)
        ensures
            match lookup_for(self@) {
                Some(request) => res matches Ok(l) && l@ == request,
                None => res matches Err(e) && e@ == no_dependency(),
            },
    {
        match self.version_id() {
            Some(v) => Ok(Lookup::ByVersion(v.clone())),
            None => match self.project_id() {
                Some(p) => Ok(Lookup::ByProject(p.clone())),
                None => Err(ModError::NoDependency("Could not resolve dependency".to_owned())),
            },
        }
    }
}

/// Looks for a mod of `project` among `mods`.
fn has_project_id(mods: &Vec<Mod>, project: &String) -> (res: bool)
    ensures
        res == has_project(mods.deep_view(), project@),
{
    let mut i: usize = 0;
    while i < mods.len()
        invariant
            i <= mods.len(),
            forall|k: int| 0 <= k < i ==> mods.deep_view()[k].project_id != project@,
        decreases mods.len() - i,
    {
        if mods[i] == *project {
            assert(mods.deep_view()[i as int].project_id == project@);
            return true;
        }
        i += 1;
    }
    false
}

/// Looks for `project` among the projects that the caller has ruled out.
fn is_excluded(excluded: &Vec<String>, project: &String) -> (res: bool)
    ensures
        res == excluded.deep_view().contains(project@),
{
    let mut i: usize = 0;
    while i < excluded.len()
        invariant
            i <= excluded.len(),
            forall|k: int| 0 <= k < i ==> excluded.deep_view()[k] != project@,
        decreases excluded.len() - i,
    {
        if excluded[i] == *project {
            assert(excluded.deep_view()[i as int] == project@);
            return true;
        }
        i += 1;
    }
    false
}

/// Whether `project` needs no mod.
fn is_taken(mods: &Vec<Mod>, excluded: &Vec<String>, project: &String) -> (res: bool)
    ensures
        res == taken(mods.deep_view(), excluded.deep_view(), project@),
{
    has_project_id(mods, project) || is_excluded(excluded, project)
}

/// Looks for an edge to `project` among `edges`.
fn is_named_project(edges: &Vec<RequiredDependency>, project: &String) -> (res: bool)
    ensures
        res == names_project(edges.deep_view(), project@),
{
    let mut k: usize = 0;
    while k < edges.len()
        invariant
            k <= edges.len(),
            forall|n: int| 0 <= n < k ==> edges.deep_view()[n].project_id != Some(project@),
        decreases edges.len() - k,
    {
        match edges[k].project_id() {
            Some(p) => {
                if *p == *project {
                    assert(edges.deep_view()[k as int].project_id == Some(project@));
                    return true;
                }
            },
            None => {},
        }
        k += 1;
    }
    false
}

/// Looks for an edge to `version` that names no project among `edges`.
fn is_named_version(edges: &Vec<RequiredDependency>, version: &String) -> (res: bool)
    ensures
        res == names_version(edges.deep_view(), version@),
{
    let mut k: usize = 0;
    while k < edges.len()
        invariant
            k <= edges.len(),
            forall|n: int|
                0 <= n < k ==> !((#[trigger] edges.deep_view()[n]).project_id is None
                    && edges.deep_view()[n].version_id == Some(version@)),
        decreases edges.len() - k,
    {
        if edges[k].project_id().is_none() {
            match edges[k].version_id() {
                Some(v) => {
                    if *v == *version {
                        assert(edges.deep_view()[k as int].version_id == Some(version@));
                        return true;
                    }
                },
                None => {},
            }
        }
        k += 1;
    }
    false
}

/// All edges that lead on from `mods`, mod by mod.
pub open spec fn edges(mods: Seq<ModView>) -> Seq<DependencyView>
    decreases mods.len(),
{
    if mods.len() == 0 {
        Seq::empty()
    } else {
        edges(mods.drop_last()) + mods.last().dependencies
    }
}

/// Whether `edge` is worth a request, given the edges `kept` that are
/// planned already. One that names a project is, unless the project is
/// taken or an edge to it is planned. One that names only a version is,
/// unless an edge to that version is planned. One that names neither is
/// not.
pub open spec fn wanted(
    mods: Seq<ModView>,
    excluded: Seq<Seq<char>>,
    kept: Seq<DependencyView>,
    edge: DependencyView,
) -> bool {
    match edge.project_id {
        Some(project) => !taken(mods, excluded, project) && !names_project(kept, project),
        None => match edge.version_id {
            Some(version) => !names_version(kept, version),
            None => false,
        },
    }
}

/// The edges among `candidates` that a pass looks up, in their order.
pub open spec fn planned(
    mods: Seq<ModView>,
    excluded: Seq<Seq<char>>,
    candidates: Seq<DependencyView>,
) -> Seq<DependencyView>
    decreases candidates.len(),
{
    if candidates.len() == 0 {
        Seq::empty()
    } else {
        let kept = planned(mods, excluded, candidates.drop_last());
        if wanted(mods, excluded, kept, candidates.last()) {
            kept.push(candidates.last())
        } else {
            kept
        }
    }
}

/// One error for each of `candidates` that names neither a version nor a
/// project.
pub open spec fn unresolvable(candidates: Seq<DependencyView>) -> Seq<ModErrorView>
    decreases candidates.len(),
{
    if candidates.len() == 0 {
        Seq::empty()
    } else if lookup_for(candidates.last()) is None {
        unresolvable(candidates.drop_last()).push(no_dependency())
    } else {
        unresolvable(candidates.drop_last())
    }
}

/// An edge that names neither a version nor a project is set apart: it is
/// reported once, and the edges around it are planned as if it were not
/// there.
pub proof fn lemma_unsettled_edge_is_isolated(
    mods: Seq<ModView>,
    excluded: Seq<Seq<char>>,
    before: Seq<DependencyView>,
    edge: DependencyView,
    after: Seq<DependencyView>,
)
    requires
        lookup_for(edge) is None,
    ensures
        planned(mods, excluded, before.push(edge) + after) == planned(
            mods,
            excluded,
            before + after,
        ),
        unresolvable(before.push(edge) + after) == unresolvable(before + after).push(
            no_dependency(),
        ),
    decreases after.len(),
{
    let with = before.push(edge) + after;
    let without = before + after;
    if after.len() == 0 {
        assert(with.drop_last() =~= before);
        assert(without =~= before);
    } else {
        lemma_unsettled_edge_is_isolated(mods, excluded, before, edge, after.drop_last());
        assert(with.drop_last() =~= before.push(edge) + after.drop_last());
        assert(without.drop_last() =~= before + after.drop_last());
        assert(with.last() == without.last());
    }
}

/// A plan asks for nothing twice and for nothing in vain: each planned edge
/// can be settled, none names a project that is taken, and no two of them
/// name the same project or, naming none, the same version.
pub proof fn lemma_plan_is_frugal(
    mods: Seq<ModView>,
    excluded: Seq<Seq<char>>,
    candidates: Seq<DependencyView>,
)
    ensures
        forall|k: int|
            0 <= k < planned(mods, excluded, candidates).len() ==> {
                let edge = #[trigger] planned(mods, excluded, candidates)[k];
                &&& lookup_for(edge) is Some
                &&& edge.project_id matches Some(project) ==> !taken(mods, excluded, project)
            },
        forall|k: int, n: int|
            0 <= k < n < planned(mods, excluded, candidates).len() ==> {
                let first = #[trigger] planned(mods, excluded, candidates)[k];
                let second = #[trigger] planned(mods, excluded, candidates)[n];
                if second.project_id is Some {
                    first.project_id != second.project_id
                } else {
                    first.project_id is Some || first.version_id != second.version_id
                }
            },
    decreases candidates.len(),
{
    if candidates.len() != 0 {
        lemma_plan_is_frugal(mods, excluded, candidates.drop_last());
        let kept = planned(mods, excluded, candidates.drop_last());
        let all = planned(mods, excluded, candidates);
        let last = candidates.last();
        if wanted(mods, excluded, kept, last) {
            assert forall|k: int, n: int| 0 <= k < n < all.len() implies {
                let first = #[trigger] all[k];
                let second = #[trigger] all[n];
                if second.project_id is Some {
                    first.project_id != second.project_id
                } else {
                    first.project_id is Some || first.version_id != second.version_id
                }
            } by {
                if n == kept.len() {
                    assert(all[k] == kept[k]);
                } else {
                    assert(all[k] == kept[k] && all[n] == kept[n]);
                }
            }
        }
    }
}

/// Opens a pass: lists the edges of `mods` that have to be looked up, each
/// project and each bare version once, and none that leads to a project
/// that is taken. Edges that cannot be settled are reported, one error
/// each, and hold up nothing else.
pub fn plan_lookups(mods: &Vec<Mod>, excluded: &Vec<String>) -> (res: (
    Vec<RequiredDependency>,
    Vec<ModError>,
))
    ensures
        res.0.deep_view() == planned(
            mods.deep_view(),
            excluded.deep_view(),
            edges(mods.deep_view()),
        ),
        res.1.deep_view() == unresolvable(edges(mods.deep_view())),
{
    let ghost mv = mods.deep_view();
    let ghost ex = excluded.deep_view();
    let mut kept: Vec<RequiredDependency> = Vec::new();
    let mut errors: Vec<ModError> = Vec::new();
    let mut i: usize = 0;
    while i < mods.len()
        invariant
            i <= mods.len(),
            mv == mods.deep_view(),
            ex == excluded.deep_view(),
            kept.deep_view() == planned(mv, ex, edges(mv.take(i as int))),
            errors.deep_view() == unresolvable(edges(mv.take(i as int))),
        decreases mods.len() - i,
    {
        let deps = mods[i].dependencies();
        let ghost base = edges(mv.take(i as int));
        let ghost dv = deps.deep_view();
        assert(dv == mv[i as int].dependencies);
        assert(base + dv.take(0) =~= base);
        let mut j: usize = 0;
        while j < deps.len()
            invariant
                j <= deps.len(),
                mv == mods.deep_view(),
                ex == excluded.deep_view(),
                dv == deps.deep_view(),
                kept.deep_view() == planned(mv, ex, base + dv.take(j as int)),
                errors.deep_view() == unresolvable(base + dv.take(j as int)),
            decreases deps.len() - j,
        {
            let dep = &deps[j];
            let ghost kept_before = kept.deep_view();
            let ghost errors_before = errors.deep_view();
            proof {
                let cands = base + dv.take(j + 1);
                assert(cands.drop_last() =~= base + dv.take(j as int));
                assert(cands.last() == dep@);
            }
            match dep.project_id() {
                Some(project) => {
                    if !is_taken(mods, excluded, project) && !is_named_project(&kept, project) {
                        kept.push(dep.clone());
                        assert(kept.deep_view() =~= kept_before.push(dep@));
                    }
                },
                None => match dep.version_id() {
                    Some(version) => {
                        if !is_named_version(&kept, version) {
                            kept.push(dep.clone());
                            assert(kept.deep_view() =~= kept_before.push(dep@));
                        }
                    },
                    None => {
                        let e = ModError::NoDependency("Could not resolve dependency".to_owned());
                        errors.push(e);
                        assert(errors.deep_view() =~= errors_before.push(no_dependency()));
                    },
                },
            }
            j += 1;
        }
        proof {
            assert(dv.take(deps.len() as int) =~= dv);
            assert(mv.take(i + 1).drop_last() =~= mv.take(i as int));
            assert(mv.take(i + 1).last() == mv[i as int]);
        }
        i += 1;
    }
    assert(mv.take(mods.len() as int) =~= mv);
    (kept, errors)
}

/// The registry's answers to a pass's requests, by their values.
pub open spec fn answer_views(answers: Seq<Result<Version, ModError>>) -> Seq<
    Result<VersionView, ModErrorView>,
> {
    Seq::new(
        answers.len(),
        |i: int|
            match answers[i] {
                Ok(version) => Ok(version@),
                Err(e) => Err(e@),
            },
    )
}

/// The versions among `answers` whose project is not taken, in their order.
pub open spec fn selected(
    mods: Seq<ModView>,
    excluded: Seq<Seq<char>>,
    answers: Seq<Result<VersionView, ModErrorView>>,
) -> Seq<VersionView>
    decreases answers.len(),
{
    if answers.len() == 0 {
        Seq::empty()
    } else {
        let before = selected(mods, excluded, answers.drop_last());
        match answers.last() {
            Ok(version) => if taken(mods, excluded, version.project_id) {
                before
            } else {
                before.push(version)
            },
            Err(_) => before,
        }
    }
}

/// The errors among `answers`, in their order.
pub open spec fn refusals(answers: Seq<Result<VersionView, ModErrorView>>) -> Seq<ModErrorView>
    decreases answers.len(),
{
    if answers.len() == 0 {
        Seq::empty()
    } else {
        match answers.last() {
            Ok(_) => refusals(answers.drop_last()),
            Err(e) => refusals(answers.drop_last()).push(e),
        }
    }
}

/// Whether the version that settles an edge brings a project that is not
/// taken yet.
pub fn check_dep_against(dep_ver: &Version, mods: &Vec<Mod>, excluded: &Vec<String>) -> (res:
    bool)
    ensures
        res == !taken(mods.deep_view(), excluded.deep_view(), dep_ver@.project_id),
{
    !is_taken(mods, excluded, dep_ver.project_id())
}

/// Takes the registry's answers to the requests of a pass. Keeps each
/// version whose project is not taken: those are the ones whose project is
/// fetched next. An answer that is an error is reported and holds up none
/// of the others.
pub fn select_versions(
    mods: &Vec<Mod>,
    excluded: &Vec<String>,
    answers: Vec<Result<Version, ModError>>,
) -> (res: (Vec<Version>, Vec<ModError>))
    ensures
        res.0.deep_view() == selected(
            mods.deep_view(),
            excluded.deep_view(),
            answer_views(answers@),
        ),
        res.1.deep_view() == refusals(answer_views(answers@)),
{
    let ghost all = answer_views(answers@);
    let ghost mv = mods.deep_view();
    let ghost ex = excluded.deep_view();
    let mut versions: Vec<Version> = Vec::new();
    let mut errors: Vec<ModError> = Vec::new();
    for answer in it: answers
        invariant
            all == answer_views(it.seq()),
            mv == mods.deep_view(),
            ex == excluded.deep_view(),
            versions.deep_view() == selected(mv, ex, all.take(it.index() as int)),
            errors.deep_view() == refusals(all.take(it.index() as int)),
    {
        let ghost versions_before = versions.deep_view();
        let ghost errors_before = errors.deep_view();
        assert(all.take(it.index() + 1).drop_last() =~= all.take(it.index() as int));
        match answer {
            Ok(version) => {
                if check_dep_against(&version, mods, excluded) {
                    versions.push(version);
                    assert(versions.deep_view() =~= versions_before.push(version@));
                }
            },
            Err(e) => {
                errors.push(e);
                assert(errors.deep_view() =~= errors_before.push(e@));
            },
        }
    }
    assert(all.take(all.len() as int) =~= all);
    (versions, errors)
}

/// What a version and the registry's answer for its project bring to a set.
pub enum Arrival {
    /// A mod for a project that the set lacks.
    Entry(ModView),
    /// Nothing: the project is taken. Nothing is reported either.
    Known,
    /// Nothing but an error.
    Failed(ModErrorView),
}

/// What `version` brings to `mods`, where the registry answered the request
/// for its project with `project`. The project that the version names is
/// tested first; the project that the mod would belong to is tested too, so
/// that no answer of the registry can give a project two mods.
pub open spec fn arrival(
    mods: Seq<ModView>,
    excluded: Seq<Seq<char>>,
    version: VersionView,
    project: Result<ProjectView, ModErrorView>,
) -> Arrival {
    if taken(mods, excluded, version.project_id) {
        Arrival::Known
    } else {
        match project {
            Err(e) => Arrival::Failed(e),
            Ok(p) => match entry_of(p, version) {
                None => Arrival::Failed(ModErrorView::NoFile(no_file_message(p.title))),
                Some(entry) => if taken(mods, excluded, entry.project_id) {
                    Arrival::Known
                } else {
                    Arrival::Entry(entry)
                },
            },
        }
    }
}

/// The versions of a pass with the registry's answers for their projects,
/// by their values.
pub open spec fn fetch_views(fetched: Seq<(Version, Result<Project, ModError>)>) -> Seq<
    (VersionView, Result<ProjectView, ModErrorView>),
> {
    Seq::new(
        fetched.len(),
        |i: int|
            (
                fetched[i].0@,
                match fetched[i].1 {
                    Ok(project) => Ok(project@),
                    Err(e) => Err(e@),
                },
            ),
    )
}

/// The set after the arrivals of `fetched`, one after the other: of two
/// versions of one project, the first one stays.
pub open spec fn absorbed(
    mods: Seq<ModView>,
    excluded: Seq<Seq<char>>,
    fetched: Seq<(VersionView, Result<ProjectView, ModErrorView>)>,
) -> Seq<ModView>
    decreases fetched.len(),
{
    if fetched.len() == 0 {
        mods
    } else {
        let before = absorbed(mods, excluded, fetched.drop_last());
        match arrival(before, excluded, fetched.last().0, fetched.last().1) {
            Arrival::Entry(entry) => before.push(entry),
            _ => before,
        }
    }
}

/// The errors of the arrivals of `fetched`, in their order.
pub open spec fn failed_arrivals(
    mods: Seq<ModView>,
    excluded: Seq<Seq<char>>,
    fetched: Seq<(VersionView, Result<ProjectView, ModErrorView>)>,
) -> Seq<ModErrorView>
    decreases fetched.len(),
{
    if fetched.len() == 0 {
        Seq::empty()
    } else {
        let before = absorbed(mods, excluded, fetched.drop_last());
        let errors = failed_arrivals(mods, excluded, fetched.drop_last());
        match arrival(before, excluded, fetched.last().0, fetched.last().1) {
            Arrival::Failed(e) => errors.push(e),
            _ => errors,
        }
    }
}

/// What a pass did to the set.
#[derive(Debug)]
pub struct PassReport {
    /// How many mods the pass added.
    pub new_deps: usize,
    /// What went wrong on the way; each error cost one edge and no more.
    pub errors: Vec<ModError>,
}

impl PassReport {
    /// Whether another pass is due: it is, as long as a pass adds a mod.
    pub fn again(&self) -> (res: bool)
        ensures
            res == (self.new_deps > 0),
    {
        self.new_deps > 0
    }
}

/// Closes a pass: joins each version with its project and adds the mod to
/// `mods`, unless its project is taken by then. A version whose project the
/// registry did not give, or which has no file, is reported and adds
/// nothing. The mods that were there stay as they are, in their places.
pub fn resolve_dependencies(
    mods: &mut Vec<Mod>,
    excluded: &Vec<String>,
    fetched: Vec<(Version, Result<Project, ModError>)>,
) -> (res: PassReport)
    ensures
        final(mods).deep_view() == absorbed(
            old(mods).deep_view(),
            excluded.deep_view(),
            fetch_views(fetched@),
        ),
        res.errors.deep_view() == failed_arrivals(
            old(mods).deep_view(),
            excluded.deep_view(),
            fetch_views(fetched@),
        ),
        res.new_deps == final(mods).len() - old(mods).len(),
        final(mods).deep_view().take(old(mods).len() as int) == old(mods).deep_view(),
        distinct_projects(old(mods).deep_view()) ==> distinct_projects(final(mods).deep_view()),
{
    let ghost start = mods.deep_view();
    let ghost ex = excluded.deep_view();
    let ghost all = fetch_views(fetched@);
    let first_len = mods.len();
    let mut errors: Vec<ModError> = Vec::new();
    for pair in it: fetched
        invariant
            all == fetch_views(it.seq()),
            ex == excluded.deep_view(),
            first_len == start.len(),
            mods.deep_view() == absorbed(start, ex, all.take(it.index() as int)),
            errors.deep_view() == failed_arrivals(start, ex, all.take(it.index() as int)),
    {
        let ghost mods_before = mods.deep_view();
        let ghost errors_before = errors.deep_view();
        assert(all.take(it.index() + 1).drop_last() =~= all.take(it.index() as int));
        let (version, project) = pair;
        if !is_taken(mods, excluded, version.project_id()) {
            match project {
                Ok(project) => {
                    match Mod::build_from_version(project, version) {
                        Ok(entry) => {
                            if !is_taken(mods, excluded, entry.project_id()) {
                                mods.push(entry);
                                assert(mods.deep_view() =~= mods_before.push(entry@));
                            }
                        },
                        Err(e) => {
                            errors.push(e);
                            assert(errors.deep_view() =~= errors_before.push(e@));
                        },
                    }
                },
                Err(e) => {
                    errors.push(e);
                    assert(errors.deep_view() =~= errors_before.push(e@));
                },
            }
        }
    }
    proof {
        assert(all.take(all.len() as int) =~= all);
        lemma_absorbed_extends(start, ex, all);
        lemma_absorbed_distinct(start, ex, all);
    }
    PassReport { new_deps: mods.len() - first_len, errors }
}

/// A pass takes nothing away: the set it leaves begins with the set it
/// found.
pub proof fn lemma_absorbed_extends(
    mods: Seq<ModView>,
    excluded: Seq<Seq<char>>,
    fetched: Seq<(VersionView, Result<ProjectView, ModErrorView>)>,
)
    ensures
        mods.len() <= absorbed(mods, excluded, fetched).len() <= mods.len() + fetched.len(),
        absorbed(mods, excluded, fetched).take(mods.len() as int) == mods,
    decreases fetched.len(),
{
    if fetched.len() == 0 {
        assert(mods.take(mods.len() as int) =~= mods);
    } else {
        lemma_absorbed_extends(mods, excluded, fetched.drop_last());
        let before = absorbed(mods, excluded, fetched.drop_last());
        let after = absorbed(mods, excluded, fetched);
        assert(after.take(mods.len() as int) =~= before.take(mods.len() as int));
    }
}

/// A pass gives no project two mods, and no mod to a project that the
/// caller has ruled out.
pub proof fn lemma_absorbed_distinct(
    mods: Seq<ModView>,
    excluded: Seq<Seq<char>>,
    fetched: Seq<(VersionView, Result<ProjectView, ModErrorView>)>,
)
    ensures
        distinct_projects(mods) ==> distinct_projects(absorbed(mods, excluded, fetched)),
        forall|i: int|
            mods.len() <= i < absorbed(mods, excluded, fetched).len() ==> !excluded.contains(
                #[trigger] absorbed(mods, excluded, fetched)[i].project_id,
            ),
    decreases fetched.len(),
{
    if fetched.len() != 0 {
        lemma_absorbed_distinct(mods, excluded, fetched.drop_last());
        lemma_absorbed_extends(mods, excluded, fetched.drop_last());
        let before = absorbed(mods, excluded, fetched.drop_last());
        let after = absorbed(mods, excluded, fetched);
        match arrival(before, excluded, fetched.last().0, fetched.last().1) {
            Arrival::Entry(entry) => {
                assert(after == before.push(entry));
                assert(!has_project(before, entry.project_id));
                if distinct_projects(mods) {
                    assert forall|i: int, j: int| 0 <= i < j < after.len() implies after[i].project_id
                        != after[j].project_id by {
                        if j == before.len() {
                            assert(before[i].project_id != entry.project_id);
                        } else {
                            assert(before[i].project_id != before[j].project_id);
                        }
                    }
                }
            },
            _ => {},
        }
    }
}

/// The outcomes of the first lookups of a batch, by their values.
pub open spec fn outcome_views(results: Seq<Result<Mod, ModError>>) -> Seq<
    Result<ModView, ModErrorView>,
> {
    Seq::new(
        results.len(),
        |i: int|
            match results[i] {
                Ok(entry) => Ok(entry@),
                Err(e) => Err(e@),
            },
    )
}

/// The mods among `results`, in their order, the first one of each project.
pub open spec fn gathered(results: Seq<Result<ModView, ModErrorView>>) -> Seq<ModView>
    decreases results.len(),
{
    if results.len() == 0 {
        Seq::empty()
    } else {
        let before = gathered(results.drop_last());
        match results.last() {
            Ok(entry) => if has_project(before, entry.project_id) {
                before
            } else {
                before.push(entry)
            },
            Err(_) => before,
        }
    }
}

/// The errors among `results`, in their order.
pub open spec fn failed_lookups(results: Seq<Result<ModView, ModErrorView>>) -> Seq<ModErrorView>
    decreases results.len(),
{
    if results.len() == 0 {
        Seq::empty()
    } else {
        match results.last() {
            Ok(_) => failed_lookups(results.drop_last()),
            Err(e) => failed_lookups(results.drop_last()).push(e),
        }
    }
}

/// No project has two mods among those gathered.
pub proof fn lemma_gathered_distinct(results: Seq<Result<ModView, ModErrorView>>)
    ensures
        distinct_projects(gathered(results)),
    decreases results.len(),
{
    if results.len() != 0 {
        lemma_gathered_distinct(results.drop_last());
        let before = gathered(results.drop_last());
        let after = gathered(results);
        if after != before {
            let entry = results.last()->Ok_0;
            assert(after == before.push(entry));
            assert forall|i: int, j: int| 0 <= i < j < after.len() implies after[i].project_id
                != after[j].project_id by {
                if j == before.len() {
                    assert(before[i].project_id != entry.project_id);
                } else {
                    assert(before[i].project_id != before[j].project_id);
                }
            }
        }
    }
}

/// Makes the set that resolution starts from: the mods that were found for
/// the ids of a batch, one for each project. The lookups that failed are
/// handed back as errors; one that failed takes nothing from the others.
pub fn collect_mods(results: Vec<Result<Mod, ModError>>) -> (res: (Vec<Mod>, Vec<ModError>))
    ensures
        res.0.deep_view() == gathered(outcome_views(results@)),
        res.1.deep_view() == failed_lookups(outcome_views(results@)),
        distinct_projects(res.0.deep_view()),
{
    let ghost all = outcome_views(results@);
    let mut mods: Vec<Mod> = Vec::new();
    let mut errors: Vec<ModError> = Vec::new();
    for result in it: results
        invariant
            all == outcome_views(it.seq()),
            mods.deep_view() == gathered(all.take(it.index() as int)),
            errors.deep_view() == failed_lookups(all.take(it.index() as int)),
    {
        let ghost mods_before = mods.deep_view();
        let ghost errors_before = errors.deep_view();
        assert(all.take(it.index() + 1).drop_last() =~= all.take(it.index() as int));
        match result {
            Ok(entry) => {
                if !has_project_id(&mods, entry.project_id()) {
                    mods.push(entry);
                    assert(mods.deep_view() =~= mods_before.push(entry@));
                }
            },
            Err(e) => {
                errors.push(e);
                assert(errors.deep_view() =~= errors_before.push(e@));
            },
        }
    }
    proof {
        assert(all.take(all.len() as int) =~= all);
        lemma_gathered_distinct(all);
    }
    (mods, errors)
}

/// The versions among `answers`, in their order.
pub open spec fn granted(answers: Seq<Result<VersionView, ModErrorView>>) -> Seq<VersionView>
    decreases answers.len(),
{
    if answers.len() == 0 {
        Seq::empty()
    } else {
        match answers.last() {
            Ok(version) => granted(answers.drop_last()).push(version),
            Err(_) => granted(answers.drop_last()),
        }
    }
}

/// Keeps the versions that the registry gave and drops its refusals.
pub fn collect_versions(results: Vec<Result<Version, ModError>>) -> (res: Vec<Version>)
    ensures
        res.deep_view() == granted(answer_views(results@)),
{
    let ghost all = answer_views(results@);
    let mut out: Vec<Version> = Vec::new();
    for res in it: results
        invariant
            all == answer_views(it.seq()),
            out.deep_view() == granted(all.take(it.index() as int)),
    {
        let ghost before = out.deep_view();
        assert(all.take(it.index() + 1).drop_last() =~= all.take(it.index() as int));
        match res {
            Ok(v) => {
                out.push(v);
                assert(out.deep_view() =~= before.push(v@));
            },
            Err(_) => {},
        }
    }
    assert(all.take(all.len() as int) =~= all);
    out
}

} // verus!
