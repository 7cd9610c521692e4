use std::collections::HashMap;

use mcmodgetter::download::{DownloadStep, LocalFile};
use mcmodgetter::modrinth::{
    file_from_ver, get_top_version, required_dependencies, Dependency, FileVerification, Mod,
    ModError, ModrinthFile, ModrinthFileHash, Project, RequiredDependency, Version, VersionQuery,
};
use mcmodgetter::resolve::{
    check_dep_against, collect_mods, collect_versions, plan_lookups, resolve_dependencies,
    select_versions, Lookup, PassReport,
};

fn file(name: &str, primary: bool) -> ModrinthFile {
    ModrinthFile::new(
        format!("https://cdn.example/{name}"),
        name.to_string(),
        primary,
        ModrinthFileHash::new(vec![7u8; 64]),
    )
}

fn edge(version: Option<&str>, project: Option<&str>) -> RequiredDependency {
    RequiredDependency::from_dep(Dependency::new(
        version.map(str::to_string),
        project.map(str::to_string),
        "required".to_string(),
    ))
}

fn to_project(id: &str) -> RequiredDependency {
    edge(None, Some(id))
}

fn version(id: &str, project: &str, edges: Vec<RequiredDependency>) -> Version {
    Version::new(
        id.to_string(),
        project.to_string(),
        format!("{project} {id}"),
        format!("{id}-number"),
        vec![file(&format!("{project}-{id}.jar"), true)],
        edges,
    )
}

fn project(id: &str) -> Project {
    Project::new(id.to_string(), format!("Title of {id}"), format!("About {id}"))
}

fn entry(id: &str, edges: Vec<RequiredDependency>) -> Mod {
    Mod::build_from_version(project(id), version(&format!("{id}-v1"), id, edges)).unwrap()
}

/// A registry in memory, which counts what it is asked.
struct Registry {
    versions: HashMap<String, Version>,
    latest: HashMap<String, Vec<Version>>,
    projects: HashMap<String, Project>,
    version_requests: usize,
    project_requests: usize,
}

impl Registry {
    fn new() -> Self {
        Registry {
            versions: HashMap::new(),
            latest: HashMap::new(),
            projects: HashMap::new(),
            version_requests: 0,
            project_requests: 0,
        }
    }

    /// Adds a project with one version, which is also its latest.
    fn with(mut self, id: &str, edges: Vec<RequiredDependency>) -> Self {
        let v = version(&format!("{id}-v1"), id, edges);
        self.versions.insert(format!("{id}-v1"), v.clone());
        self.latest.insert(id.to_string(), vec![v]);
        self.projects.insert(id.to_string(), project(id));
        self
    }

    fn with_version(mut self, v: Version) -> Self {
        self.versions.insert(v.id().clone(), v);
        self
    }

    fn settle(&mut self, edge: &RequiredDependency) -> Result<Version, ModError> {
        self.version_requests += 1;
        match edge.lookup()? {
            Lookup::ByVersion(id) => match self.versions.get(&id) {
                Some(v) => Ok(v.clone()),
                None => Err(ModError::BadRequest(format!("no version {id}"))),
            },
            Lookup::ByProject(id) => match self.latest.get(&id) {
                Some(list) => get_top_version(list, &id),
                None => Err(ModError::BadRequest(format!("no project {id}"))),
            },
        }
    }

    fn project_of(&mut self, v: &Version) -> Result<Project, ModError> {
        self.project_requests += 1;
        match self.projects.get(v.project_id()) {
            Some(p) => Ok(Project::new(
                p.get_id().clone(),
                p.get_title().clone(),
                p.get_desc().clone(),
            )),
            None => Err(ModError::BadRequest(format!("no project {}", v.project_id()))),
        }
    }
}

/// One pass against the registry; the errors of the pass are added to `errors`.
fn pass(
    reg: &mut Registry,
    mods: &mut Vec<Mod>,
    excluded: &Vec<String>,
    errors: &mut Vec<ModError>,
) -> PassReport {
    let (requests, unresolved) = plan_lookups(mods, excluded);
    errors.extend(unresolved);
    let answers = requests.iter().map(|edge| reg.settle(edge)).collect();
    let (versions, refused) = select_versions(mods, excluded, answers);
    errors.extend(refused);
    let fetched = versions
        .into_iter()
        .map(|v| {
            let p = reg.project_of(&v);
            (v, p)
        })
        .collect();
    resolve_dependencies(mods, excluded, fetched)
}

/// Passes until one adds nothing. Gives the number of passes and the errors.
fn close(reg: &mut Registry, mods: &mut Vec<Mod>, excluded: &Vec<String>) -> (usize, Vec<ModError>) {
    let mut errors = Vec::new();
    let mut passes = 0;
    loop {
        passes += 1;
        assert!(passes < 100, "resolution does not end");
        let report = pass(reg, mods, excluded, &mut errors);
        let again = report.again();
        errors.extend(report.errors);
        if !again {
            return (passes, errors);
        }
    }
}

fn ids(mods: &Vec<Mod>) -> Vec<String> {
    mods.iter().map(|m| m.project_id().clone()).collect()
}

#[test]
fn a_chain_is_followed_to_its_end() {
    let mut reg = Registry::new()
        .with("A", vec![to_project("B")])
        .with("B", vec![to_project("C")])
        .with("C", Vec::new());
    let mut mods = vec![entry("A", vec![to_project("B")])];
    let (passes, errors) = close(&mut reg, &mut mods, &Vec::new());
    assert_eq!(ids(&mods), ["A", "B", "C"]);
    assert_eq!(passes, 3);
    assert!(errors.is_empty());
}

#[test]
fn a_closed_set_gains_nothing_from_another_run() {
    let mut reg = Registry::new()
        .with("A", vec![to_project("B")])
        .with("B", vec![to_project("C")])
        .with("C", Vec::new());
    let mut mods = vec![entry("A", vec![to_project("B")])];
    close(&mut reg, &mut mods, &Vec::new());
    let asked = reg.version_requests + reg.project_requests;
    let (passes, errors) = close(&mut reg, &mut mods, &Vec::new());
    assert_eq!(ids(&mods), ["A", "B", "C"]);
    assert_eq!(passes, 1);
    assert!(errors.is_empty());
    assert_eq!(reg.version_requests + reg.project_requests, asked);
}

#[test]
fn a_project_reached_twice_is_present_once() {
    let mut reg = Registry::new()
        .with("A", vec![to_project("B"), to_project("C")])
        .with("B", vec![to_project("D")])
        .with("C", vec![to_project("D")])
        .with("D", Vec::new());
    let mut mods = vec![entry("A", vec![to_project("B"), to_project("C")])];
    let (_, errors) = close(&mut reg, &mut mods, &Vec::new());
    assert_eq!(ids(&mods), ["A", "B", "C", "D"]);
    assert!(errors.is_empty());
    assert_eq!(reg.version_requests, 3);
    assert_eq!(reg.project_requests, 3);
}

#[test]
fn a_cycle_ends() {
    let mut reg = Registry::new()
        .with("A", vec![to_project("B")])
        .with("B", vec![to_project("A")]);
    let mut mods = vec![entry("A", vec![to_project("B")])];
    let (passes, errors) = close(&mut reg, &mut mods, &Vec::new());
    assert_eq!(ids(&mods), ["A", "B"]);
    assert_eq!(passes, 2);
    assert!(errors.is_empty());
}

#[test]
fn a_mod_that_depends_on_itself() {
    let mut reg = Registry::new().with("A", vec![to_project("A")]);
    let mut mods = vec![entry("A", vec![to_project("A")])];
    let (passes, _) = close(&mut reg, &mut mods, &Vec::new());
    assert_eq!(ids(&mods), ["A"]);
    assert_eq!(passes, 1);
    assert_eq!(reg.version_requests, 0);
}

#[test]
fn a_set_without_edges_is_closed() {
    let mut reg = Registry::new();
    let mut mods = vec![entry("A", Vec::new())];
    let (passes, errors) = close(&mut reg, &mut mods, &Vec::new());
    assert_eq!(ids(&mods), ["A"]);
    assert_eq!(passes, 1);
    assert!(errors.is_empty());
    let mut none: Vec<Mod> = Vec::new();
    close(&mut reg, &mut none, &Vec::new());
    assert!(none.is_empty());
}

#[test]
fn an_excluded_project_is_neither_asked_for_nor_added() {
    let mut reg = Registry::new()
        .with("A", vec![to_project("B"), to_project("C")])
        .with("B", vec![to_project("D")])
        .with("C", Vec::new())
        .with("D", Vec::new());
    let mut mods = vec![entry("A", vec![to_project("B"), to_project("C")])];
    let excluded = vec!["B".to_string()];
    let (_, errors) = close(&mut reg, &mut mods, &excluded);
    assert_eq!(ids(&mods), ["A", "C"]);
    assert!(errors.is_empty());
    assert_eq!(reg.version_requests, 1);
}

#[test]
fn an_excluded_project_behind_a_bare_version_is_not_added() {
    let mut reg = Registry::new().with("B", Vec::new());
    let mut mods = vec![entry("A", vec![edge(Some("B-v1"), None)])];
    let excluded = vec!["B".to_string()];
    close(&mut reg, &mut mods, &excluded);
    assert_eq!(ids(&mods), ["A"]);
    assert_eq!(reg.project_requests, 0);
}

#[test]
fn an_edge_that_names_nothing_is_reported_and_holds_up_nothing() {
    let mut reg = Registry::new().with("B", Vec::new()).with("C", Vec::new());
    let mut mods =
        vec![entry("A", vec![to_project("B"), edge(None, None), to_project("C")])];
    let mut errors = Vec::new();
    let report = pass(&mut reg, &mut mods, &Vec::new(), &mut errors);
    assert_eq!(ids(&mods), ["A", "B", "C"]);
    assert_eq!(report.new_deps, 2);
    assert!(report.errors.is_empty());
    assert_eq!(errors.len(), 1);
    assert!(
        matches!(&errors[0], ModError::NoDependency(msg) if msg == "Could not resolve dependency")
    );
    assert_eq!(reg.version_requests, 2);
}

#[test]
fn an_edge_that_names_nothing_cannot_be_looked_up() {
    match edge(None, None).lookup() {
        Err(ModError::NoDependency(msg)) => assert_eq!(msg, "Could not resolve dependency"),
        other => panic!("unexpected: {other:?}"),
    }
}

#[test]
fn an_edge_is_settled_by_its_version_where_it_names_one() {
    assert!(matches!(edge(Some("v"), Some("p")).lookup(), Ok(Lookup::ByVersion(id)) if id == "v"));
    assert!(matches!(edge(Some("v"), None).lookup(), Ok(Lookup::ByVersion(id)) if id == "v"));
    assert!(matches!(edge(None, Some("p")).lookup(), Ok(Lookup::ByProject(id)) if id == "p"));
}

#[test]
fn each_project_is_asked_for_once_in_a_pass() {
    let mods = vec![
        entry("A", vec![to_project("X"), edge(Some("X-v1"), Some("X"))]),
        entry("B", vec![to_project("X"), to_project("Y")]),
    ];
    let (requests, errors) = plan_lookups(&mods, &Vec::new());
    assert!(errors.is_empty());
    assert_eq!(requests.len(), 2);
    assert_eq!(requests[0].project_id(), &Some("X".to_string()));
    assert_eq!(requests[0].version_id(), &None);
    assert_eq!(requests[1].project_id(), &Some("Y".to_string()));
}

#[test]
fn each_bare_version_is_asked_for_once_in_a_pass() {
    let mods = vec![
        entry("A", vec![edge(Some("v1"), None), edge(Some("v2"), None)]),
        entry("B", vec![edge(Some("v1"), None), edge(Some("v1"), Some("P"))]),
    ];
    let (requests, _) = plan_lookups(&mods, &Vec::new());
    assert_eq!(requests.len(), 3);
    assert_eq!(requests[0].version_id(), &Some("v1".to_string()));
    assert_eq!(requests[1].version_id(), &Some("v2".to_string()));
    assert_eq!(requests[2].project_id(), &Some("P".to_string()));
}

#[test]
fn edges_to_present_projects_are_not_planned() {
    let mods = vec![entry("A", vec![to_project("B")]), entry("B", vec![to_project("A")])];
    let (requests, errors) = plan_lookups(&mods, &Vec::new());
    assert!(requests.is_empty());
    assert!(errors.is_empty());
}

#[test]
fn of_two_versions_of_one_project_the_first_stays() {
    let mut reg = Registry::new()
        .with("P", Vec::new())
        .with_version(version("P-old", "P", Vec::new()));
    let mut mods = vec![entry("A", vec![edge(Some("P-old"), None), edge(Some("P-v1"), None)])];
    let (_, errors) = close(&mut reg, &mut mods, &Vec::new());
    assert_eq!(ids(&mods), ["A", "P"]);
    assert_eq!(mods[1].version_id(), "P-old");
    assert!(errors.is_empty());
}

#[test]
fn a_refused_request_costs_one_edge() {
    let mut reg = Registry::new().with("C", Vec::new());
    let mut mods = vec![entry("A", vec![to_project("B"), to_project("C")])];
    let mut errors = Vec::new();
    pass(&mut reg, &mut mods, &Vec::new(), &mut errors);
    assert_eq!(ids(&mods), ["A", "C"]);
    assert_eq!(errors.len(), 1);
    assert!(matches!(&errors[0], ModError::BadRequest(msg) if msg == "no project B"));
}

#[test]
fn a_project_without_versions_costs_one_edge() {
    let mut reg = Registry::new().with("C", Vec::new());
    reg.latest.insert("B".to_string(), Vec::new());
    let mut mods = vec![entry("A", vec![to_project("B"), to_project("C")])];
    let mut errors = Vec::new();
    pass(&mut reg, &mut mods, &Vec::new(), &mut errors);
    assert_eq!(ids(&mods), ["A", "C"]);
    assert!(
        matches!(&errors[0], ModError::NoVersion(msg) if msg == "No version found for id B")
    );
}

#[test]
fn a_version_without_files_costs_one_edge() {
    let bare = Version::new(
        "B-v1".to_string(),
        "B".to_string(),
        "B 1".to_string(),
        "1".to_string(),
        Vec::new(),
        Vec::new(),
    );
    let mut mods = vec![entry("A", Vec::new())];
    let fetched = vec![
        (bare, Ok(project("B"))),
        (version("C-v1", "C", Vec::new()), Ok(project("C"))),
    ];
    let report = resolve_dependencies(&mut mods, &Vec::new(), fetched);
    assert_eq!(ids(&mods), ["A", "C"]);
    assert_eq!(report.new_deps, 1);
    assert!(report.again());
    assert_eq!(report.errors.len(), 1);
    assert!(matches!(
        &report.errors[0],
        ModError::NoFile(msg) if msg == "Couldn't find file for project Title of B"
    ));
}

#[test]
fn a_project_that_the_registry_does_not_give_costs_one_edge() {
    let mut mods = vec![entry("A", Vec::new())];
    let fetched = vec![
        (version("B-v1", "B", Vec::new()), Err(ModError::BadRequest("timeout".to_string()))),
        (version("C-v1", "C", Vec::new()), Ok(project("C"))),
    ];
    let report = resolve_dependencies(&mut mods, &Vec::new(), fetched);
    assert_eq!(ids(&mods), ["A", "C"]);
    assert!(matches!(&report.errors[0], ModError::BadRequest(msg) if msg == "timeout"));
}

#[test]
fn a_duplicate_within_a_pass_is_dropped_without_an_error() {
    let mut mods = vec![entry("A", Vec::new())];
    let fetched = vec![
        (version("B-v1", "B", Vec::new()), Ok(project("B"))),
        (version("B-v2", "B", Vec::new()), Err(ModError::BadRequest("late".to_string()))),
        (version("A-v9", "A", Vec::new()), Ok(project("A"))),
    ];
    let report = resolve_dependencies(&mut mods, &Vec::new(), fetched);
    assert_eq!(ids(&mods), ["A", "B"]);
    assert_eq!(mods[1].version_id(), "B-v1");
    assert_eq!(report.new_deps, 1);
    assert!(report.errors.is_empty());
}

#[test]
fn a_project_under_another_id_than_its_version_names_is_tested_too() {
    let mut mods = vec![entry("A", Vec::new())];
    let fetched = vec![(version("X-v1", "X", Vec::new()), Ok(project("A")))];
    let report = resolve_dependencies(&mut mods, &Vec::new(), fetched);
    assert_eq!(ids(&mods), ["A"]);
    assert_eq!(report.new_deps, 0);
    assert!(!report.again());
}

#[test]
fn a_pass_without_arrivals_adds_nothing() {
    let mut mods = vec![entry("A", Vec::new())];
    let report = resolve_dependencies(&mut mods, &Vec::new(), Vec::new());
    assert_eq!(report.new_deps, 0);
    assert!(!report.again());
    assert!(report.errors.is_empty());
    assert_eq!(ids(&mods), ["A"]);
}

#[test]
fn versions_of_taken_projects_are_not_selected() {
    let mods = vec![entry("A", Vec::new())];
    let excluded = vec!["E".to_string()];
    let answers = vec![
        Ok(version("A-v2", "A", Vec::new())),
        Err(ModError::BadRequest("first".to_string())),
        Ok(version("B-v1", "B", Vec::new())),
        Ok(version("E-v1", "E", Vec::new())),
        Ok(version("B-v2", "B", Vec::new())),
        Err(ModError::NoVersion("second".to_string())),
    ];
    let (versions, errors) = select_versions(&mods, &excluded, answers);
    let kept: Vec<&String> = versions.iter().map(|v| v.id()).collect();
    assert_eq!(kept, ["B-v1", "B-v2"]);
    assert_eq!(errors.len(), 2);
    assert!(matches!(&errors[0], ModError::BadRequest(msg) if msg == "first"));
    assert!(matches!(&errors[1], ModError::NoVersion(msg) if msg == "second"));
}

#[test]
fn a_version_is_checked_against_mods_and_exclusions() {
    let mods = vec![entry("A", Vec::new())];
    let excluded = vec!["E".to_string()];
    assert!(!check_dep_against(&version("v", "A", Vec::new()), &mods, &excluded));
    assert!(!check_dep_against(&version("v", "E", Vec::new()), &mods, &excluded));
    assert!(check_dep_against(&version("v", "B", Vec::new()), &mods, &excluded));
    assert!(check_dep_against(&version("v", "A", Vec::new()), &Vec::new(), &Vec::new()));
}

#[test]
fn granted_versions_are_collected_in_order() {
    let results = vec![
        Err(ModError::BadRequest("x".to_string())),
        Ok(version("v1", "A", Vec::new())),
        Ok(version("v2", "A", Vec::new())),
    ];
    let versions = collect_versions(results);
    let kept: Vec<&String> = versions.iter().map(|v| v.id()).collect();
    assert_eq!(kept, ["v1", "v2"]);
    assert!(collect_versions(Vec::new()).is_empty());
}

#[test]
fn the_first_set_holds_each_project_once() {
    let results = vec![
        Ok(entry("A", Vec::new())),
        Err(ModError::NoVersion("No version found for id Q".to_string())),
        Ok(entry("B", Vec::new())),
        Ok(Mod::build_from_version(project("A"), version("A-v2", "A", Vec::new())).unwrap()),
    ];
    let (mods, errors) = collect_mods(results);
    assert_eq!(ids(&mods), ["A", "B"]);
    assert_eq!(mods[0].version_id(), "A-v1");
    assert_eq!(errors.len(), 1);
    assert!(matches!(&errors[0], ModError::NoVersion(_)));
}

#[test]
fn only_required_dependencies_become_edges() {
    let listed = vec![
        Dependency::new(None, Some("opt".to_string()), "optional".to_string()),
        Dependency::new(Some("v".to_string()), Some("req".to_string()), "required".to_string()),
        Dependency::new(None, Some("inc".to_string()), "incompatible".to_string()),
        Dependency::new(None, None, "required".to_string()),
        Dependency::new(None, Some("emb".to_string()), "embedded".to_string()),
        Dependency::new(None, Some("cap".to_string()), "Required".to_string()),
    ];
    let edges = required_dependencies(listed);
    assert_eq!(edges.len(), 2);
    assert_eq!(edges[0].version_id(), &Some("v".to_string()));
    assert_eq!(edges[0].project_id(), &Some("req".to_string()));
    assert_eq!(edges[1].version_id(), &None);
    assert_eq!(edges[1].project_id(), &None);
    assert!(required_dependencies(Vec::new()).is_empty());
}

#[test]
fn a_mod_joins_its_project_and_its_version() {
    let v = Version::new(
        "7pwil2dy".to_string(),
        "AANobbMI".to_string(),
        "Sodium 0.7.3 for Fabric 1.21.8".to_string(),
        "mc1.21.8-0.7.3-fabric".to_string(),
        vec![file("sources.jar", false), file("sodium.jar", true)],
        vec![to_project("P7dR8mSH")],
    );
    let p = Project::new("AANobbMI".to_string(), "Sodium".to_string(), "Fast".to_string());
    let m = Mod::build_from_version(p, v).unwrap();
    assert_eq!(m.title(), "Sodium");
    assert_eq!(m.project_id(), "AANobbMI");
    assert_eq!(m.version_name(), "Sodium 0.7.3 for Fabric 1.21.8");
    assert_eq!(m.version_id(), "7pwil2dy");
    assert_eq!(m.filename(), "sodium.jar");
    assert_eq!(m.file().url(), "https://cdn.example/sodium.jar");
    assert!(*m.file().primary());
    assert_eq!(m.dependencies().len(), 1);
    assert_eq!(m.dependencies()[0].project_id(), &Some("P7dR8mSH".to_string()));
}

#[test]
fn mods_are_compared_by_project() {
    let a1 = entry("A", Vec::new());
    let a2 = Mod::build_from_version(project("A"), version("other", "A", Vec::new())).unwrap();
    let b = entry("B", Vec::new());
    assert!(a1 == a2);
    assert!(a1 != b);
    assert!(a1 == "A".to_string());
    assert!(a1 != "B".to_string());
}

#[test]
fn the_file_of_a_version() {
    let v = Version::new(
        "v".to_string(),
        "p".to_string(),
        "n".to_string(),
        "1".to_string(),
        vec![file("a.jar", false), file("b.jar", true)],
        Vec::new(),
    );
    assert_eq!(file_from_ver(&v).unwrap().filename(), "b.jar");
    assert_eq!(v.files().len(), 2);
    assert_eq!(v.dependencies().len(), 0);
    let copy = v.clone();
    assert_eq!(copy.id(), "v");
    assert_eq!(copy.files()[1].filename(), "b.jar");
    let none = Version::new(
        "v".to_string(),
        "p".to_string(),
        "n".to_string(),
        "1".to_string(),
        Vec::new(),
        Vec::new(),
    );
    assert!(file_from_ver(&none).is_none());
}

#[test]
fn project_fields() {
    let p = Project::new("id".to_string(), "title".to_string(), "about".to_string());
    assert_eq!(p.get_id(), "id");
    assert_eq!(p.get_title(), "title");
    assert_eq!(p.get_desc(), "about");
}

#[test]
fn sodium_for_fabric_is_resolved_and_downloaded() {
    let digest = "ddaf35a193617abacc417349ae20413112e6fa4e89a97ea20a9eeee64b55d39a\
2192992a274fc1a836ba3c23a3feebbd454d4423643ce80e2a9ac94fa54ca49f";
    let query = VersionQuery::build_query(&"1.21.8".to_string(), &"fabric".to_string());
    assert_eq!(query.mcvs(), "[\"1.21.8\"]");
    assert_eq!(query.loader(), "[\"fabric\"]");
    let answer = vec![Version::new(
        "7pwil2dy".to_string(),
        "AANobbMI".to_string(),
        "Sodium 0.7.3 for Fabric 1.21.8".to_string(),
        "mc1.21.8-0.7.3-fabric".to_string(),
        vec![ModrinthFile::new(
            "https://cdn.modrinth.com/data/AANobbMI/sodium.jar".to_string(),
            "sodium-fabric-0.7.3+mc1.21.8.jar".to_string(),
            true,
            ModrinthFileHash::from_hex(digest).unwrap(),
        )],
        Vec::new(),
    )];
    let top = get_top_version(&answer, "AANobbMI");
    let sodium = Project::new("AANobbMI".to_string(), "Sodium".to_string(), String::new());
    let found = top.and_then(|v| Mod::build_from_version(sodium, v));
    let (mut mods, errors) = collect_mods(vec![found]);
    assert!(errors.is_empty());
    let mut reg = Registry::new();
    let (passes, errors) = close(&mut reg, &mut mods, &Vec::new());
    assert_eq!(passes, 1);
    assert!(errors.is_empty());
    assert_eq!(mods.len(), 1);
    assert_eq!(mods[0].filename(), "sodium-fabric-0.7.3+mc1.21.8.jar");

    let mut folder: HashMap<String, Vec<u8>> = HashMap::new();
    let local = match folder.get(mods[0].filename()) {
        Some(bytes) => LocalFile::Contents(bytes.clone()),
        None => LocalFile::Missing,
    };
    assert_eq!(mods[0].download(&local), DownloadStep::Fetch(FileVerification::NotExists));
    let bytes = mods[0].accept_fetched(Ok(b"abc".to_vec())).unwrap();
    folder.insert(mods[0].filename().clone(), bytes);
    assert_eq!(folder.len(), 1);
    let written = LocalFile::Contents(folder["sodium-fabric-0.7.3+mc1.21.8.jar"].clone());
    assert_eq!(mods[0].verify_against(&written), FileVerification::Verified);
    assert_eq!(mods[0].download(&written), DownloadStep::AlreadyPresent);
}
