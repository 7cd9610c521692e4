//! The registry's data, as the resolver and the downloader see it.

use crate::digest::{hex_decode, hex_decoding, HexError};
use crate::text::{followed_by, join, lemma_join_longer_part, lemma_join_new_part, lemma_split, split};
use vstd::std_specs::iter::IteratorSpec;
use vstd::prelude::*;
use vstd::string::{StringExecFns, StringSliceAdditionalSpecFns};

verus! {

/// Mathematical value of a [`Project`].
pub struct ProjectView {
    pub id: Seq<char>,
    pub title: Seq<char>,
    pub description: Seq<char>,
}

/// Mathematical value of a [`RequiredDependency`].
pub struct DependencyView {
    pub version_id: Option<Seq<char>>,
    pub project_id: Option<Seq<char>>,
}

/// Mathematical value of a [`ModrinthFile`].
pub struct FileView {
    pub url: Seq<char>,
    pub filename: Seq<char>,
    pub primary: bool,
    pub sha512: Seq<u8>,
}

/// Mathematical value of a [`Version`].
pub struct VersionView {
    pub id: Seq<char>,
    pub project_id: Seq<char>,
    pub name: Seq<char>,
    pub version_number: Seq<char>,
    pub files: Seq<FileView>,
    pub dependencies: Seq<DependencyView>,
}

/// Mathematical value of a [`Mod`].
pub struct ModView {
    pub title: Seq<char>,
    pub project_id: Seq<char>,
    pub version_name: Seq<char>,
    pub version_id: Seq<char>,
    pub file: FileView,
    pub dependencies: Seq<DependencyView>,
}

/// What went wrong while one mod was looked up.
#[derive(Debug)]
pub enum ModError {
    /// The version has no file to download.
    NoFile(String),
    /// The registry could not be reached, or answered with an error.
    BadRequest(String),
    /// The registry knows no version of the project for the query.
    NoVersion(String),
    /// The dependency names neither a version nor a project.
    NoDependency(String),
}

/// Mathematical value of a [`ModError`].
pub enum ModErrorView {
    NoFile(Seq<char>),
    BadRequest(Seq<char>),
    NoVersion(Seq<char>),
    NoDependency(Seq<char>),
}

impl View for ModError {
    type V = ModErrorView;

    open spec fn view(&self) -> ModErrorView {
        match *self {
            ModError::NoFile(msg) => ModErrorView::NoFile(msg@),
            ModError::BadRequest(msg) => ModErrorView::BadRequest(msg@),
            ModError::NoVersion(msg) => ModErrorView::NoVersion(msg@),
            ModError::NoDependency(msg) => ModErrorView::NoDependency(msg@),
        }
    }
}

impl DeepView for ModError {
    type V = ModErrorView;

    open spec fn deep_view(&self) -> ModErrorView {
        self.view()
    }
}

impl ModError {
    /// The line shown to the user for this error.
    pub fn message(&self) -> (res: String)
        ensures
            res@ == match self@ {
                ModErrorView::NoFile(msg) => "[MODRINTH/ERROR] No file: "@ + msg,
                ModErrorView::BadRequest(msg) => "[MODRINTH/ERROR] Bad request: "@ + msg,
                ModErrorView::NoVersion(msg) => "[MODRINTH/ERROR] No version: "@ + msg,
                ModErrorView::NoDependency(msg) => "[MODRINTH/ERROR] No dependency: "@ + msg,
            },
    {
        match self {
            ModError::NoFile(msg) => followed_by("[MODRINTH/ERROR] No file: ", msg.as_str()),
            ModError::BadRequest(msg) => followed_by("[MODRINTH/ERROR] Bad request: ", msg.as_str()),
            ModError::NoVersion(msg) => followed_by("[MODRINTH/ERROR] No version: ", msg.as_str()),
            ModError::NoDependency(msg) => followed_by(
                "[MODRINTH/ERROR] No dependency: ",
                msg.as_str(),
            ),
        }
    }
}

/// What went wrong while one file was downloaded.
#[derive(Debug)]
pub enum DownloadError {
    /// The file could not be fetched.
    BadRequest(String),
    /// The file could not be written.
    BadFile(String),
    /// What was fetched does not have the digest that the registry gives.
    BadHash(String),
}

/// Mathematical value of a [`DownloadError`].
pub enum DownloadErrorView {
    BadRequest(Seq<char>),
    BadFile(Seq<char>),
    BadHash(Seq<char>),
}

impl View for DownloadError {
    type V = DownloadErrorView;

    open spec fn view(&self) -> DownloadErrorView {
        match *self {
            DownloadError::BadRequest(msg) => DownloadErrorView::BadRequest(msg@),
            DownloadError::BadFile(msg) => DownloadErrorView::BadFile(msg@),
            DownloadError::BadHash(msg) => DownloadErrorView::BadHash(msg@),
        }
    }
}

impl DeepView for DownloadError {
    type V = DownloadErrorView;

    open spec fn deep_view(&self) -> DownloadErrorView {
        self.view()
    }
}

impl DownloadError {
    /// The line shown to the user for this error.
    pub fn message(&self) -> (res: String)
        ensures
            res@ == match self@ {
                DownloadErrorView::BadRequest(msg) => "[MODRINTH/DOWNLOAD/ERROR] Bad request: "@
                    + msg,
                DownloadErrorView::BadFile(msg) => "[MODRINTH/DOWNLOAD/ERROR] Bad file: "@ + msg,
                DownloadErrorView::BadHash(msg) => "[MODRINTH/DOWNLOAD/ERROR] Bad hash: "@ + msg,
            },
    {
        match self {
            DownloadError::BadRequest(msg) => followed_by(
                "[MODRINTH/DOWNLOAD/ERROR] Bad request: ",
                msg.as_str(),
            ),
            DownloadError::BadFile(msg) => followed_by(
                "[MODRINTH/DOWNLOAD/ERROR] Bad file: ",
                msg.as_str(),
            ),
            DownloadError::BadHash(msg) => followed_by(
                "[MODRINTH/DOWNLOAD/ERROR] Bad hash: ",
                msg.as_str(),
            ),
        }
    }
}

/// A package of the registry.
#[derive(Debug)]
pub struct Project {
    id: String,
    title: String,
    description: String,
}

impl View for Project {
    type V = ProjectView;

    closed spec fn view(&self) -> ProjectView {
        ProjectView { id: self.id@, title: self.title@, description: self.description@ }
    }
}

impl DeepView for Project {
    type V = ProjectView;

    open spec fn deep_view(&self) -> ProjectView {
        self.view()
    }
}

impl Project {
    pub fn new(id: String, title: String, description: String) -> (res: Self)
        ensures
            res@ == (ProjectView { id: id@, title: title@, description: description@ }),
    {
        Project { id, title, description }
    }

    pub fn get_id(&self) -> (res: &String)
        ensures
            res@ == self@.id,
    {
        &self.id
    }

    pub fn get_title(&self) -> (res: &String)
        ensures
            res@ == self@.title,
    {
        &self.title
    }

    pub fn get_desc(&self) -> (res: &String)
        ensures
            res@ == self@.description,
    {
        &self.description
    }
}

/// A dependency as the registry lists it, of whatever kind.
#[derive(Debug)]
pub struct Dependency {
    version_id: Option<String>,
    project_id: Option<String>,
    dependency_type: String,
}

impl Dependency {
    pub fn new(
        version_id: Option<String>,
        project_id: Option<String>,
        dependency_type: String,
    ) -> (res: Self)
        ensures
            res.edge() == (DependencyView {
                version_id: version_id.deep_view(),
                project_id: project_id.deep_view(),
            }),
            res.kind() == dependency_type@,
    {
        Dependency { version_id, project_id, dependency_type }
    }

    /// The version and the project that the record names.
    pub closed spec fn edge(&self) -> DependencyView {
        DependencyView {
            version_id: self.version_id.deep_view(),
            project_id: self.project_id.deep_view(),
        }
    }

    /// The record's kind, as the registry spells it.
    pub closed spec fn kind(&self) -> Seq<char> {
        self.dependency_type@
    }

    /// Whether the depending version cannot do without this one.
    pub open spec fn is_required(&self) -> bool {
        self.kind() == "required"@
    }
}

/// A dependency that has to be met: an edge of the graph that is resolved.
#[derive(Debug)]
pub struct RequiredDependency {
    version_id: Option<String>,
    project_id: Option<String>,
}

impl View for RequiredDependency {
    type V = DependencyView;

    closed spec fn view(&self) -> DependencyView {
        DependencyView {
            version_id: self.version_id.deep_view(),
            project_id: self.project_id.deep_view(),
        }
    }
}

impl DeepView for RequiredDependency {
    type V = DependencyView;

    open spec fn deep_view(&self) -> DependencyView {
        self.view()
    }
}

impl RequiredDependency {
    pub fn from_dep(dep: Dependency) -> (res: Self)
        ensures
            res@ == dep.edge(),
    {
        RequiredDependency { version_id: dep.version_id, project_id: dep.project_id }
    }

    pub fn version_id(&self) -> (res: &Option<String>)
        ensures
            res.deep_view() == self@.version_id,
    {
        &self.version_id
    }

    pub fn project_id(&self) -> (res: &Option<String>)
        ensures
            res.deep_view() == self@.project_id,
    {
        &self.project_id
    }
}

impl Clone for RequiredDependency {
    fn clone(&self) -> (res: Self)
        ensures
            res@ == self@,
    {
        RequiredDependency {
            version_id: self.version_id.clone(),
            project_id: self.project_id.clone(),
        }
    }
}

/// The required edges among `deps`, in the order of `deps`.
pub open spec fn required_edges(deps: Seq<Dependency>) -> Seq<DependencyView>
    decreases deps.len(),
{
    if deps.len() == 0 {
        Seq::empty()
    } else if deps.last().is_required() {
        required_edges(deps.drop_last()).push(deps.last().edge())
    } else {
        required_edges(deps.drop_last())
    }
}

/// Keeps the dependencies of kind "required" and forgets the others, so
/// that optional and incompatible ones never enter the graph.
pub fn required_dependencies(deps: Vec<Dependency>) -> (res: Vec<RequiredDependency>)
    ensures
        res.deep_view() == required_edges(deps@),
{
    let ghost all = deps@;
    let mut res: Vec<RequiredDependency> = Vec::new();
    for dep in it: deps
        invariant
            it.seq() == all,
            res.deep_view() == required_edges(all.take(it.index() as int)),
    {
        let ghost before = res.deep_view();
        assert(all.take(it.index() + 1).drop_last() =~= all.take(it.index() as int));
        if dep.dependency_type.as_str().eq("required") {
            res.push(RequiredDependency::from_dep(dep));
            assert(res.deep_view() =~= before.push(dep.edge()));
        }
    }
    assert(all.take(all.len() as int) =~= all);
    res
}

/// The digest that the registry publishes for a file.
#[derive(Debug)]
pub struct ModrinthFileHash {
    sha512: Vec<u8>,
}

impl View for ModrinthFileHash {
    type V = Seq<u8>;

    closed spec fn view(&self) -> Seq<u8> {
        self.sha512@
    }
}

impl ModrinthFileHash {
    pub fn new(sha512: Vec<u8>) -> (res: Self)
        ensures
            res@ == sha512@,
    {
        ModrinthFileHash { sha512 }
    }

    /// Reads the digest from the hexadecimal text in which the registry
    /// gives it. A text that is no hexadecimal string is refused.
    pub fn from_hex(text: &str) -> (res: Result<Self, HexError>)
        ensures
            match hex_decoding(text.spec_bytes()) {
                Ok(bytes) => res matches Ok(hash) && hash@ == bytes,
                Err(e) => res == Err::<Self, HexError>(e),
            },
    {
        match hex_decode(text.as_bytes()) {
            Ok(sha512) => Ok(ModrinthFileHash { sha512 }),
            Err(e) => Err(e),
        }
    }

    /// Whether `other_hash` is this digest, byte for byte.
    pub fn check512(&self, other_hash: &[u8]) -> (res: bool)
        ensures
            res == (self@ == other_hash@),
    {
        if self.sha512.len() != other_hash.len() {
            return false;
        }
        let mut i: usize = 0;
        while i < other_hash.len()
            invariant
                self.sha512.len() == other_hash.len(),
                i <= other_hash.len(),
                forall|j: int| 0 <= j < i ==> self.sha512[j] == other_hash[j],
            decreases other_hash.len() - i,
        {
            if self.sha512[i] != other_hash[i] {
                return false;
            }
            i += 1;
        }
        assert(self.sha512@ =~= other_hash@);
        true
    }
}

impl Clone for ModrinthFileHash {
    fn clone(&self) -> (res: Self)
        ensures
            res@ == self@,
    {
        ModrinthFileHash { sha512: self.sha512.clone() }
    }
}

/// One distributable file of a version.
#[derive(Debug)]
pub struct ModrinthFile {
    url: String,
    filename: String,
    primary: bool,
    hashes: ModrinthFileHash,
}

impl View for ModrinthFile {
    type V = FileView;

    closed spec fn view(&self) -> FileView {
        FileView {
            url: self.url@,
            filename: self.filename@,
            primary: self.primary,
            sha512: self.hashes@,
        }
    }
}

impl DeepView for ModrinthFile {
    type V = FileView;

    open spec fn deep_view(&self) -> FileView {
        self.view()
    }
}

impl ModrinthFile {
    pub fn new(url: String, filename: String, primary: bool, hashes: ModrinthFileHash) -> (res:
        Self)
        ensures
            res@ == (FileView {
                url: url@,
                filename: filename@,
                primary: primary,
                sha512: hashes@,
            }),
    {
        ModrinthFile { url, filename, primary, hashes }
    }

    pub fn url(&self) -> (res: &String)
        ensures
            res@ == self@.url,
    {
        &self.url
    }

    pub fn filename(&self) -> (res: &String)
        ensures
            res@ == self@.filename,
    {
        &self.filename
    }

    pub fn primary(&self) -> (res: &bool)
        ensures
            *res == self@.primary,
    {
        &self.primary
    }

    pub fn hashes(&self) -> (res: &ModrinthFileHash)
        ensures
            res@ == self@.sha512,
    {
        &self.hashes
    }
}

impl Clone for ModrinthFile {
    fn clone(&self) -> (res: Self)
        ensures
            res@ == self@,
    {
        ModrinthFile {
            url: self.url.clone(),
            filename: self.filename.clone(),
            primary: self.primary,
            hashes: self.hashes.clone(),
        }
    }
}

/// One release of a project.
#[derive(Debug)]
pub struct Version {
    id: String,
    project_id: String,
    name: String,
    version_number: String,
    files: Vec<ModrinthFile>,
    dependencies: Vec<RequiredDependency>,
}

impl View for Version {
    type V = VersionView;

    closed spec fn view(&self) -> VersionView {
        VersionView {
            id: self.id@,
            project_id: self.project_id@,
            name: self.name@,
            version_number: self.version_number@,
            files: self.files.deep_view(),
            dependencies: self.dependencies.deep_view(),
        }
    }
}

impl DeepView for Version {
    type V = VersionView;

    open spec fn deep_view(&self) -> VersionView {
        self.view()
    }
}

impl Version {
    pub fn new(
        id: String,
        project_id: String,
        name: String,
        version_number: String,
        files: Vec<ModrinthFile>,
        dependencies: Vec<RequiredDependency>,
    ) -> (res: Self)
        ensures
            res@ == (VersionView {
                id: id@,
                project_id: project_id@,
                name: name@,
                version_number: version_number@,
                files: files.deep_view(),
                dependencies: dependencies.deep_view(),
            }),
    {
        Version { id, project_id, name, version_number, files, dependencies }
    }

    pub fn id(&self) -> (res: &String)
        ensures
            res@ == self@.id,
    {
        &self.id
    }

    pub fn project_id(&self) -> (res: &String)
        ensures
            res@ == self@.project_id,
    {
        &self.project_id
    }

    pub fn name(&self) -> (res: &String)
        ensures
            res@ == self@.name,
    {
        &self.name
    }

    pub fn version_number(&self) -> (res: &String)
        ensures
            res@ == self@.version_number,
    {
        &self.version_number
    }

    pub fn files(&self) -> (res: &Vec<ModrinthFile>)
        ensures
            res.deep_view() == self@.files,
    {
        &self.files
    }

    pub fn dependencies(&self) -> (res: &Vec<RequiredDependency>)
        ensures
            res.deep_view() == self@.dependencies,
    {
        &self.dependencies
    }
}

impl Clone for Version {
    fn clone(&self) -> (res: Self)
        ensures
            res@ == self@,
    {
        let res = Version {
            id: self.id.clone(),
            project_id: self.project_id.clone(),
            name: self.name.clone(),
            version_number: self.version_number.clone(),
            files: self.files.clone(),
            dependencies: self.dependencies.clone(),
        };
        assert(res.files.deep_view() =~= self.files.deep_view());
        assert(res.dependencies.deep_view() =~= self.dependencies.deep_view());
        res
    }
}

/// `i` is the position of the file that stands for a version with the files
/// `files`: the first one marked primary or, where none is marked, the first
/// one.
pub open spec fn is_selected(files: Seq<FileView>, i: int) -> bool {
    &&& 0 <= i < files.len()
    &&& forall|j: int| 0 <= j < i ==> !files[j].primary
    &&& files[i].primary || (i == 0 && forall|j: int| 0 <= j < files.len() ==> !files[j].primary)
}

/// The position of the file that stands for a version, if it has any file.
pub open spec fn selected_index(files: Seq<FileView>) -> Option<int> {
    if files.len() == 0 {
        None
    } else {
        Some(choose|i: int| is_selected(files, i))
    }
}

/// A list of files has one selected position, and none if it is empty.
pub proof fn lemma_selected_index(files: Seq<FileView>)
    ensures
        files.len() > 0 ==> exists|i: int| is_selected(files, i),
        forall|i: int, j: int| is_selected(files, i) && is_selected(files, j) ==> i == j,
        forall|i: int| is_selected(files, i) ==> selected_index(files) == Some(i),
{
    if files.len() > 0 {
        if exists|i: int| 0 <= i < files.len() && files[i].primary {
            let k = choose|i: int| 0 <= i < files.len() && files[i].primary;
            lemma_least_primary(files, k);
        } else {
            assert(is_selected(files, 0));
        }
    }
    assert forall|i: int, j: int| is_selected(files, i) && is_selected(files, j) implies i
        == j by {
        if i < j {
            assert(!files[i].primary);
        } else if j < i {
            assert(!files[j].primary);
        }
    }
}

proof fn lemma_least_primary(files: Seq<FileView>, k: int)
    requires
        0 <= k < files.len(),
        files[k].primary,
    ensures
        exists|i: int| is_selected(files, i),
    decreases k,
{
    if forall|j: int| 0 <= j < k ==> !files[j].primary {
        assert(is_selected(files, k));
    } else {
        let j = choose|j: int| 0 <= j < k && files[j].primary;
        lemma_least_primary(files, j);
    }
}

/// Picks the file to download among those of a version: the first one
/// marked primary, else the first one; nothing from an empty list.
pub fn search_for_primary_file(files: &Vec<ModrinthFile>) -> (res: Option<usize>)
    ensures
        res is None <==> files.len() == 0,
        res matches Some(i) ==> is_selected(files.deep_view(), i as int),
        selected_index(files.deep_view()) == match res {
            Some(i) => Some(i as int),
            None => None,
        },
{
    proof {
        lemma_selected_index(files.deep_view());
    }
    if files.len() == 0 {
        return None;
    }
    let mut i: usize = 0;
    while i < files.len()
        invariant
            i <= files.len(),
            forall|j: int| 0 <= j < i ==> !files.deep_view()[j].primary,
        decreases files.len() - i,
    {
        if files[i].primary {
            assert(files.deep_view()[i as int].primary);
            assert(is_selected(files.deep_view(), i as int));
            return Some(i);
        }
        assert(!files.deep_view()[i as int].primary);
        i += 1;
    }
    assert(is_selected(files.deep_view(), 0));
    Some(0)
}

/// The entry that a project, one of its versions and the file at position
/// `i` of that version make together.
pub open spec fn built(proj: ProjectView, ver: VersionView, i: int) -> ModView {
    ModView {
        title: proj.title,
        project_id: proj.id,
        version_name: ver.name,
        version_id: ver.id,
        file: ver.files[i],
        dependencies: ver.dependencies,
    }
}

/// The entry that a project and one of its versions make, with the file
/// that stands for the version; none if the version has no file.
pub open spec fn entry_of(proj: ProjectView, ver: VersionView) -> Option<ModView> {
    match selected_index(ver.files) {
        Some(i) => Some(built(proj, ver, i)),
        None => None,
    }
}

/// The message of the error for a version without files.
pub open spec fn no_file_message(title: Seq<char>) -> Seq<char> {
    "Couldn't find file for project "@ + title
}

/// A resolved mod: one version of one project, with the file to download
/// and the edges that lead on from it.
#[derive(Debug)]
pub struct Mod {
    title: String,
    project_id: String,
    version_name: String,
    version_id: String,
    file: ModrinthFile,
    dependencies: Vec<RequiredDependency>,
}

impl View for Mod {
    type V = ModView;

    closed spec fn view(&self) -> ModView {
        ModView {
            title: self.title@,
            project_id: self.project_id@,
            version_name: self.version_name@,
            version_id: self.version_id@,
            file: self.file@,
            dependencies: self.dependencies.deep_view(),
        }
    }
}

impl DeepView for Mod {
    type V = ModView;

    open spec fn deep_view(&self) -> ModView {
        self.view()
    }
}

impl Mod {
    pub fn title(&self) -> (res: &String)
        ensures
            res@ == self@.title,
    {
        &self.title
    }

    pub fn project_id(&self) -> (res: &String)
        ensures
            res@ == self@.project_id,
    {
        &self.project_id
    }

    pub fn version_name(&self) -> (res: &String)
        ensures
            res@ == self@.version_name,
    {
        &self.version_name
    }

    pub fn version_id(&self) -> (res: &String)
        ensures
            res@ == self@.version_id,
    {
        &self.version_id
    }

    pub fn file(&self) -> (res: &ModrinthFile)
        ensures
            res@ == self@.file,
    {
        &self.file
    }

    pub fn filename(&self) -> (res: &String)
        ensures
            res@ == self@.file.filename,
    {
        self.file.filename()
    }

    pub fn dependencies(&self) -> (res: &Vec<RequiredDependency>)
        ensures
            res.deep_view() == self@.dependencies,
    {
        &self.dependencies
    }

    fn build(proj: Project, ver: Version, primary_file_idx: usize) -> (res: Self)
        requires
            primary_file_idx < ver@.files.len(),
        ensures
            res@ == built(proj@, ver@, primary_file_idx as int),
    {
        let file = ver.files[primary_file_idx].clone();
        let dependencies = ver.dependencies.clone();
        assert(dependencies.deep_view() =~= ver.dependencies.deep_view());
        Mod {
            title: proj.title,
            project_id: proj.id,
            version_name: ver.name,
            version_id: ver.id,
            file,
            dependencies,
        }
    }

    /// Joins a version with the project it belongs to. The version's file is
    /// chosen as [`search_for_primary_file`] says; a version without files
    /// makes no mod.
    pub fn build_from_version(proj: Project, ver: Version) -> (res: Result<Self, ModError>)
        ensures
            match entry_of(proj@, ver@) {
                Some(entry) => res matches Ok(m) && m@ == entry,
                None => res matches Err(e) && e@ == ModErrorView::NoFile(
                    no_file_message(proj@.title),
                ),
            },
    {
        match search_for_primary_file(ver.files()) {
            Some(primary_file_idx) => Ok(Self::build(proj, ver, primary_file_idx)),
            None => Err(
                ModError::NoFile(followed_by("Couldn't find file for project ", proj.get_title().as_str())),
            ),
        }
    }
}

/// Two mods are the same where they belong to the same project.
impl PartialEq for Mod {
    fn eq(&self, other: &Self) -> (res: bool) {
        self.project_id == other.project_id
    }
}

impl vstd::std_specs::cmp::PartialEqSpecImpl for Mod {
    open spec fn obeys_eq_spec() -> bool {
        true
    }

    open spec fn eq_spec(&self, other: &Self) -> bool {
        self@.project_id == other@.project_id
    }
}

/// A mod is the one of a project where it has the project's id.
impl PartialEq<String> for Mod {
    fn eq(&self, other: &String) -> (res: bool) {
        self.project_id == *other
    }
}

impl vstd::std_specs::cmp::PartialEqSpecImpl<String> for Mod {
    open spec fn obeys_eq_spec() -> bool {
        true
    }

    open spec fn eq_spec(&self, other: &String) -> bool {
        self@.project_id == other@
    }
}

/// How a file on disk compares with the one that the registry describes.
#[derive(Clone, Copy, Debug, PartialEq, Eq)]
pub enum FileVerification {
    /// The file is there and has the expected digest.
    Verified,
    /// No file is there.
    NotExists,
    /// The file is there and has another digest.
    BadHash,
    /// Something is there that cannot be read.
    BadFile,
}

/// The JSON array of strings that the registry takes as a query
/// parameter: the parts of `params` between its commas, each in quotes. The
/// empty text gives an array of one empty string.
pub open spec fn param_array(params: Seq<char>) -> Seq<char> {
    "[\""@ + join(split(params, ','), "\",\""@) + "\"]"@
}

/// Mathematical value of a [`VersionQuery`].
pub struct QueryView {
    pub game_versions: Seq<char>,
    pub loaders: Seq<char>,
}

/// The query that picks the versions of a project: the game versions and
/// the loaders that a version may be for.
#[derive(Debug)]
pub struct VersionQuery {
    game_versions: String,
    loaders: String,
}

impl View for VersionQuery {
    type V = QueryView;

    closed spec fn view(&self) -> QueryView {
        QueryView { game_versions: self.game_versions@, loaders: self.loaders@ }
    }
}

impl VersionQuery {
    /// Writes a list that the user gave with commas as the array that the
    /// registry takes.
    pub fn build_param_array(user_params: &String) -> (res: String)
        ensures
            res@ == param_array(user_params@),
    {
        broadcast use vstd::string::group_string_axioms;

        let ghost sep = "\",\""@;
        let mut res: String = "[\"".to_owned();
        let mut params = user_params.as_str().chars();
        let ghost mut done: Seq<char> = Seq::empty();
        assert("[\""@ + join(split(done, ','), sep) =~= "[\""@);
        loop
            invariant
                sep == "\",\""@,
                params.obeys_prophetic_iter_laws(),
                params.decrease() is Some,
                done + params.remaining() == user_params@,
                res@ == "[\""@ + join(split(done, ','), sep),
            decreases params.decrease()->0,
        {
            match params.next() {
                Some(c) => {
                    proof {
                        lemma_split(done, ',');
                        assert(done.push(c).drop_last() =~= done);
                        assert(done.push(c) + params.remaining() =~= user_params@);
                    }
                    if c == ',' {
                        res.append("\",\"");
                        proof {
                            lemma_join_new_part(split(done, ','), sep);
                            assert(("[\""@ + join(split(done, ','), sep)) + sep =~= "[\""@ + (join(
                                split(done, ','),
                                sep,
                            ) + sep));
                        }
                    } else {
                        res.push(c);
                        proof {
                            lemma_join_longer_part(split(done, ','), sep, c);
                            assert(("[\""@ + join(split(done, ','), sep)).push(c) =~= "[\""@
                                + join(split(done, ','), sep).push(c));
                        }
                    }
                    proof {
                        done = done.push(c);
                    }
                },
                None => {
                    assert(done =~= user_params@);
                    res.append("\"]");
                    return res;
                },
            }
        }
    }

    pub fn build_query(user_mcvs: &String, user_loader: &String) -> (res: VersionQuery)
        ensures
            res@ == (QueryView {
                game_versions: param_array(user_mcvs@),
                loaders: param_array(user_loader@),
            }),
    {
        let game_versions = Self::build_param_array(user_mcvs);
        let loaders = Self::build_param_array(user_loader);
        VersionQuery { game_versions, loaders }
    }

    pub fn mcvs(&self) -> (res: &str)
        ensures
            res@ == self@.game_versions,
    {
        self.game_versions.as_str()
    }

    pub fn loader(&self) -> (res: &str)
        ensures
            res@ == self@.loaders,
    {
        self.loaders.as_str()
    }
}

/// Where the registry keeps the project with the id `id`.
pub fn project_url(base: &str, id: &str) -> (res: String)
    ensures
        res@ == base@ + "/v2/project/"@ + id@,
{
    let mut url = followed_by(base, "/v2/project/");
    url.append(id);
    url
}

/// Where the registry lists the versions of the project with the id
/// `project_id`.
pub fn versions_url(base: &str, project_id: &str) -> (res: String)
    ensures
        res@ == base@ + "/v2/project/"@ + project_id@ + "/version"@,
{
    let mut url = project_url(base, project_id);
    url.append("/version");
    url
}

/// Where the registry keeps the version with the id `id`.
pub fn version_url(base: &str, id: &str) -> (res: String)
    ensures
        res@ == base@ + "/v2/version/"@ + id@,
{
    let mut url = followed_by(base, "/v2/version/");
    url.append(id);
    url
}

/// The message of the error for a project without a version that meets the
/// query.
pub open spec fn no_version_message(project_id: Seq<char>) -> Seq<char> {
    "No version found for id "@ + project_id
}

/// Takes the version to use from the registry's answer to a query: the
/// first one. An empty answer means that the project has no version for the
/// query.
pub fn get_top_version(response: &Vec<Version>, project_id: &str) -> (res: Result<
    Version,
    ModError,
>)
    ensures
        match res {
            Ok(version) => response.len() > 0 && version@ == response.deep_view()[0],
            Err(e) => response.len() == 0 && e@ == ModErrorView::NoVersion(
                no_version_message(project_id@),
            ),
        },
{
    if response.len() > 0 {
        Ok(response[0].clone())
    } else {
        Err(ModError::NoVersion(followed_by("No version found for id ", project_id)))
    }
}

/// The file that stands for a version, if it has any file.
pub fn file_from_ver(v: &Version) -> (res: Option<ModrinthFile>)
    ensures
        match selected_index(v@.files) {
            Some(i) => res matches Some(file) && file@ == v@.files[i],
            None => res is None,
        },
{
    let v_files = v.files();
    let primary_idx = search_for_primary_file(v_files);
    if let Some(idx) = primary_idx {
        Some(v_files[idx].clone())
    } else {
        None
    }
}

} // verus!
