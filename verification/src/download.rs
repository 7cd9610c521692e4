//! The rules of a download: when a file on disk is good enough, and when
//! fetched bytes may be written.
//!
//! The caller reads the destination, fetches and writes. Each function here
//! takes what the caller found and says what follows from it.

use crate::digest::{sha512, sha512_digest};
use crate::modrinth::{
    DownloadError, DownloadErrorView, FileVerification, FileView, Mod, ModrinthFile,
};
use crate::text::followed_by;
use vstd::prelude::*;
use vstd::string::StringExecFns;

verus! {

/// What the caller found at the place where a file is to stand.
#[derive(Debug)]
pub enum LocalFile {
    /// Nothing is there.
    Missing,
    /// Something is there that could not be read.
    Unreadable,
    /// A file with these bytes is there.
    Contents(Vec<u8>),
}

/// Mathematical value of a [`LocalFile`].
pub enum LocalView {
    Missing,
    Unreadable,
    Contents(Seq<u8>),
}

impl View for LocalFile {
    type V = LocalView;

    open spec fn view(&self) -> LocalView {
        match *self {
            LocalFile::Missing => LocalView::Missing,
            LocalFile::Unreadable => LocalView::Unreadable,
            LocalFile::Contents(bytes) => LocalView::Contents(bytes@),
        }
    }
}

/// How what is on disk compares with `file`.
pub open spec fn verification(file: FileView, local: LocalView) -> FileVerification {
    match local {
        LocalView::Missing => FileVerification::NotExists,
        LocalView::Unreadable => FileVerification::BadFile,
        LocalView::Contents(bytes) => if sha512(bytes) == file.sha512 {
            FileVerification::Verified
        } else {
            FileVerification::BadHash
        },
    }
}

/// Whether `bytes` have the digest that the registry gives for `f_in`.
fn check_hash(bytes: &Vec<u8>, f_in: &ModrinthFile) -> (res: bool)
    ensures
        res == (sha512(bytes@) == f_in@.sha512),
{
    let file_hash = sha512_digest(bytes.as_slice());
    f_in.hashes().check512(file_hash.as_slice())
}

/// Compares what is on disk with the file that the registry describes.
pub fn verify_file(mfile: &ModrinthFile, local: &LocalFile) -> (res: FileVerification)
    ensures
        res == verification(mfile@, local@),
{
    match local {
        LocalFile::Missing => FileVerification::NotExists,
        LocalFile::Unreadable => FileVerification::BadFile,
        LocalFile::Contents(bytes) => {
            if check_hash(bytes, mfile) {
                FileVerification::Verified
            } else {
                FileVerification::BadHash
            }
        },
    }
}

/// Whether the file on disk makes the download needless: it is there, it can
/// be read and it has the expected digest.
pub fn download_already_exists(local: &LocalFile, f_in: &ModrinthFile) -> (res: bool)
    ensures
        res == (verification(f_in@, local@) is Verified),
{
    match local {
        LocalFile::Missing => false,
        LocalFile::Unreadable => false,
        LocalFile::Contents(bytes) => check_hash(bytes, f_in),
    }
}

/// What the downloader does for a file once it has looked at the disk.
#[derive(Clone, Copy, Debug, PartialEq, Eq)]
pub enum DownloadStep {
    /// The file on disk is verified: nothing is fetched, nothing is written.
    AlreadyPresent,
    /// The file has to be fetched. The reason is what the look at the disk
    /// gave: no file, one with another digest, or one that cannot be read.
    Fetch(FileVerification),
}

/// The step that follows from what is on disk.
pub open spec fn step_for(file: FileView, local: LocalView) -> DownloadStep {
    match verification(file, local) {
        FileVerification::Verified => DownloadStep::AlreadyPresent,
        other => DownloadStep::Fetch(other),
    }
}

/// The message of the error for fetched bytes with the wrong digest.
pub open spec fn bad_hash_message(filename: Seq<char>) -> Seq<char> {
    "Hashes do not match for file '"@ + filename + "'. Skipping download..."@
}

/// First half of the download of one file: decides from the disk whether
/// anything is fetched at all.
pub fn download_file(f_in: &ModrinthFile, local: &LocalFile) -> (res: DownloadStep)
    ensures
        res == step_for(f_in@, local@),
{
    match verify_file(f_in, local) {
        FileVerification::Verified => DownloadStep::AlreadyPresent,
        FileVerification::NotExists => DownloadStep::Fetch(FileVerification::NotExists),
        FileVerification::BadHash => DownloadStep::Fetch(FileVerification::BadHash),
        FileVerification::BadFile => DownloadStep::Fetch(FileVerification::BadFile),
    }
}

/// What becomes of the registry's answer to a fetch of `file`: the bytes to
/// write, where they have the expected digest; else the error to report.
pub open spec fn accepted(file: FileView, fetched: Result<Seq<u8>, Seq<char>>) -> Result<
    Seq<u8>,
    DownloadErrorView,
> {
    match fetched {
        Ok(bytes) => if sha512(bytes) == file.sha512 {
            Ok(bytes)
        } else {
            Err(DownloadErrorView::BadHash(bad_hash_message(file.filename)))
        },
        Err(why) => Err(DownloadErrorView::BadRequest(why)),
    }
}

/// A fetch's outcome by its value.
pub open spec fn fetched_view(fetched: Result<Vec<u8>, String>) -> Result<Seq<u8>, Seq<char>> {
    match fetched {
        Ok(bytes) => Ok(bytes@),
        Err(why) => Err(why@),
    }
}

/// Second half of the download of one file: decides whether what was
/// fetched may be written. `fetched` holds the bytes, or the transport's
/// error in words. Bytes with the expected digest are handed back to be
/// written as they are; others are dropped with a `BadHash` error, and a
/// transport error becomes a `BadRequest` error.
pub fn accept_fetched(f_in: &ModrinthFile, fetched: Result<Vec<u8>, String>) -> (res: Result<
    Vec<u8>,
    DownloadError,
>)
    ensures
        match accepted(f_in@, fetched_view(fetched)) {
            Ok(bytes) => res matches Ok(out) && out@ == bytes,
            Err(why) => res matches Err(e) && e@ == why,
        },
{
    match fetched {
        Ok(bytes) => {
            if check_hash(&bytes, f_in) {
                Ok(bytes)
            } else {
                let mut msg = followed_by("Hashes do not match for file '", f_in.filename().as_str());
                msg.append("'. Skipping download...");
                Err(DownloadError::BadHash(msg))
            }
        },
        Err(why) => Err(DownloadError::BadRequest(why)),
    }
}

impl Mod {
    /// Compares what is on disk with this mod's file.
    pub fn verify_against(&self, local: &LocalFile) -> (res: FileVerification)
        ensures
            res == verification(self@.file, local@),
    {
        verify_file(self.file(), local)
    }

    /// First half of this mod's download: see [`download_file`].
    pub fn download(&self, local: &LocalFile) -> (res: DownloadStep)
        ensures
            res == step_for(self@.file, local@),
    {
        download_file(self.file(), local)
    }

    /// Second half of this mod's download: see [`accept_fetched`].
    pub fn accept_fetched(&self, fetched: Result<Vec<u8>, String>) -> (res: Result<
        Vec<u8>,
        DownloadError,
    >)
        ensures
            match accepted(self@.file, fetched_view(fetched)) {
                Ok(bytes) => res matches Ok(out) && out@ == bytes,
                Err(why) => res matches Err(e) && e@ == why,
            },
    {
        accept_fetched(self.file(), fetched)
    }
}

/// What stands on disk after the download of `file`, where `local` stood
/// there before, the registry answers a fetch with `fetched`, and a write
/// that is attempted succeeds.
pub open spec fn disk_after(
    file: FileView,
    local: LocalView,
    fetched: Result<Seq<u8>, Seq<char>>,
) -> LocalView {
    match step_for(file, local) {
        DownloadStep::AlreadyPresent => local,
        DownloadStep::Fetch(_) => match accepted(file, fetched) {
            Ok(bytes) => LocalView::Contents(bytes),
            Err(_) => local,
        },
    }
}

/// A download that is run again finds nothing to do. Whatever stood on disk
/// and whatever the registry sent: a second run against the same registry
/// leaves the disk as the first run left it; the first run leaves a
/// verified file wherever one stood before or the registry sent the bytes
/// with the expected digest; and over a verified file a run fetches nothing
/// and writes nothing, whatever the registry would send.
pub proof fn lemma_download_idempotent(
    file: FileView,
    local: LocalView,
    fetched: Result<Seq<u8>, Seq<char>>,
    later: Result<Seq<u8>, Seq<char>>,
)
    ensures
        disk_after(file, disk_after(file, local, fetched), fetched) == disk_after(
            file,
            local,
            fetched,
        ),
        verification(file, local) is Verified || accepted(file, fetched) is Ok ==> verification(
            file,
            disk_after(file, local, fetched),
        ) is Verified,
        verification(file, local) is Verified ==> step_for(file, local)
            == DownloadStep::AlreadyPresent && disk_after(file, local, later) == local,
{
}

/// What stands in a folder under `name`: nothing, where the folder knows
/// no such name.
pub open spec fn standing(folder: Map<Seq<char>, LocalView>, name: Seq<char>) -> LocalView {
    if folder.dom().contains(name) {
        folder[name]
    } else {
        LocalView::Missing
    }
}

/// The folder after the downloads of `files`, one after the other, each to
/// its own name, where the registry answers the fetch of a URL with
/// `registry(url)` and a write that is attempted succeeds.
pub open spec fn folder_after(
    folder: Map<Seq<char>, LocalView>,
    files: Seq<FileView>,
    registry: spec_fn(Seq<char>) -> Result<Seq<u8>, Seq<char>>,
) -> Map<Seq<char>, LocalView>
    decreases files.len(),
{
    if files.len() == 0 {
        folder
    } else {
        let before = folder_after(folder, files.drop_last(), registry);
        let file = files.last();
        before.insert(
            file.filename,
            disk_after(file, standing(before, file.filename), registry(file.url)),
        )
    }
}

/// Whether no two of `files` go by one name.
pub open spec fn distinct_names(files: Seq<FileView>) -> bool {
    forall|i: int, j: int|
        0 <= i < j < files.len() ==> #[trigger] files[i].filename != #[trigger] files[j].filename
}

/// The downloads of a batch touch nothing but their own names.
proof fn lemma_folder_frame(
    folder: Map<Seq<char>, LocalView>,
    files: Seq<FileView>,
    registry: spec_fn(Seq<char>) -> Result<Seq<u8>, Seq<char>>,
    name: Seq<char>,
)
    requires
        forall|i: int| 0 <= i < files.len() ==> #[trigger] files[i].filename != name,
    ensures
        standing(folder_after(folder, files, registry), name) == standing(folder, name),
    decreases files.len(),
{
    if files.len() != 0 {
        assert forall|i: int| 0 <= i < files.drop_last().len() implies #[trigger] files.drop_last()[i].filename
            != name by {
            assert(files.drop_last()[i] == files[i]);
        }
        lemma_folder_frame(folder, files.drop_last(), registry, name);
        assert(files.last() == files[files.len() - 1]);
    }
}

/// Where each file has its own name, a batch leaves under each name what
/// the download of that file alone leaves there.
proof fn lemma_folder_each(
    folder: Map<Seq<char>, LocalView>,
    files: Seq<FileView>,
    registry: spec_fn(Seq<char>) -> Result<Seq<u8>, Seq<char>>,
    i: int,
)
    requires
        distinct_names(files),
        0 <= i < files.len(),
    ensures
        folder_after(folder, files, registry).dom().contains(files[i].filename),
        folder_after(folder, files, registry)[files[i].filename] == disk_after(
            files[i],
            standing(folder, files[i].filename),
            registry(files[i].url),
        ),
    decreases files.len(),
{
    let shorter = files.drop_last();
    let last = files.len() - 1;
    assert(distinct_names(shorter)) by {
        assert forall|a: int, b: int| 0 <= a < b < shorter.len() implies #[trigger] shorter[a].filename
            != #[trigger] shorter[b].filename by {
            assert(shorter[a] == files[a] && shorter[b] == files[b]);
        }
    }
    if i < last {
        lemma_folder_each(folder, shorter, registry, i);
        assert(shorter[i] == files[i]);
        assert(files[i].filename != files[last].filename);
    } else {
        assert forall|k: int| 0 <= k < shorter.len() implies #[trigger] shorter[k].filename
            != files[i].filename by {
            assert(shorter[k] == files[k]);
            assert(files[k].filename != files[last].filename);
        }
        lemma_folder_frame(folder, shorter, registry, files[i].filename);
    }
}

/// A batch that is run again changes nothing. Where each file of the batch
/// has its own name, a second run against the same registry leaves the
/// folder exactly as the first run left it; and the second run fetches no
/// file that stood verified before the first run or that the registry sent
/// with the expected digest.
pub proof fn lemma_batch_idempotent(
    folder: Map<Seq<char>, LocalView>,
    files: Seq<FileView>,
    registry: spec_fn(Seq<char>) -> Result<Seq<u8>, Seq<char>>,
)
    requires
        distinct_names(files),
    ensures
        folder_after(folder_after(folder, files, registry), files, registry) == folder_after(
            folder,
            files,
            registry,
        ),
        forall|i: int|
            0 <= i < files.len() && (verification(
                #[trigger] files[i],
                standing(folder, files[i].filename),
            ) is Verified || accepted(files[i], registry(files[i].url)) is Ok) ==> step_for(
                files[i],
                standing(folder_after(folder, files, registry), files[i].filename),
            ) == DownloadStep::AlreadyPresent,
{
    lemma_second_run(folder, files, registry, files.len() as int);
    assert(files.take(files.len() as int) =~= files);
    assert forall|i: int|
        0 <= i < files.len() && (verification(
            #[trigger] files[i],
            standing(folder, files[i].filename),
        ) is Verified || accepted(files[i], registry(files[i].url)) is Ok) implies step_for(
        files[i],
        standing(folder_after(folder, files, registry), files[i].filename),
    ) == DownloadStep::AlreadyPresent by {
        lemma_folder_each(folder, files, registry, i);
        lemma_download_idempotent(
            files[i],
            standing(folder, files[i].filename),
            registry(files[i].url),
            registry(files[i].url),
        );
    }
}

/// The first `n` downloads of a second run leave the folder as the first
/// run left it.
proof fn lemma_second_run(
    folder: Map<Seq<char>, LocalView>,
    files: Seq<FileView>,
    registry: spec_fn(Seq<char>) -> Result<Seq<u8>, Seq<char>>,
    n: int,
)
    requires
        distinct_names(files),
        0 <= n <= files.len(),
    ensures
        folder_after(folder_after(folder, files, registry), files.take(n), registry)
            == folder_after(folder, files, registry),
    decreases n,
{
    let once = folder_after(folder, files, registry);
    if n > 0 {
        lemma_second_run(folder, files, registry, n - 1);
        let file = files[n - 1];
        assert(files.take(n).drop_last() =~= files.take(n - 1));
        assert(files.take(n).last() == file);
        lemma_folder_each(folder, files, registry, n - 1);
        lemma_download_idempotent(
            file,
            standing(folder, file.filename),
            registry(file.url),
            registry(file.url),
        );
        assert(once.insert(file.filename, once[file.filename]) =~= once);
    }
}

/// The errors among the outcomes of a batch of downloads, in their order.
pub open spec fn failures(outcomes: Seq<Result<(), DownloadError>>) -> Seq<DownloadErrorView>
    decreases outcomes.len(),
{
    if outcomes.len() == 0 {
        Seq::empty()
    } else {
        match outcomes.last() {
            Ok(_) => failures(outcomes.drop_last()),
            Err(e) => failures(outcomes.drop_last()).push(e@),
        }
    }
}

/// Gathers the errors of a batch of downloads. One download that failed
/// takes nothing from the others: each outcome stands for itself.
pub fn collect_download_errors(outcomes: Vec<Result<(), DownloadError>>) -> (res: Vec<
    DownloadError,
>)
    ensures
        res.deep_view() == failures(outcomes@),
{
    let ghost all = outcomes@;
    let mut res: Vec<DownloadError> = Vec::new();
    for outcome in it: outcomes
        invariant
            it.seq() == all,
            res.deep_view() == failures(all.take(it.index() as int)),
    {
        let ghost before = res.deep_view();
        assert(all.take(it.index() + 1).drop_last() =~= all.take(it.index() as int));
        match outcome {
            Ok(_) => {},
            Err(e) => {
                res.push(e);
                assert(res.deep_view() =~= before.push(e@));
            },
        }
    }
    assert(all.take(all.len() as int) =~= all);
    res
}

/// How many of `outcomes` are not `Verified`.
pub open spec fn unverified(outcomes: Seq<FileVerification>) -> nat
    decreases outcomes.len(),
{
    if outcomes.len() == 0 {
        0
    } else if outcomes.last() is Verified {
        unverified(outcomes.drop_last())
    } else {
        unverified(outcomes.drop_last()) + 1
    }
}

/// Counts the files of a folder check that could not be verified.
pub fn count_unverified(outcomes: &Vec<FileVerification>) -> (res: usize)
    ensures
        res == unverified(outcomes@),
{
    let mut bad_results: usize = 0;
    let mut i: usize = 0;
    while i < outcomes.len()
        invariant
            i <= outcomes.len(),
            bad_results <= i,
            bad_results == unverified(outcomes@.take(i as int)),
        decreases outcomes.len() - i,
    {
        assert(outcomes@.take(i + 1).drop_last() =~= outcomes@.take(i as int));
        match outcomes[i] {
            FileVerification::Verified => {},
            _ => {
                bad_results += 1;
            },
        }
        i += 1;
    }
    assert(outcomes@.take(outcomes.len() as int) =~= outcomes@);
    bad_results
}

} // verus!
