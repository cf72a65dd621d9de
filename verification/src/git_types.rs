//! Data of the Git subsystem, the repository port, and the policies for
//! reading blobs that may be missing or too large.

use std::collections::HashMap;
use vstd::prelude::*;
use crate::text::{concat_str, nat_text, u64_text};

verus! {

#[verifier::external_type_specification]
#[verifier::external_body]
pub struct ExGit2Error(git2::Error);

/// A commit as listed by `log`.
#[derive(Clone, Debug)]
pub struct CommitInfo {
    pub oid: String,
    pub short_id: String,
    pub message: String,
    pub author: String,
    pub timestamp: i64,
}

/// A commit with the ids of its parents (none for a root commit).
#[derive(Clone, Debug)]
pub struct CommitWithParents {
    pub info: CommitInfo,
    pub parents: Vec<String>,
}

/// Filters for walking history.
#[derive(Debug)]
pub struct LogQuery<'a> {
    /// Only commits that touch this file.
    pub file_path: Option<&'a str>,
    /// At most this many commits.
    pub limit: Option<usize>,
    /// Start from this ref instead of `HEAD`.
    pub start: Option<&'a str>,
}

/// How a file changed.
#[derive(Clone, Copy, Debug, PartialEq, Eq, Structural)]
pub enum ChangeStatus {
    Added,
    Removed,
    Modified,
    Renamed,
}

/// A file that changed between two commits.
#[derive(Clone, Debug)]
pub struct ChangedFile {
    pub path: String,
    pub status: ChangeStatus,
    pub old_path: Option<String>,
}

/// A file that changed in the working tree with respect to `HEAD`.
#[derive(Clone, Debug)]
pub struct WorkingChange {
    pub path: String,
    pub status: ChangeStatus,
    pub old_path: Option<String>,
}

/// The current branch and how it stands against its upstream.
#[derive(Clone, Debug)]
pub struct BranchInfo {
    pub name: String,
    pub head_oid: String,
    pub head_short: String,
    pub upstream: Option<String>,
    pub ahead: usize,
    pub behind: usize,
}

/// Errors of the Git subsystem.
#[derive(Debug)]
pub enum GitError {
    /// No repository at or above this path.
    RepositoryNotFound(String),
    /// An error of `git2`.
    Git(git2::Error),
    CommitNotFound(String),
    BlobNotFound { commit: String, path: String },
    LargeBlob { path: String, size: usize },
}

/// Blobs above this size (50 MiB) are not read.
pub const LARGE_BLOB_THRESHOLD: usize = 52428800;

/// Calls `git2::Error`'s `Display`. Nothing is claimed of the text.
#[verifier::external_body]
fn git2_error_text(e: &git2::Error) -> String {
    format!("{}", e)
}

/// The message of an error, for the variants whose text is this crate's.
pub open spec fn git_error_text(e: GitError) -> Option<Seq<char>> {
    match e {
        GitError::RepositoryNotFound(p) => Some("no se encontro un repo Git desde "@ + p@),
        GitError::Git(_) => None,
        GitError::CommitNotFound(c) => Some("commit no encontrado: "@ + c@),
        GitError::BlobNotFound { commit, path } => Some(
            "archivo no encontrado en commit "@ + commit@ + ": "@ + path@,
        ),
        GitError::LargeBlob { path, size } => Some(
            "blob demasiado grande ("@ + nat_text(size as nat) + " bytes) en "@ + path@,
        ),
    }
}

/// The human message of an error.
pub fn git_error_message(e: &GitError) -> (m: String)
    ensures
        git_error_text(*e) matches Some(t) ==> m@ == t,
        e is Git ==> m@.take(11) == "git error: "@,
{
    match e {
        GitError::RepositoryNotFound(p) => concat_str("no se encontro un repo Git desde ", p.as_str()),
        GitError::Git(g) => {
            let inner = git2_error_text(g);
            let m = concat_str("git error: ", inner.as_str());
            proof {
                reveal_strlit("git error: ");
            }
            assert(m@.take(11) =~= "git error: "@);
            m
        },
        GitError::CommitNotFound(c) => concat_str("commit no encontrado: ", c.as_str()),
        GitError::BlobNotFound { commit, path } => {
            let a = concat_str("archivo no encontrado en commit ", commit.as_str());
            let b = concat_str(a.as_str(), ": ");
            concat_str(b.as_str(), path.as_str())
        },
        GitError::LargeBlob { path, size } => {
            let a = concat_str("blob demasiado grande (", u64_text(*size as u64).as_str());
            let b = concat_str(a.as_str(), " bytes) en ");
            concat_str(b.as_str(), path.as_str())
        },
    }
}

// ───────────────────────── the repository port ─────────────────────────

/// Read access to a Git repository.
pub trait GitRepository {
    /// Whether `r` is what reading `file_path` at `commit_ish` gives. Which
    /// result that is, the repository decides; callers learn it only from
    /// `get_blob`, which ties its result to the commit and path it was asked.
    open spec fn blob_read(&self, commit_ish: Seq<char>, file_path: Seq<char>, r: Result<Vec<u8>, GitError>) -> bool {
        true
    }

    /// Content of `file_path` at `commit_ish`.
    fn get_blob(&self, commit_ish: &str, file_path: &str) -> (r: Result<Vec<u8>, GitError>)
        ensures
            self.blob_read(commit_ish@, file_path@, r),
    ;

    /// Commits reachable from `HEAD`, newest first, optionally only those
    /// touching `file_path`.
    fn get_commits(&self, file_path: Option<&str>) -> Result<Vec<CommitInfo>, GitError>;

    /// Files that differ between two commits.
    fn get_changed_files(&self, commit_a: &str, commit_b: &str) -> Result<
        Vec<ChangedFile>,
        GitError,
    >;

    /// Changes of the working tree against `HEAD`; none by default.
    fn working_tree_changes(&self) -> (r: Result<Vec<WorkingChange>, GitError>)
        default_ensures
            r matches Ok(v) && v@.len() == 0,
    {
        Ok(Vec::new())
    }

    /// The current branch; none by default.
    fn current_branch(&self) -> (r: Result<Option<BranchInfo>, GitError>)
        default_ensures
            r matches Ok(None),
    {
        Ok(None)
    }

    /// Commits with their parents, under the query's filters. By default:
    /// `get_commits` for the query's file, cut to the limit, with no parents.
    fn get_commits_with_options(&self, query: &LogQuery<'_>) -> (r: Result<
        Vec<CommitWithParents>,
        GitError,
    >)
        default_ensures
            exists|listed: Result<Vec<CommitInfo>, GitError>|
                commits_outcome(listed, query.limit, r),
    {
        let listed = self.get_commits(query.file_path);
        let ghost l = listed;
        let r = match listed {
            Err(e) => Err(e),
            Ok(commits) => Ok(with_no_parents(commits, query.limit)),
        };
        assert(commits_outcome(l, query.limit, r));
        r
    }

    /// Ref names by the commit they point at; none by default.
    fn refs_by_oid(&self) -> (r: Result<HashMap<String, Vec<String>>, GitError>)
        default_ensures
            r matches Ok(m) && m@ == Map::<String, Vec<String>>::empty(),
    {
        Ok(HashMap::new())
    }
}

/// Of the commits listed by `get_commits`, the first `limit` (all when
/// `None`), in order, each with no parents; an error passes through.
pub open spec fn commits_outcome(
    listed: Result<Vec<CommitInfo>, GitError>,
    limit: Option<usize>,
    r: Result<Vec<CommitWithParents>, GitError>,
) -> bool {
    match listed {
        Err(e) => r == Err::<Vec<CommitWithParents>, GitError>(e),
        Ok(commits) => r matches Ok(out) && out@.len() == match limit {
            Some(l) => if l < commits@.len() {
                l as int
            } else {
                commits@.len() as int
            },
            None => commits@.len() as int,
        } && forall|i: int|
            0 <= i < out@.len() ==> (#[trigger] out@[i]).info == commits@[i]
                && out@[i].parents@.len() == 0,
    }
}

/// The first `limit` commits (all when `None`), each with no parents.
pub fn with_no_parents(commits: Vec<CommitInfo>, limit: Option<usize>) -> (out: Vec<CommitWithParents>)
    ensures
        out@.len() == match limit {
            Some(l) => if l < commits@.len() {
                l as int
            } else {
                commits@.len() as int
            },
            None => commits@.len() as int,
        },
        forall|i: int|
            0 <= i < out@.len() ==> (#[trigger] out@[i]).info == commits@[i]
                && out@[i].parents@.len() == 0,
{
    let mut commits = commits;
    match limit {
        Some(l) => {
            if l < commits.len() {
                commits.truncate(l);
            }
        },
        None => {},
    }
    let ghost kept = commits@;
    let mut out: Vec<CommitWithParents> = Vec::new();
    let mut rest: Vec<CommitInfo> = Vec::new();
    let n = commits.len();
    while commits.len() > 0
        invariant
            commits@.len() + rest@.len() == n,
            n == kept.len(),
            commits@ == kept.take(commits@.len() as int),
            forall|i: int| 0 <= i < rest@.len() ==> #[trigger] rest@[i] == kept[n - 1 - i],
        decreases commits@.len(),
    {
        let c = commits.pop().unwrap();
        rest.push(c);
    }
    while rest.len() > 0
        invariant
            out@.len() + rest@.len() == n,
            forall|i: int| 0 <= i < rest@.len() ==> #[trigger] rest@[i] == kept[n - 1 - i],
            forall|i: int|
                0 <= i < out@.len() ==> (#[trigger] out@[i]).info == kept[i] && out@[i].parents@.len()
                    == 0,
        decreases rest@.len(),
    {
        let c = rest.pop().unwrap();
        out.push(CommitWithParents { info: c, parents: Vec::new() });
    }
    out
}

// ───────────────────────── blob policies ─────────────────────────

/// The warning for a blob skipped for its size.
pub open spec fn large_blob_warning(path: Seq<char>, size: nat) -> Seq<char> {
    path + " ("@ + nat_text(size) + " bytes) demasiado grande; omitiendo."@
}

/// What the lenient policy makes of a blob read: the bytes; nothing for a
/// missing blob; nothing and a warning (after `w0`, giving `w1`) for a blob
/// too large; any other error as it is.
pub open spec fn lenient_outcome(
    result: Result<Vec<u8>, GitError>,
    r: Result<Option<Vec<u8>>, GitError>,
    w0: Seq<String>,
    w1: Seq<String>,
) -> bool {
    match result {
        Ok(bytes) => r matches Ok(Some(b)) && b@ == bytes@ && w1 == w0,
        Err(GitError::BlobNotFound { .. }) => r matches Ok(None) && w1 == w0,
        Err(GitError::LargeBlob { path, size }) => r matches Ok(None) && w1.len() == w0.len() + 1
            && w1.take(w0.len() as int) == w0 && w1.last()@ == large_blob_warning(path@, size as nat),
        Err(e) => r == Err::<Option<Vec<u8>>, GitError>(e) && w1 == w0,
    }
}

/// A blob read that tolerates a missing blob (nothing, silently) and a too
/// large one (nothing, with a warning); other errors pass through.
pub fn lenient_blob(result: Result<Vec<u8>, GitError>, warnings: &mut Vec<String>) -> (r: Result<
    Option<Vec<u8>>,
    GitError,
>)
    ensures
        lenient_outcome(result, r, old(warnings)@, final(warnings)@),
{
    match result {
        Ok(bytes) => Ok(Some(bytes)),
        Err(GitError::BlobNotFound { .. }) => Ok(None),
        Err(GitError::LargeBlob { path, size }) => {
            let ghost before = warnings@;
            let a = concat_str(path.as_str(), " (");
            let b = concat_str(a.as_str(), u64_text(size as u64).as_str());
            let w = concat_str(b.as_str(), " bytes) demasiado grande; omitiendo.");
            warnings.push(w);
            assert(warnings@.take(before.len() as int) =~= before);
            Ok(None)
        },
        Err(e) => Err(e),
    }
}

/// The warning for a blob that could not be read.
pub open spec fn silent_warning(path: Seq<char>, commit: Seq<char>, message: Seq<char>) -> Seq<char> {
    path + " en "@ + commit + ": "@ + message
}

/// What the silent policy makes of a blob read of `path` at `commit`: the
/// bytes; empty content for a missing blob; empty content and a warning
/// naming path and commit (after `w0`, giving `w1`) for any other error.
pub open spec fn silent_outcome(
    result: Result<Vec<u8>, GitError>,
    commit: Seq<char>,
    path: Seq<char>,
    r: Seq<u8>,
    w0: Seq<String>,
    w1: Seq<String>,
) -> bool {
    match result {
        Ok(bytes) => r == bytes@ && w1 == w0,
        Err(GitError::BlobNotFound { .. }) => r.len() == 0 && w1 == w0,
        Err(e) => r.len() == 0 && w1.len() == w0.len() + 1 && w1.take(w0.len() as int) == w0
            && exists|m: Seq<char>|
            #![trigger silent_warning(path, commit, m)]
            w1.last()@ == silent_warning(path, commit, m) && error_message_fits(e, m),
    }
}

/// `m` is the message of `e`: its text where the crate writes it, and for a
/// `git2` error a text that starts with `git error: `.
pub open spec fn error_message_fits(e: GitError, m: Seq<char>) -> bool {
    &&& git_error_text(e) matches Some(t) ==> m == t
    &&& e is Git ==> m.take(11) == "git error: "@
}

/// A blob read where every failure gives empty content; a missing blob
/// silently, any other error with a warning naming path and commit.
pub fn silent_blob(
    result: Result<Vec<u8>, GitError>,
    commit: &str,
    path: &str,
    warnings: &mut Vec<String>,
) -> (r: Vec<u8>)
    ensures
        silent_outcome(result, commit@, path@, r@, old(warnings)@, final(warnings)@),
{
    match result {
        Ok(bytes) => bytes,
        Err(GitError::BlobNotFound { .. }) => Vec::new(),
        Err(e) => {
            let m = git_error_message(&e);
            let a = concat_str(path, " en ");
            let b = concat_str(a.as_str(), commit);
            let c = concat_str(b.as_str(), ": ");
            let w = concat_str(c.as_str(), m.as_str());
            let ghost before = warnings@;
            warnings.push(w);
            assert(warnings@.take(before.len() as int) =~= before);
            assert(w@ == silent_warning(path@, commit@, m@));
            assert(error_message_fits(e, m@));
            Vec::new()
        },
    }
}

/// Reads `path` at `commit` tolerating a missing or too large blob (see
/// `lenient_blob`).
pub fn read_blob_lenient<R: GitRepository + ?Sized>(
    repo: &R,
    commit: &str,
    path: &str,
    warnings: &mut Vec<String>,
) -> (r: Result<Option<Vec<u8>>, GitError>)
    ensures
        final(warnings)@.len() <= old(warnings)@.len() + 1,
        final(warnings)@.take(old(warnings)@.len() as int) == old(warnings)@,
        exists|blob: Result<Vec<u8>, GitError>|
            #[trigger] lenient_outcome(blob, r, old(warnings)@, final(warnings)@) && repo.blob_read(
                commit@,
                path@,
                blob,
            ),
{
    let result = repo.get_blob(commit, path);
    let ghost blob = result;
    let ghost before = warnings@;
    let r = lenient_blob(result, warnings);
    assert(warnings@.take(before.len() as int) =~= before);
    assert(lenient_outcome(blob, r, before, warnings@));
    r
}

/// Reads `path` at `commit` turning every failure into empty content (see
/// `silent_blob`).
pub fn read_blob_silent<R: GitRepository + ?Sized>(
    repo: &R,
    commit: &str,
    path: &str,
    warnings: &mut Vec<String>,
) -> (r: Vec<u8>)
    ensures
        final(warnings)@.len() <= old(warnings)@.len() + 1,
        final(warnings)@.take(old(warnings)@.len() as int) == old(warnings)@,
        exists|blob: Result<Vec<u8>, GitError>|
            #[trigger] silent_outcome(blob, commit@, path@, r@, old(warnings)@, final(warnings)@)
                && repo.blob_read(commit@, path@, blob),
{
    let result = repo.get_blob(commit, path);
    let ghost blob = result;
    let ghost before = warnings@;
    let r = silent_blob(result, commit, path, warnings);
    assert(warnings@.take(before.len() as int) =~= before);
    assert(silent_outcome(blob, commit@, path@, r@, before, warnings@));
    r
}

// ───────────────────────── small rules of the Git adapter ─────────────────────────

/// The short form of a commit id: its first seven characters.
pub fn short_oid(oid: &str) -> (s: String)
    ensures
        s@ == oid@.take(if oid@.len() < 7 { oid@.len() as int } else { 7 }),
{
    let cs = crate::text::chars_of(oid);
    let n: usize = if cs.len() < 7 { cs.len() } else { 7 };
    let v = crate::text::slice_to_vec(cs.as_slice(), 0, n);
    assert(cs@.subrange(0, n as int) =~= oid@.take(n as int));
    crate::text::string_from_chars(v.as_slice())
}

/// The status of a working tree entry from its flags: a rename wins over a
/// removal, which wins over an addition; anything else is a modification.
/// Only a rename keeps the old path.
pub fn classify_status(renamed: bool, added: bool, removed: bool, old_path: Option<String>) -> (r: (
    ChangeStatus,
    Option<String>,
))
    ensures
        r.0 == (if renamed {
            ChangeStatus::Renamed
        } else if removed {
            ChangeStatus::Removed
        } else if added {
            ChangeStatus::Added
        } else {
            ChangeStatus::Modified
        }),
        r.1 == (if renamed {
            old_path
        } else {
            None
        }),
{
    let old = if renamed {
        old_path
    } else {
        None
    };
    let status = if renamed {
        ChangeStatus::Renamed
    } else if removed {
        ChangeStatus::Removed
    } else if added {
        ChangeStatus::Added
    } else {
        ChangeStatus::Modified
    };
    (status, old)
}

/// The error for a blob of `size` bytes at `path`: `LargeBlob` above the
/// threshold, none otherwise.
pub fn large_blob_error(path: &str, size: usize) -> (r: Option<GitError>)
    ensures
        match r {
            Some(GitError::LargeBlob { path: p, size: n }) => size > LARGE_BLOB_THRESHOLD && p@ == path@
                && n == size,
            Some(_) => false,
            None => size <= LARGE_BLOB_THRESHOLD,
        },
{
    if size > LARGE_BLOB_THRESHOLD {
        Some(GitError::LargeBlob { path: path.to_string(), size })
    } else {
        None
    }
}

} // verus!
