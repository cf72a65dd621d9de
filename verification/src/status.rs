//! `riku status`: classify the files changed in the working tree.
//!
//! For each changed file the driver compares its content at `HEAD` with its
//! content on disk; the files are listed by path.

use vstd::prelude::*;
use crate::git_types::{
    git_error_message, git_error_text, BranchInfo, ChangeStatus, GitError, GitRepository,
    WorkingChange,
};
use crate::pipeline::{pipeline_summary, summarize, too_many_changes_message};
use crate::summary::{counts_positive, error_view, unknown_view, DetailLevel, FileSummary, SummaryCategory};
use crate::text::{concat_str, ends_with, nat_text, seq_lt, str_ends_with, texts, u64_text};
use crate::xschem_driver::{xschem_report, XschemDriver};

verus! {

/// Why `riku status` could not run.
#[derive(Debug)]
pub enum StatusError {
    Git(GitError),
}

impl StatusError {
    /// The human message: that of the Git error.
    pub fn message(&self) -> (m: String)
        ensures
            match self {
                StatusError::Git(e) => git_error_text(*e) matches Some(t) ==> m@ == t,
            },
    {
        match self {
            StatusError::Git(e) => git_error_message(e),
        }
    }
}

/// The outcome of `riku status`.
#[derive(Debug)]
pub struct StatusReport {
    pub branch: Option<BranchInfo>,
    pub files: Vec<FileSummary>,
    /// Non-fatal notes (a blob skipped for its size, ...).
    pub warnings: Vec<String>,
}

/// Number of files in the category.
pub open spec fn category_count(files: Seq<FileSummary>, cat: SummaryCategory) -> nat
    decreases files.len(),
{
    if files.len() == 0 {
        0
    } else {
        category_count(files.drop_last(), cat) + if files.last().category == cat {
            1nat
        } else {
            0nat
        }
    }
}

impl StatusReport {
    /// Some file has a semantic change.
    pub fn has_semantic_changes(&self) -> (b: bool)
        ensures
            b == exists|i: int|
                0 <= i < self.files@.len() && #[trigger] self.files@[i].category
                    == SummaryCategory::Semantic,
    {
        let mut i: usize = 0;
        while i < self.files.len()
            invariant
                i <= self.files@.len(),
                forall|j: int|
                    0 <= j < i ==> #[trigger] self.files@[j].category != SummaryCategory::Semantic,
            decreases self.files@.len() - i,
        {
            if self.files[i].category == SummaryCategory::Semantic {
                return true;
            }
            i = i + 1;
        }
        false
    }

    /// Number of files in the category.
    pub fn count_by_category(&self, cat: SummaryCategory) -> (n: usize)
        ensures
            n == category_count(self.files@, cat),
    {
        let mut n: usize = 0;
        let mut i: usize = 0;
        while i < self.files.len()
            invariant
                i <= self.files@.len(),
                n <= i,
                n == category_count(self.files@.take(i as int), cat),
            decreases self.files@.len() - i,
        {
            assert(self.files@.take(i + 1).drop_last() =~= self.files@.take(i as int));
            if self.files[i].category == cat {
                n = n + 1;
            }
            i = i + 1;
        }
        assert(self.files@.take(self.files@.len() as int) =~= self.files@);
        n
    }
}

/// The result of `riku status` for the exit code.
#[derive(Clone, Copy, Debug, PartialEq, Eq, Structural)]
pub enum StatusOutcome {
    /// No semantic change.
    Clean,
    /// At least one semantic change.
    Dirty,
}

/// `Dirty` exactly when some file has a semantic change.
pub fn status_outcome(report: &StatusReport) -> (o: StatusOutcome)
    ensures
        (o == StatusOutcome::Dirty) == exists|i: int|
            0 <= i < report.files@.len() && #[trigger] report.files@[i].category
                == SummaryCategory::Semantic,
{
    if report.has_semantic_changes() {
        StatusOutcome::Dirty
    } else {
        StatusOutcome::Clean
    }
}

// ───────────────────────── ordering ─────────────────────────

/// Every summary's counts are at least one.
pub open spec fn all_counts_positive(files: Seq<FileSummary>) -> bool {
    forall|i: int| 0 <= i < files.len() ==> counts_positive(#[trigger] files[i]@.counts)
}

/// Paths never decrease along the list.
pub open spec fn sorted_by_path(s: Seq<FileSummary>) -> bool {
    forall|i: int, j: int| 0 <= i < j < s.len() ==> !seq_lt(#[trigger] s[j].path@, #[trigger] s[i].path@)
}

fn path_less(f: &FileSummary, xp: &Vec<char>) -> (b: bool)
    ensures
        b == seq_lt(f.path@, xp@),
{
    let op = crate::text::chars_of(f.path.as_str());
    crate::text::chars_less(op.as_slice(), xp.as_slice())
}

/// The files ordered by path (same files, paths non-decreasing).
pub fn sort_by_path(files: Vec<FileSummary>) -> (out: Vec<FileSummary>)
    ensures
        sorted_by_path(out@),
        out@.to_multiset() == files@.to_multiset(),
{
    broadcast use vstd::multiset::group_multiset_axioms;

    let mut files = files;
    let ghost original = files@;
    let mut out: Vec<FileSummary> = Vec::new();
    proof {
        vstd::seq_lib::to_multiset_len(out@);
        vstd::multiset::lemma_multiset_empty_len(out@.to_multiset());
    }
    assert(out@.to_multiset().add(files@.to_multiset()) =~= original.to_multiset());
    while files.len() > 0
        invariant
            sorted_by_path(out@),
            out@.to_multiset().add(files@.to_multiset()) == original.to_multiset(),
        decreases files@.len(),
    {
        let ghost before = files@;
        let ghost old_out = out@;
        let x = files.pop().unwrap();
        assert(before =~= files@.push(x));
        proof {
            vstd::seq_lib::to_multiset_build(files@, x);
        }
        let xp = crate::text::chars_of(x.path.as_str());
        let mut p: usize = 0;
        while p < out.len() && path_less(&out[p], &xp)
            invariant
                p <= out@.len(),
                out@ == old_out,
                xp@ == x.path@,
                forall|j: int| 0 <= j < p ==> seq_lt(#[trigger] out@[j].path@, x.path@),
            decreases out@.len() - p,
        {
            p = p + 1;
        }
        proof {
            assert forall|j: int| p <= j < old_out.len() implies !seq_lt(
                #[trigger] old_out[j].path@,
                x.path@,
            ) by {
                if j > p {
                    assert(!seq_lt(old_out[j].path@, old_out[p as int].path@));
                    crate::text::lemma_seq_lt_total(old_out[j].path@, old_out[p as int].path@);
                    if seq_lt(old_out[j].path@, x.path@) {
                        if old_out[j].path@ == old_out[p as int].path@ {
                        } else {
                            crate::text::lemma_seq_lt_transitive(
                                old_out[p as int].path@,
                                old_out[j].path@,
                                x.path@,
                            );
                        }
                    }
                }
            }
        }
        out.insert(p, x);
        proof {
            let n = out@;
            assert forall|i: int, j: int| 0 <= i < j < n.len() implies !seq_lt(
                #[trigger] n[j].path@,
                #[trigger] n[i].path@,
            ) by {
                if j < p {
                    assert(n[i] == old_out[i] && n[j] == old_out[j]);
                } else if j == p {
                    assert(n[i] == old_out[i]);
                    crate::text::lemma_seq_lt_asymmetric(old_out[i].path@, x.path@);
                } else if i < p {
                    assert(n[i] == old_out[i] && n[j] == old_out[j - 1]);
                } else if i == p {
                    assert(n[j] == old_out[j - 1]);
                } else {
                    assert(n[i] == old_out[i - 1] && n[j] == old_out[j - 1]);
                }
            }
            assert(n =~= old_out.insert(p as int, x));
            vstd::seq_lib::to_multiset_insert(old_out, p as int, x);
            assert(n.to_multiset() == old_out.to_multiset().insert(x));
            assert(before.to_multiset() == files@.to_multiset().insert(x));
            assert(n.to_multiset().add(files@.to_multiset()) =~= old_out.to_multiset().add(
                before.to_multiset(),
            ));
        }
    }
    proof {
        vstd::seq_lib::to_multiset_len(files@);
        vstd::multiset::lemma_multiset_empty_len(files@.to_multiset());
    }
    assert(out@.to_multiset() =~= out@.to_multiset().add(files@.to_multiset()));
    out
}


// ───────────────────────── drivers ─────────────────────────

/// A driver handles the file: the Xschem driver takes `.sch` files.
pub open spec fn has_driver(path: Seq<char>) -> bool {
    ends_with(path, ".sch"@)
}

/// The driver for a file, chosen by its extension.
pub fn get_driver_for(path: &str) -> (d: Option<XschemDriver>)
    ensures
        d is Some <==> has_driver(path@),
{
    if str_ends_with(path, ".sch") {
        Some(XschemDriver::new())
    } else {
        None
    }
}

// ───────────────────────── the working tree ─────────────────────────

/// Read access to the files of the working tree.
pub trait WorkingTreeFiles {
    /// Whether `r` is what reading the file at `rel_path` gives. Which result
    /// that is, the working tree decides; callers learn it only from
    /// `read_file`, which ties its result to the path it was asked.
    open spec fn file_read(&self, rel_path: Seq<char>, r: Result<Vec<u8>, String>) -> bool {
        true
    }

    /// The content of the file at `rel_path`, relative to the working tree
    /// root, or a message saying why it could not be read.
    fn read_file(&self, rel_path: &str) -> (r: Result<Vec<u8>, String>)
        ensures
            self.file_read(rel_path@, r),
    ;
}

/// No working tree at hand: every file reads as empty.
pub struct NoWorkingTree {}

impl WorkingTreeFiles for NoWorkingTree {
    fn read_file(&self, rel_path: &str) -> (r: Result<Vec<u8>, String>)
        ensures
            r matches Ok(b) && b@.len() == 0,
    {
        Ok(Vec::new())
    }
}

// ───────────────────────── one change ─────────────────────────

/// The warning for a `HEAD` blob skipped for its size.
pub open spec fn head_large_warning(path: Seq<char>, size: nat) -> Seq<char> {
    path + " ("@ + nat_text(size) + " bytes) demasiado grande en HEAD; se asume vacío."@
}

/// The warning for a working tree file that could not be read.
pub open spec fn workdir_warning(path: Seq<char>, message: Seq<char>) -> Seq<char> {
    path + ": "@ + message
}

/// The content before a change: empty for an added file, for a blob missing
/// at `HEAD` and for one too large; `None` when reading `HEAD` failed
/// otherwise.
pub open spec fn content_before(status: ChangeStatus, head: Result<Vec<u8>, GitError>) -> Option<Seq<u8>> {
    if status == ChangeStatus::Added {
        Some(Seq::empty())
    } else {
        match head {
            Ok(b) => Some(b@),
            Err(GitError::BlobNotFound { .. }) => Some(Seq::empty()),
            Err(GitError::LargeBlob { .. }) => Some(Seq::empty()),
            Err(_) => None,
        }
    }
}

/// The warnings that reading the content before a change gives.
pub open spec fn before_warnings(status: ChangeStatus, head: Result<Vec<u8>, GitError>) -> Seq<Seq<char>> {
    if status == ChangeStatus::Added {
        Seq::empty()
    } else {
        match head {
            Err(GitError::LargeBlob { path, size }) => seq![head_large_warning(path@, size as nat)],
            _ => Seq::empty(),
        }
    }
}

/// The content after a change: empty for a removed file or one that could
/// not be read.
pub open spec fn content_after(status: ChangeStatus, disk: Result<Vec<u8>, String>) -> Seq<u8> {
    if status == ChangeStatus::Removed {
        Seq::empty()
    } else {
        match disk {
            Ok(b) => b@,
            Err(_) => Seq::empty(),
        }
    }
}

/// The warnings that reading the content after a change gives.
pub open spec fn after_warnings(path: Seq<char>, status: ChangeStatus, disk: Result<Vec<u8>, String>) -> Seq<Seq<char>> {
    if status == ChangeStatus::Removed {
        Seq::empty()
    } else {
        match disk {
            Ok(_) => Seq::empty(),
            Err(m) => seq![workdir_warning(path, m@)],
        }
    }
}

/// The content before a change, from what reading it at `HEAD` gave (not
/// looked at for an added file). A blob too large adds a warning; an error
/// other than a missing blob comes back as it is.
pub fn content_before_change(
    change: &WorkingChange,
    head: Result<Vec<u8>, GitError>,
    warnings: &mut Vec<String>,
) -> (r: Result<Vec<u8>, GitError>)
    ensures
        match content_before(change.status, head) {
            Some(b) => r matches Ok(v) && v@ == b,
            None => r == head,
        },
        texts(final(warnings)@) == texts(old(warnings)@) + before_warnings(change.status, head),
{
    let ghost w0 = texts(warnings@);
    if change.status == ChangeStatus::Added {
        assert(texts(warnings@) =~= w0 + Seq::<Seq<char>>::empty());
        return Ok(Vec::new());
    }
    match head {
        Ok(bytes) => {
            assert(texts(warnings@) =~= w0 + Seq::<Seq<char>>::empty());
            Ok(bytes)
        },
        Err(GitError::BlobNotFound { commit, path }) => {
            assert(texts(warnings@) =~= w0 + Seq::<Seq<char>>::empty());
            Ok(Vec::new())
        },
        Err(GitError::LargeBlob { path, size }) => {
            let a = concat_str(path.as_str(), " (");
            let b = concat_str(a.as_str(), u64_text(size as u64).as_str());
            let w = concat_str(b.as_str(), " bytes) demasiado grande en HEAD; se asume vacío.");
            warnings.push(w);
            assert(texts(warnings@) =~= w0 + seq![head_large_warning(path@, size as nat)]);
            Ok(Vec::new())
        },
        Err(e) => {
            assert(texts(warnings@) =~= w0 + Seq::<Seq<char>>::empty());
            Err(e)
        },
    }
}

/// The content after a change, from what reading the working tree gave (not
/// looked at for a removed file). A failed read gives empty content and a
/// warning.
pub fn content_after_change(
    change: &WorkingChange,
    disk: Result<Vec<u8>, String>,
    warnings: &mut Vec<String>,
) -> (r: Vec<u8>)
    ensures
        r@ == content_after(change.status, disk),
        texts(final(warnings)@) == texts(old(warnings)@) + after_warnings(
            change.path@,
            change.status,
            disk,
        ),
{
    let ghost w0 = texts(warnings@);
    if change.status == ChangeStatus::Removed {
        assert(texts(warnings@) =~= w0 + Seq::<Seq<char>>::empty());
        return Vec::new();
    }
    match disk {
        Ok(bytes) => {
            assert(texts(warnings@) =~= w0 + Seq::<Seq<char>>::empty());
            bytes
        },
        Err(msg) => {
            let a = concat_str(change.path.as_str(), ": ");
            let w = concat_str(a.as_str(), msg.as_str());
            warnings.push(w);
            assert(texts(warnings@) =~= w0 + seq![workdir_warning(change.path@, msg@)]);
            Vec::new()
        },
    }
}

/// The reads a change's summary rests on are those of its own file: for a
/// file a driver takes, `head` is what the repository gave for the path at
/// `HEAD` (read unless the file was added), and `disk` what the working tree
/// gave for the path (read when the content before it could be had, unless
/// the file was removed).
pub open spec fn reads_fit<R: GitRepository + ?Sized, W: WorkingTreeFiles + ?Sized>(
    repo: &R,
    workdir: &W,
    path: Seq<char>,
    status: ChangeStatus,
    head: Result<Vec<u8>, GitError>,
    disk: Result<Vec<u8>, String>,
) -> bool {
    &&& has_driver(path) && status != ChangeStatus::Added ==> repo.blob_read("HEAD"@, path, head)
    &&& has_driver(path) && content_before(status, head) is Some && status != ChangeStatus::Removed
        ==> workdir.file_read(path, disk)
}

/// The summary of one working tree change: `Unknown` for a file no driver
/// handles; `Error` when `HEAD` could not be read; else the driver's report
/// on the content at `HEAD` and the content on disk.
pub fn summarize_change<R: GitRepository + ?Sized, W: WorkingTreeFiles + ?Sized>(
    repo: &R,
    workdir: &W,
    change: &WorkingChange,
    level: DetailLevel,
    warnings: &mut Vec<String>,
) -> (s: FileSummary)
    ensures
        s@.path == change.path@,
        counts_positive(s@.counts),
        exists|head: Result<Vec<u8>, GitError>, disk: Result<Vec<u8>, String>|
            change_outcome(
                change.path@,
                change.status,
                head,
                disk,
                level,
                s@,
                texts(old(warnings)@),
                texts(final(warnings)@),
            ) && reads_fit(repo, workdir, change.path@, change.status, head, disk),
{
    let ghost w0 = texts(warnings@);
    let driver = match get_driver_for(change.path.as_str()) {
        Some(d) => d,
        None => {
            let s = FileSummary::unknown(change.path.as_str());
            let ghost h: Result<Vec<u8>, GitError> = vstd::pervasive::arbitrary();
            let ghost d: Result<Vec<u8>, String> = vstd::pervasive::arbitrary();
            assert(w0 =~= w0 + Seq::<Seq<char>>::empty());
            assert(change_outcome(change.path@, change.status, h, d, level, s@, w0, texts(warnings@)));
            assert(reads_fit(repo, workdir, change.path@, change.status, h, d));
            return s;
        },
    };
    let head = if change.status == ChangeStatus::Added {
        Ok(Vec::new())
    } else {
        repo.get_blob("HEAD", change.path.as_str())
    };
    let ghost h = head;
    let before = match content_before_change(change, head, warnings) {
        Ok(b) => b,
        Err(e) => {
            let s = FileSummary::error(change.path.as_str(), git_error_message(&e));
            let ghost d: Result<Vec<u8>, String> = vstd::pervasive::arbitrary();
            assert(w0 =~= w0 + Seq::<Seq<char>>::empty());
            assert(change_outcome(change.path@, change.status, h, d, level, s@, w0, texts(warnings@)));
            assert(reads_fit(repo, workdir, change.path@, change.status, h, d));
            return s;
        },
    };
    let ghost w1 = texts(warnings@);
    let disk = if change.status == ChangeStatus::Removed {
        Ok(Vec::new())
    } else {
        workdir.read_file(change.path.as_str())
    };
    let ghost d = disk;
    let after = content_after_change(change, disk, warnings);
    let s = summarize(
        &driver,
        before.as_slice(),
        after.as_slice(),
        change.path.as_str(),
        level,
    );
    assert(texts(warnings@) =~= w0 + (before_warnings(change.status, h) + after_warnings(
        change.path@,
        change.status,
        d,
    )));
    assert(change_outcome(change.path@, change.status, h, d, level, s@, w0, texts(warnings@)));
    assert(reads_fit(repo, workdir, change.path@, change.status, h, d));
    s
}

/// The summary of a change from what its two reads gave: `head`, the blob at
/// `HEAD`, and `disk`, the file in the working tree.
pub open spec fn change_summary(
    path: Seq<char>,
    status: ChangeStatus,
    head: Result<Vec<u8>, GitError>,
    disk: Result<Vec<u8>, String>,
    level: DetailLevel,
) -> Option<crate::summary::FileSummaryView> {
    if !has_driver(path) {
        Some(unknown_view(path))
    } else {
        match content_before(status, head) {
            None => match head {
                Err(e) => match git_error_text(e) {
                    Some(t) => Some(error_view(path, t)),
                    None => None,
                },
                Ok(_) => None,
            },
            Some(b) => {
                let a = content_after(status, disk);
                if xschem_report(b, a, path).1.len() <= i64::MAX {
                    Some(pipeline_summary(b, a, path, level))
                } else {
                    Some(error_view(path, too_many_changes_message()))
                }
            },
        }
    }
}

/// What summarizing a change gives, for the reads `head` and `disk`: the
/// summary (where its text is this crate's), an `Error` summary when `HEAD`
/// could not be read, and the warnings added to `w_before` to make `w_after`.
pub open spec fn change_outcome(
    path: Seq<char>,
    status: ChangeStatus,
    head: Result<Vec<u8>, GitError>,
    disk: Result<Vec<u8>, String>,
    level: DetailLevel,
    s: crate::summary::FileSummaryView,
    w_before: Seq<Seq<char>>,
    w_after: Seq<Seq<char>>,
) -> bool {
    &&& (change_summary(path, status, head, disk, level) matches Some(v) ==> s == v)
    &&& (has_driver(path) && content_before(status, head) is None ==> s.category
        == SummaryCategory::Error && s.path == path)
    &&& w_after == w_before + if !has_driver(path) {
        Seq::empty()
    } else {
        match content_before(status, head) {
            None => Seq::empty(),
            Some(_) => before_warnings(status, head) + after_warnings(path, status, disk),
        }
    }
}

/// A reordering of summaries keeps every count at least one.
proof fn lemma_permutation_keeps_counts(a: Seq<FileSummary>, b: Seq<FileSummary>)
    requires
        all_counts_positive(a),
        b.to_multiset() == a.to_multiset(),
    ensures
        all_counts_positive(b),
{
    assert forall|i: int| 0 <= i < b.len() implies counts_positive(#[trigger] b[i]@.counts) by {
        vstd::seq_lib::to_multiset_contains(b, b[i]);
        assert(b.contains(b[i]));
        vstd::seq_lib::to_multiset_contains(a, b[i]);
        let j = choose|j: int| 0 <= j < a.len() && a[j] == b[i];
        assert(counts_positive(a[j]@.counts));
    }
}

/// What a change of a file a driver takes is compared as: the content at
/// `HEAD` against the content on disk; an added file against nothing before
/// it, a removed file against nothing after it. When the reads succeed (and
/// the changes can be counted), the summary is the driver's summary of
/// exactly those two contents.
pub proof fn lemma_change_compares_head_with_disk(
    path: Seq<char>,
    status: ChangeStatus,
    head: Result<Vec<u8>, GitError>,
    disk: Result<Vec<u8>, String>,
    level: DetailLevel,
    s: crate::summary::FileSummaryView,
    w0: Seq<Seq<char>>,
    w1: Seq<Seq<char>>,
)
    requires
        change_outcome(path, status, head, disk, level, s, w0, w1),
        has_driver(path),
    ensures
        status == ChangeStatus::Removed && head is Ok && xschem_report(head->Ok_0@, Seq::empty(), path).1.len()
            <= i64::MAX ==> s == pipeline_summary(head->Ok_0@, Seq::empty(), path, level),
        status == ChangeStatus::Added && disk is Ok && xschem_report(Seq::empty(), disk->Ok_0@, path).1.len()
            <= i64::MAX ==> s == pipeline_summary(Seq::empty(), disk->Ok_0@, path, level),
        (status == ChangeStatus::Modified || status == ChangeStatus::Renamed) && head is Ok && disk is Ok
            && xschem_report(head->Ok_0@, disk->Ok_0@, path).1.len() <= i64::MAX ==> s == pipeline_summary(
            head->Ok_0@,
            disk->Ok_0@,
            path,
            level,
        ),
{
}

// ───────────────────────── the whole status ─────────────────────────

/// A summary is what summarizing the change at `level` gives for the reads
/// of its file at `HEAD` and on disk (see `change_outcome` and `reads_fit`),
/// the warnings going from `w0` to `w1`.
pub open spec fn change_fits<R: GitRepository + ?Sized, W: WorkingTreeFiles + ?Sized>(
    repo: &R,
    workdir: &W,
    c: WorkingChange,
    level: DetailLevel,
    s: crate::summary::FileSummaryView,
    w0: Seq<Seq<char>>,
    w1: Seq<Seq<char>>,
) -> bool {
    exists|head: Result<Vec<u8>, GitError>, disk: Result<Vec<u8>, String>|
        #[trigger] change_outcome(c.path@, c.status, head, disk, level, s, w0, w1) && reads_fit(
            repo,
            workdir,
            c.path@,
            c.status,
            head,
            disk,
        )
}

/// The report holds `branch` and one summary per change of `cs`, each with
/// the change's path, counts of at least one, and what summarizing that
/// change at `level` gives, reordered by path; its warnings are those the
/// changes met, in the order of `cs` (`ws[j]` before change `j`).
pub open spec fn report_fits<R: GitRepository + ?Sized, W: WorkingTreeFiles + ?Sized>(
    repo: &R,
    workdir: &W,
    rep: StatusReport,
    branch: Option<BranchInfo>,
    cs: Seq<WorkingChange>,
    level: DetailLevel,
) -> bool {
    &&& rep.branch == branch
    &&& sorted_by_path(rep.files@)
    &&& all_counts_positive(rep.files@)
    &&& rep.files@.len() == cs.len()
    &&& exists|unsorted: Seq<FileSummary>, ws: Seq<Seq<Seq<char>>>|
        #![trigger unsorted.to_multiset(), ws.len()]
        unsorted.len() == cs.len() && ws.len() == cs.len() + 1 && ws[0] == Seq::<Seq<char>>::empty()
            && ws[cs.len() as int] == texts(rep.warnings@) && (forall|j: int|
            0 <= j < cs.len() ==> #[trigger] unsorted[j].path@ == cs[j].path@ && change_fits(
                repo,
                workdir,
                cs[j],
                level,
                unsorted[j]@,
                ws[j],
                ws[j + 1],
            )) && unsorted.to_multiset() == rep.files@.to_multiset()
}

/// What the status gives once the branch `branch` is known, for what
/// listing the working tree changes gave.
pub open spec fn changes_outcome<R: GitRepository + ?Sized, W: WorkingTreeFiles + ?Sized>(
    repo: &R,
    workdir: &W,
    branch: Option<BranchInfo>,
    changes: Result<Vec<WorkingChange>, GitError>,
    level: DetailLevel,
    r: Result<StatusReport, StatusError>,
) -> bool {
    match changes {
        Err(e) => r == Err::<StatusReport, StatusError>(StatusError::Git(e)),
        Ok(cs) => r matches Ok(rep) && report_fits(repo, workdir, rep, branch, cs@, level),
    }
}

/// What the status gives for what reading the current branch gave: its
/// error as it is, or else the report for some listing of the changes.
pub open spec fn branch_outcome<R: GitRepository + ?Sized, W: WorkingTreeFiles + ?Sized>(
    repo: &R,
    workdir: &W,
    branch: Result<Option<BranchInfo>, GitError>,
    level: DetailLevel,
    r: Result<StatusReport, StatusError>,
) -> bool {
    match branch {
        Err(e) => r == Err::<StatusReport, StatusError>(StatusError::Git(e)),
        Ok(b) => exists|changes: Result<Vec<WorkingChange>, GitError>|
            #[trigger] changes_outcome(repo, workdir, b, changes, level, r),
    }
}

/// The report once the branch is known, from what listing the working tree
/// changes gave: its error as it is, or one summary per change (see
/// `summarize_change`) ordered by path, with the warnings met on the way.
pub fn report_from_changes<R: GitRepository + ?Sized, W: WorkingTreeFiles + ?Sized>(
    repo: &R,
    workdir: &W,
    branch: Option<BranchInfo>,
    changes: Result<Vec<WorkingChange>, GitError>,
    level: DetailLevel,
) -> (r: Result<StatusReport, StatusError>)
    ensures
        changes_outcome(repo, workdir, branch, changes, level, r),
{
    let ghost b0 = branch;
    let ghost c0 = changes;
    let changes = match changes {
        Ok(c) => c,
        Err(e) => return Err(StatusError::Git(e)),
    };
    let mut files: Vec<FileSummary> = Vec::new();
    let mut warnings: Vec<String> = Vec::new();
    let ghost mut ws: Seq<Seq<Seq<char>>> = seq![Seq::<Seq<char>>::empty()];
    assert(texts(warnings@) =~= Seq::<Seq<char>>::empty());
    let mut i: usize = 0;
    while i < changes.len()
        invariant
            i <= changes@.len(),
            files@.len() == i,
            ws.len() == i + 1,
            ws[0] == Seq::<Seq<char>>::empty(),
            ws[i as int] == texts(warnings@),
            forall|j: int|
                0 <= j < i ==> #[trigger] files@[j].path@ == changes@[j].path@ && change_fits(
                    repo,
                    workdir,
                    changes@[j],
                    level,
                    files@[j]@,
                    ws[j],
                    ws[j + 1],
                ),
            all_counts_positive(files@),
        decreases changes@.len() - i,
    {
        let ghost w0 = texts(warnings@);
        let s = summarize_change(repo, workdir, &changes[i], level, &mut warnings);
        proof {
            let c = changes@[i as int];
            let w1 = texts(warnings@);
            let (h, d) = choose|h: Result<Vec<u8>, GitError>, d: Result<Vec<u8>, String>|
                change_outcome(c.path@, c.status, h, d, level, s@, w0, w1) && reads_fit(
                    repo,
                    workdir,
                    c.path@,
                    c.status,
                    h,
                    d,
                );
            assert(change_outcome(c.path@, c.status, h, d, level, s@, w0, w1));
            assert(reads_fit(repo, workdir, c.path@, c.status, h, d));
            assert(change_fits(repo, workdir, c, level, s@, w0, w1));
            ws = ws.push(w1);
        }
        files.push(s);
        i = i + 1;
    }
    let ghost unsorted = files@;
    let sorted = sort_by_path(files);
    proof {
        lemma_permutation_keeps_counts(unsorted, sorted@);
        vstd::seq_lib::to_multiset_len(unsorted);
        vstd::seq_lib::to_multiset_len(sorted@);
    }
    let rep = StatusReport { branch, files: sorted, warnings };
    assert(unsorted.to_multiset() == rep.files@.to_multiset());
    assert(ws.len() == changes@.len() + 1);
    assert(report_fits(repo, workdir, rep, b0, changes@, level));
    let r = Ok(rep);
    assert(changes_outcome(repo, workdir, b0, c0, level, r));
    r
}

/// The report once reading the current branch gave `branch`: its error as
/// it is; or else the working tree changes are listed and reported on (see
/// `report_from_changes`).
pub fn report_from_branch<R: GitRepository + ?Sized, W: WorkingTreeFiles + ?Sized>(
    repo: &R,
    workdir: &W,
    branch: Result<Option<BranchInfo>, GitError>,
    level: DetailLevel,
) -> (r: Result<StatusReport, StatusError>)
    ensures
        branch_outcome(repo, workdir, branch, level, r),
{
    match branch {
        Err(e) => Err(StatusError::Git(e)),
        Ok(b) => {
            let ghost b0 = b;
            let changes = repo.working_tree_changes();
            let ghost c0 = changes;
            let r = report_from_changes(repo, workdir, b, changes, level);
            assert(changes_outcome(repo, workdir, b0, c0, level, r));
            r
        },
    }
}

/// The report of the working tree against `HEAD` at a detail level: what
/// `report_from_branch` gives for what reading the current branch gave.
pub fn analyze_with_repo_at<R: GitRepository + ?Sized, W: WorkingTreeFiles + ?Sized>(
    repo: &R,
    workdir: &W,
    level: DetailLevel,
) -> (r: Result<StatusReport, StatusError>)
    ensures
        exists|branch: Result<Option<BranchInfo>, GitError>| #[trigger] branch_outcome(repo, workdir, branch, level, r),
        r matches Ok(rep) ==> sorted_by_path(rep.files@) && all_counts_positive(rep.files@),
{
    let branch = repo.current_branch();
    let ghost b0 = branch;
    let r = report_from_branch(repo, workdir, branch, level);
    assert(branch_outcome(repo, workdir, b0, level, r));
    proof {
        if let Ok(b) = b0 {
            let c = choose|changes: Result<Vec<WorkingChange>, GitError>| changes_outcome(repo, workdir, b, changes, level, r);
            assert(changes_outcome(repo, workdir, b, c, level, r));
        }
    }
    r
}

/// The report of the working tree against `HEAD`, at the `Resumen` level.
pub fn analyze_with_repo<R: GitRepository + ?Sized, W: WorkingTreeFiles + ?Sized>(
    repo: &R,
    workdir: &W,
) -> (r: Result<StatusReport, StatusError>)
    ensures
        exists|branch: Result<Option<BranchInfo>, GitError>|
            #[trigger] branch_outcome(repo, workdir, branch, DetailLevel::Resumen, r),
        r matches Ok(rep) ==> sorted_by_path(rep.files@) && all_counts_positive(rep.files@),
{
    analyze_with_repo_at(repo, workdir, DetailLevel::Resumen)
}

} // verus!
