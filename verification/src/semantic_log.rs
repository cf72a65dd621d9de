//! The lines of `riku log`: one line per commit, newest first, up to a
//! limit; with `--semantic` and a file, each commit that has a predecessor in
//! the list is compared with it and a note of the counts follows its line.

use vstd::prelude::*;
use crate::format::{format_log_line, format_log_note, kind_counts, log_line, log_note, summarize_changes};
use crate::git_types::{read_blob_silent, silent_outcome, CommitInfo, GitError, GitRepository};
use crate::text::texts;
use crate::xschem_driver::{opt_text, xschem_report, XschemDriver};

verus! {

broadcast use crate::text::lemma_texts_push;

/// The note on a commit whose file went from `before` to `after`: the
/// counts of what the Xschem driver finds, when there is any.
pub open spec fn commit_note(before: Seq<u8>, after: Seq<u8>, path: Seq<char>) -> Option<Seq<char>> {
    let k = kind_counts(xschem_report(before, after, path).1);
    log_note(k.0, k.1, k.2)
}

/// A commit that left its file as it was gets no note.
pub proof fn lemma_unchanged_file_has_no_note(a: Seq<u8>, path: Seq<char>)
    ensures
        commit_note(a, a, path) is None,
{
    crate::parser::lemma_schematic_of_sorted(a);
    crate::semantic_diff::lemma_diff_of_same_schematic_is_empty(crate::parser::schematic_of(a));
    let r = crate::semantic_diff::diff_view(crate::parser::schematic_of(a), crate::parser::schematic_of(a));
    assert(crate::driver::entries_of(r) =~= Seq::<crate::driver::DiffEntryView>::empty());
    assert(xschem_report(a, a, path).1.len() == 0);
}

/// The lines of one commit: its log line, then its note when it has one.
pub open spec fn commit_lines(c: CommitInfo, note: Option<Seq<char>>) -> Seq<Seq<char>> {
    seq![log_line(c.short_id@, c.author@, c.message@)] + match note {
        Some(n) => seq![n],
        None => Seq::empty(),
    }
}

/// The lines of the first `n` commits, each with its note.
pub open spec fn log_text(commits: Seq<CommitInfo>, notes: Seq<Option<Seq<char>>>, n: int) -> Seq<Seq<char>>
    decreases n,
{
    if n <= 0 {
        Seq::empty()
    } else {
        log_text(commits, notes, n - 1) + commit_lines(commits[n - 1], notes[n - 1])
    }
}

proof fn lemma_log_text_prefix(
    commits: Seq<CommitInfo>,
    notes: Seq<Option<Seq<char>>>,
    k: int,
    v: Option<Seq<char>>,
    n: int,
)
    requires
        0 <= k < notes.len(),
        n <= k,
    ensures
        log_text(commits, notes.update(k, v), n) == log_text(commits, notes, n),
    decreases n,
{
    if n > 0 {
        lemma_log_text_prefix(commits, notes, k, v, n - 1);
    }
}

/// What `riku log` says when there are no commits.
pub open spec fn no_commits_line() -> Seq<char> {
    "Sin commits encontrados."@
}

/// Whether commit `i` of `len` gets compared: `--semantic` with a file, and
/// a predecessor (the next, older commit) in the list.
pub open spec fn compared(semantic: bool, has_file: bool, i: int, len: int) -> bool {
    semantic && has_file && i + 1 < len
}

/// How many commits are shown: `limit`, or all when there are fewer.
pub open spec fn shown(limit: int, len: int) -> int {
    if limit < len {
        limit
    } else {
        len
    }
}

/// The content the silent blob policy makes of a read: the bytes, or empty
/// content for any error.
pub open spec fn silent_content(r: Result<Vec<u8>, GitError>) -> Seq<u8> {
    match r {
        Ok(b) => b@,
        Err(_) => Seq::empty(),
    }
}

/// The note of commit `i` is what the repository's contents of its file give:
/// read at its predecessor `commits[i + 1]` for before and at `commits[i]`
/// for after.
pub open spec fn note_fits<R: GitRepository + ?Sized>(
    repo: &R,
    commits: Seq<CommitInfo>,
    i: int,
    path: Seq<char>,
    note: Option<Seq<char>>,
) -> bool {
    exists|rb: Result<Vec<u8>, GitError>, ra: Result<Vec<u8>, GitError>|
        #![trigger repo.blob_read(commits[i + 1].oid@, path, rb), repo.blob_read(commits[i].oid@, path, ra)]
        repo.blob_read(commits[i + 1].oid@, path, rb) && repo.blob_read(commits[i].oid@, path, ra)
            && commit_note(silent_content(rb), silent_content(ra), path) == note
}

/// The notes of the first `n` commits: a compared commit's note is what its
/// file's contents at its predecessor and at it give; any other commit has
/// none.
pub open spec fn notes_fit<R: GitRepository + ?Sized>(
    repo: &R,
    commits: Seq<CommitInfo>,
    notes: Seq<Option<Seq<char>>>,
    semantic: bool,
    file_path: Option<&str>,
    n: int,
) -> bool {
    forall|j: int|
        0 <= j < n ==> (compared(semantic, file_path is Some, j, commits.len() as int) ==> note_fits(
            repo,
            commits,
            j,
            file_path->0@,
            #[trigger] notes[j],
        )) && (!compared(semantic, file_path is Some, j, commits.len() as int) ==> notes[j] is None)
}

proof fn lemma_notes_fit_step<R: GitRepository + ?Sized>(
    repo: &R,
    commits: Seq<CommitInfo>,
    notes: Seq<Option<Seq<char>>>,
    semantic: bool,
    file_path: Option<&str>,
    i: int,
    nv: Option<Seq<char>>,
)
    requires
        0 <= i < notes.len(),
        notes_fit(repo, commits, notes, semantic, file_path, i),
        compared(semantic, file_path is Some, i, commits.len() as int) ==> note_fits(
            repo,
            commits,
            i,
            file_path->0@,
            nv,
        ),
        !compared(semantic, file_path is Some, i, commits.len() as int) ==> nv is None,
    ensures
        notes_fit(repo, commits, notes.update(i, nv), semantic, file_path, i + 1),
{
    let u = notes.update(i, nv);
    assert forall|j: int| 0 <= j < i + 1 implies (compared(semantic, file_path is Some, j, commits.len() as int)
        ==> note_fits(repo, commits, j, file_path->0@, #[trigger] u[j])) && (!compared(
        semantic,
        file_path is Some,
        j,
        commits.len() as int,
    ) ==> u[j] is None) by {
        if j < i {
            assert(u[j] == notes[j]);
        }
    }
}

/// The note of a commit from the contents of its file before and after it.
pub fn note_for(before: &[u8], after: &[u8], path: &str) -> (r: Option<String>)
    ensures
        match r {
            Some(s) => commit_note(before@, after@, path@) == Some(s@),
            None => commit_note(before@, after@, path@) is None,
        },
{
    let report = XschemDriver::new().diff(before, after, path);
    let (added, removed, modified) = summarize_changes(report.changes.as_slice());
    format_log_note(added, removed, modified)
}

/// The note of commit `i`: when it is compared, its file read (silently) at
/// its predecessor and at it, and `note_for` of the two; else none.
fn commit_note_at<R: GitRepository + ?Sized>(
    repo: &R,
    commits: &Vec<CommitInfo>,
    i: usize,
    file_path: Option<&str>,
    semantic: bool,
) -> (note: Option<String>)
    requires
        i < commits@.len(),
    ensures
        compared(semantic, file_path is Some, i as int, commits@.len() as int) ==> note_fits(
            repo,
            commits@,
            i as int,
            file_path->0@,
            opt_text(note),
        ),
        !compared(semantic, file_path is Some, i as int, commits@.len() as int) ==> note is None,
{
    if semantic && commits.len() - i > 1 {
        match file_path {
            Some(fp) => {
                let mut warnings: Vec<String> = Vec::new();
                let before = read_blob_silent(repo, commits[i + 1].oid.as_str(), fp, &mut warnings);
                let ghost w1 = warnings@;
                let after = read_blob_silent(repo, commits[i].oid.as_str(), fp, &mut warnings);
                let note = note_for(before.as_slice(), after.as_slice(), fp);
                proof {
                    let rb = choose|rb: Result<Vec<u8>, GitError>|
                        #[trigger] silent_outcome(rb, commits@[i + 1].oid@, fp@, before@, Seq::empty(), w1) && repo.blob_read(
                            commits@[i + 1].oid@,
                            fp@,
                            rb,
                        );
                    let ra = choose|ra: Result<Vec<u8>, GitError>|
                        #[trigger] silent_outcome(ra, commits@[i as int].oid@, fp@, after@, w1, warnings@) && repo.blob_read(
                            commits@[i as int].oid@,
                            fp@,
                            ra,
                        );
                    assert(before@ =~= silent_content(rb));
                    assert(after@ =~= silent_content(ra));
                    assert(repo.blob_read(commits@[i + 1].oid@, fp@, rb) && repo.blob_read(commits@[i as int].oid@, fp@, ra));
                }
                note
            },
            None => None,
        }
    } else {
        None
    }
}

/// The lines of `riku log` over `commits` (newest first): at most `limit`
/// commits, each with its line and, when it is compared, the note of its
/// file against its predecessor's (both read with the silent blob policy);
/// a single line when there are no commits.
pub fn log_lines<R: GitRepository + ?Sized>(
    repo: &R,
    commits: &Vec<CommitInfo>,
    file_path: Option<&str>,
    limit: usize,
    semantic: bool,
) -> (out: Vec<String>)
    ensures
        commits@.len() == 0 ==> texts(out@) == seq![no_commits_line()],
        commits@.len() > 0 ==> exists|notes: Seq<Option<Seq<char>>>|
            #![trigger notes.len()]
            notes.len() == commits@.len() && texts(out@) == log_text(
                commits@,
                notes,
                shown(limit as int, commits@.len() as int),
            ) && notes_fit(repo, commits@, notes, semantic, file_path, shown(limit as int, commits@.len() as int)),
{
    let mut out: Vec<String> = Vec::new();
    if commits.len() == 0 {
        let line = "Sin commits encontrados.".to_string();
        out.push(line);
        proof {
            reveal_strlit("Sin commits encontrados.");
            assert(texts(out@) =~= seq![no_commits_line()]);
        }
        return out;
    }
    let n: usize = if limit < commits.len() {
        limit
    } else {
        commits.len()
    };
    let ghost mut notes: Seq<Option<Seq<char>>> = Seq::new(
        commits@.len(),
        |i: int| None::<Seq<char>>,
    );
    assert(texts(out@) =~= log_text(commits@, notes, 0));
    let mut i: usize = 0;
    while i < n
        invariant
            n <= commits@.len(),
            i <= n,
            notes.len() == commits@.len(),
            texts(out@) == log_text(commits@, notes, i as int),
            notes_fit(repo, commits@, notes, semantic, file_path, i as int),
            forall|j: int| i <= j < notes.len() ==> #[trigger] notes[j] is None,
        decreases n - i,
    {
        let c = &commits[i];
        out.push(format_log_line(c.short_id.as_str(), c.author.as_str(), c.message.as_str()));
        let note = commit_note_at(repo, commits, i, file_path, semantic);
        let ghost nv = opt_text(note);
        proof {
            lemma_log_text_prefix(commits@, notes, i as int, nv, i as int);
            lemma_notes_fit_step(repo, commits@, notes, semantic, file_path, i as int, nv);
            notes = notes.update(i as int, nv);
        }
        match note {
            Some(s) => out.push(s),
            None => {},
        }
        proof {
            assert(log_text(commits@, notes, i + 1) == log_text(commits@, notes, i as int) + commit_lines(
                commits@[i as int],
                notes[i as int],
            ));
            assert(texts(out@) =~= log_text(commits@, notes, i + 1));
        }
        i = i + 1;
    }
    out
}

} // verus!
