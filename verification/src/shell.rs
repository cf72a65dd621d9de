//! The interactive shell's reading of one input line: what to do with it.

use vstd::prelude::*;
use crate::text::{
    chars_eq, chars_of, concat_str, ends_with, seq_lt, slice_to_vec, str_ends_with, string_from_chars, texts,
    trim, trim_bounds,
};

verus! {

broadcast use crate::text::lemma_texts_push;

/// What one line of the shell asks for.
#[derive(Debug)]
pub enum ShellAction {
    /// A blank line: nothing.
    Skip,
    /// `exit`, `quit` or `q`.
    Exit,
    Help,
    /// Change directory; `.` when no target is given.
    Cd(String),
    /// List a directory; the current one when none is given.
    Ls(Option<String>),
    /// Any other line, trimmed, for the command parser.
    Dispatch(String),
}

/// Index of the first space of `s` at or after `i`, or the length of `s`.
pub open spec fn space_from(s: Seq<char>, i: int) -> int
    decreases s.len() - i,
{
    if i >= s.len() {
        s.len() as int
    } else if s[i] == ' ' {
        i
    } else {
        space_from(s, i + 1)
    }
}

/// The command word of a trimmed line: up to its first space.
pub open spec fn command_word(t: Seq<char>) -> Seq<char> {
    t.take(space_from(t, 0))
}

/// The rest of a trimmed line after the command word and its space, trimmed.
pub open spec fn command_rest(t: Seq<char>) -> Seq<char> {
    let k = space_from(t, 0);
    if k < t.len() {
        trim(t.skip(k + 1))
    } else {
        Seq::empty()
    }
}

/// What a line asks for, read from the line trimmed.
pub open spec fn action_of(line: Seq<char>) -> ShellActionView {
    let t = trim(line);
    let cmd = command_word(t);
    let rest = command_rest(t);
    if t.len() == 0 {
        ShellActionView::Skip
    } else if cmd == "exit"@ || cmd == "quit"@ || cmd == "q"@ {
        ShellActionView::Exit
    } else if cmd == "help"@ {
        ShellActionView::Help
    } else if cmd == "cd"@ {
        ShellActionView::Cd(if rest.len() == 0 { "."@ } else { rest })
    } else if cmd == "ls"@ {
        ShellActionView::Ls(if rest.len() == 0 { None } else { Some(rest) })
    } else {
        ShellActionView::Dispatch(t)
    }
}

/// Abstract value of a `ShellAction`.
pub enum ShellActionView {
    Skip,
    Exit,
    Help,
    Cd(Seq<char>),
    Ls(Option<Seq<char>>),
    Dispatch(Seq<char>),
}

impl View for ShellAction {
    type V = ShellActionView;

    open spec fn view(&self) -> ShellActionView {
        match self {
            ShellAction::Skip => ShellActionView::Skip,
            ShellAction::Exit => ShellActionView::Exit,
            ShellAction::Help => ShellActionView::Help,
            ShellAction::Cd(s) => ShellActionView::Cd(s@),
            ShellAction::Ls(o) => ShellActionView::Ls(
                match o {
                    Some(s) => Some(s@),
                    None => None,
                },
            ),
            ShellAction::Dispatch(s) => ShellActionView::Dispatch(s@),
        }
    }
}

fn is_word(w: &Vec<char>, lit: &str) -> (b: bool)
    ensures
        b == (w@ == lit@),
{
    let l = chars_of(lit);
    chars_eq(w.as_slice(), l.as_slice())
}

/// What a line of the shell asks for.
pub fn shell_action(line: &str) -> (a: ShellAction)
    ensures
        a@ == action_of(line@),
{
    let s = chars_of(line);
    let (b, e) = trim_bounds(s.as_slice(), 0, s.len());
    assert(s@.subrange(0, s@.len() as int) =~= s@);
    let ghost t = s@.subrange(b as int, e as int);
    if b == e {
        return ShellAction::Skip;
    }
    let mut k = b;
    while k < e && s[k] != ' '
        invariant
            b <= k <= e <= s@.len(),
            t == s@.subrange(b as int, e as int),
            space_from(t, k - b) == space_from(t, 0),
        decreases e - k,
    {
        assert(t[k - b] == s@[k as int]);
        k = k + 1;
    }
    proof {
        if k < e {
            assert(t[k - b] == s@[k as int]);
        }
        assert(space_from(t, 0) == k - b);
    }
    let cmd = slice_to_vec(s.as_slice(), b, k);
    assert(cmd@ =~= command_word(t));
    let rest: Vec<char> = if k < e {
        let (rb, re) = trim_bounds(s.as_slice(), k + 1, e);
        assert(t.skip(k - b + 1) =~= s@.subrange(k + 1, e as int));
        slice_to_vec(s.as_slice(), rb, re)
    } else {
        Vec::new()
    };
    assert(rest@ =~= command_rest(t));
    if is_word(&cmd, "exit") || is_word(&cmd, "quit") || is_word(&cmd, "q") {
        ShellAction::Exit
    } else if is_word(&cmd, "help") {
        ShellAction::Help
    } else if is_word(&cmd, "cd") {
        if rest.len() == 0 {
            ShellAction::Cd(".".to_string())
        } else {
            ShellAction::Cd(string_from_chars(rest.as_slice()))
        }
    } else if is_word(&cmd, "ls") {
        if rest.len() == 0 {
            ShellAction::Ls(None)
        } else {
            ShellAction::Ls(Some(string_from_chars(rest.as_slice())))
        }
    } else {
        let tv = slice_to_vec(s.as_slice(), b, e);
        ShellAction::Dispatch(string_from_chars(tv.as_slice()))
    }
}

// ───────────────────────── listing a directory ─────────────────────────

/// One entry of a directory, as `ls` in the shell lists it.
#[derive(Debug)]
pub struct LsEntry {
    pub name: String,
    pub is_dir: bool,
    /// The entry lies inside the repository's working tree.
    pub in_git: bool,
}

/// A schematic by its name: it has the extension `sch` (`x.sch`, not `.sch`).
pub open spec fn is_sch_name(name: Seq<char>) -> bool {
    ends_with(name, ".sch"@) && name.len() > 4
}

/// Whether a file name has the extension `sch`.
pub fn has_sch_extension(name: &str) -> (b: bool)
    ensures
        b == is_sch_name(name@),
{
    let n = chars_of(name);
    str_ends_with(name, ".sch") && n.len() > 4
}

/// Names never decrease along the list.
pub open spec fn names_sorted(s: Seq<LsEntry>) -> bool {
    forall|i: int, j: int| 0 <= i < j < s.len() ==> !seq_lt(#[trigger] s[j].name@, #[trigger] s[i].name@)
}

/// The lines of the subdirectories, in order.
pub open spec fn dir_lines(s: Seq<LsEntry>) -> Seq<Seq<char>>
    decreases s.len(),
{
    if s.len() == 0 {
        Seq::empty()
    } else {
        dir_lines(s.drop_last()) + if s.last().is_dir {
            seq!["      "@ + s.last().name@ + "/"@]
        } else {
            Seq::empty()
        }
    }
}

/// The lines of the schematics, in order, each tagged when in the repository.
pub open spec fn sch_lines(s: Seq<LsEntry>) -> Seq<Seq<char>>
    decreases s.len(),
{
    if s.len() == 0 {
        Seq::empty()
    } else {
        sch_lines(s.drop_last()) + if is_sch_name(s.last().name@) {
            seq!["  "@ + (if s.last().in_git { "[git]"@ } else { "     "@ }) + "  "@ + s.last().name@]
        } else {
            Seq::empty()
        }
    }
}

/// The listing of entries already in name order: a blank line, the
/// subdirectories, the schematics (or a note when there is neither), a
/// blank line.
pub open spec fn ls_lines(s: Seq<LsEntry>) -> Seq<Seq<char>> {
    let body = dir_lines(s) + sch_lines(s);
    seq![Seq::empty()] + body + (if body.len() == 0 {
        seq!["  (sin archivos .sch ni subdirectorios)"@]
    } else {
        Seq::empty()
    }) + seq![Seq::empty()]
}

fn name_less(e: &LsEntry, xp: &Vec<char>) -> (b: bool)
    ensures
        b == seq_lt(e.name@, xp@),
{
    let op = chars_of(e.name.as_str());
    crate::text::chars_less(op.as_slice(), xp.as_slice())
}

/// The entries ordered by name (same entries).
pub fn sort_by_name(entries: Vec<LsEntry>) -> (out: Vec<LsEntry>)
    ensures
        names_sorted(out@),
        out@.to_multiset() == entries@.to_multiset(),
{
    broadcast use vstd::multiset::group_multiset_axioms;

    let mut entries = entries;
    let ghost original = entries@;
    let mut out: Vec<LsEntry> = Vec::new();
    proof {
        vstd::seq_lib::to_multiset_len(out@);
        vstd::multiset::lemma_multiset_empty_len(out@.to_multiset());
    }
    assert(out@.to_multiset().add(entries@.to_multiset()) =~= original.to_multiset());
    while entries.len() > 0
        invariant
            names_sorted(out@),
            out@.to_multiset().add(entries@.to_multiset()) == original.to_multiset(),
        decreases entries@.len(),
    {
        let ghost before = entries@;
        let ghost old_out = out@;
        let x = entries.pop().unwrap();
        assert(before =~= entries@.push(x));
        proof {
            vstd::seq_lib::to_multiset_build(entries@, x);
        }
        let xp = chars_of(x.name.as_str());
        let mut p: usize = 0;
        while p < out.len() && name_less(&out[p], &xp)
            invariant
                p <= out@.len(),
                out@ == old_out,
                xp@ == x.name@,
                forall|j: int| 0 <= j < p ==> seq_lt(#[trigger] out@[j].name@, x.name@),
            decreases out@.len() - p,
        {
            p = p + 1;
        }
        proof {
            assert forall|j: int| p <= j < old_out.len() implies !seq_lt(
                #[trigger] old_out[j].name@,
                x.name@,
            ) by {
                if j > p {
                    assert(!seq_lt(old_out[j].name@, old_out[p as int].name@));
                    crate::text::lemma_seq_lt_total(old_out[j].name@, old_out[p as int].name@);
                    if seq_lt(old_out[j].name@, x.name@) {
                        if old_out[j].name@ != old_out[p as int].name@ {
                            crate::text::lemma_seq_lt_transitive(
                                old_out[p as int].name@,
                                old_out[j].name@,
                                x.name@,
                            );
                        }
                    }
                }
            }
        }
        out.insert(p, x);
        proof {
            let n = out@;
            assert forall|i: int, j: int| 0 <= i < j < n.len() implies !seq_lt(
                #[trigger] n[j].name@,
                #[trigger] n[i].name@,
            ) by {
                if j < p {
                    assert(n[i] == old_out[i] && n[j] == old_out[j]);
                } else if j == p {
                    assert(n[i] == old_out[i]);
                    crate::text::lemma_seq_lt_asymmetric(old_out[i].name@, x.name@);
                } else if i < p {
                    assert(n[i] == old_out[i] && n[j] == old_out[j - 1]);
                } else if i == p {
                    assert(n[j] == old_out[j - 1]);
                } else {
                    assert(n[i] == old_out[i - 1] && n[j] == old_out[j - 1]);
                }
            }
            assert(n =~= old_out.insert(p as int, x));
            vstd::seq_lib::to_multiset_insert(old_out, p as int, x);
            assert(n.to_multiset().add(entries@.to_multiset()) =~= old_out.to_multiset().add(
                before.to_multiset(),
            ));
        }
    }
    proof {
        vstd::seq_lib::to_multiset_len(entries@);
        vstd::multiset::lemma_multiset_empty_len(entries@.to_multiset());
    }
    assert(out@.to_multiset() =~= out@.to_multiset().add(entries@.to_multiset()));
    out
}

fn listing_text(s: &Vec<LsEntry>) -> (r: Vec<String>)
    ensures
        texts(r@) == ls_lines(s@),
{
    let mut lines: Vec<String> = Vec::new();
    lines.push(String::new());
    let ghost head = texts(lines@);
    let mut found = false;
    let mut i: usize = 0;
    assert(dir_lines(s@.take(0)) =~= Seq::<Seq<char>>::empty());
    while i < s.len()
        invariant
            i <= s@.len(),
            texts(lines@) == head + dir_lines(s@.take(i as int)),
            found == (dir_lines(s@.take(i as int)).len() > 0),
        decreases s@.len() - i,
    {
        assert(s@.take(i + 1).drop_last() =~= s@.take(i as int));
        let ghost before = texts(lines@);
        if s[i].is_dir {
            let a = concat_str("      ", s[i].name.as_str());
            lines.push(concat_str(a.as_str(), "/"));
            found = true;
        } else {
            assert(texts(lines@) =~= before + Seq::<Seq<char>>::empty());
        }
        assert(texts(lines@) =~= head + dir_lines(s@.take(i + 1)));
        i = i + 1;
    }
    assert(s@.take(s@.len() as int) =~= s@);
    let ghost mid = texts(lines@);
    let mut j: usize = 0;
    assert(sch_lines(s@.take(0)) =~= Seq::<Seq<char>>::empty());
    assert(mid =~= mid + sch_lines(s@.take(0)));
    while j < s.len()
        invariant
            j <= s@.len(),
            mid == head + dir_lines(s@),
            texts(lines@) == mid + sch_lines(s@.take(j as int)),
            found == (dir_lines(s@).len() + sch_lines(s@.take(j as int)).len() > 0),
        decreases s@.len() - j,
    {
        assert(s@.take(j + 1).drop_last() =~= s@.take(j as int));
        let ghost before = texts(lines@);
        if has_sch_extension(s[j].name.as_str()) {
            let tag = if s[j].in_git {
                "[git]"
            } else {
                "     "
            };
            let a = concat_str("  ", tag);
            let b = concat_str(a.as_str(), "  ");
            lines.push(concat_str(b.as_str(), s[j].name.as_str()));
            found = true;
        } else {
            assert(texts(lines@) =~= before + Seq::<Seq<char>>::empty());
        }
        assert(texts(lines@) =~= mid + sch_lines(s@.take(j + 1)));
        j = j + 1;
    }
    assert(s@.take(s@.len() as int) =~= s@);
    let ghost body = dir_lines(s@) + sch_lines(s@);
    assert(texts(lines@) =~= seq![Seq::<char>::empty()] + body);
    if !found {
        lines.push("  (sin archivos .sch ni subdirectorios)".to_string());
    } else {
        assert(texts(lines@) =~= seq![Seq::<char>::empty()] + body + Seq::<Seq<char>>::empty());
    }
    lines.push(String::new());
    assert(texts(lines@) =~= ls_lines(s@));
    lines
}

/// The lines `ls` prints for the entries of a directory: sorted by name,
/// the subdirectories first, then the schematics.
pub fn ls_listing(entries: Vec<LsEntry>) -> (r: Vec<String>)
    ensures
        exists|s: Seq<LsEntry>|
            s.to_multiset() == entries@.to_multiset() && names_sorted(s) && texts(r@) == ls_lines(s),
{
    let sorted = sort_by_name(entries);
    let r = listing_text(&sorted);
    assert(sorted@.to_multiset() == entries@.to_multiset() && names_sorted(sorted@) && texts(r@)
        == ls_lines(sorted@));
    r
}

// ───────────────────────── prompt and banner ─────────────────────────

/// The end of `s` after its last `/`, from index `i` on.
pub open spec fn after_last_slash(s: Seq<char>, i: int) -> Seq<char>
    decreases s.len() - i,
{
    if i >= s.len() {
        s
    } else if s[s.len() - 1 - i] == '/' {
        s.skip(s.len() - i)
    } else {
        after_last_slash(s, i + 1)
    }
}

/// `s` without its trailing `/`s.
pub open spec fn strip_slashes(s: Seq<char>) -> Seq<char>
    decreases s.len(),
{
    if s.len() > 0 && s.last() == '/' {
        strip_slashes(s.drop_last())
    } else {
        s
    }
}

/// The last component of a path, as `Path::file_name` gives it: none for a
/// path ending in `..`, `.`, or made of slashes only.
pub open spec fn file_name_of(path: Seq<char>) -> Option<Seq<char>> {
    let last = after_last_slash(strip_slashes(path), 0);
    if last.len() == 0 || last == "."@ || last == ".."@ {
        None
    } else {
        Some(last)
    }
}

/// The shell's prompt: the current directory's name (its whole path when it
/// has none), marked when inside a repository.
pub open spec fn prompt_of(cwd: Seq<char>, in_repo: bool) -> Seq<char> {
    "riku "@ + match file_name_of(cwd) {
        Some(n) => n,
        None => cwd,
    } + (if in_repo { " (git)"@ } else { Seq::empty() }) + "> "@
}

/// The last component of a path, if it has one.
pub fn file_name(path: &str) -> (r: Option<String>)
    ensures
        match r {
            Some(n) => file_name_of(path@) == Some(n@),
            None => file_name_of(path@) is None,
        },
{
    let p = chars_of(path);
    let mut e = p.len();
    assert(p@.take(p@.len() as int) =~= p@);
    while e > 0 && p[e - 1] == '/'
        invariant
            e <= p@.len(),
            strip_slashes(p@) == strip_slashes(p@.take(e as int)),
        decreases e,
    {
        assert(p@.take(e as int).drop_last() =~= p@.take(e - 1));
        e = e - 1;
    }
    assert(p@.take(p@.len() as int) =~= p@);
    let ghost t = p@.take(e as int);
    assert(strip_slashes(p@) == t);
    let mut k: usize = 0;
    while k < e && p[e - 1 - k] != '/'
        invariant
            k <= e <= p@.len(),
            t == p@.take(e as int),
            after_last_slash(t, 0) == after_last_slash(t, k as int),
        decreases e - k,
    {
        assert(t[t.len() - 1 - k] == p@[e - 1 - k]);
        k = k + 1;
    }
    proof {
        if k < e {
            assert(t[t.len() - 1 - k] == p@[e - 1 - k]);
        }
    }
    let last = slice_to_vec(p.as_slice(), e - k, e);
    assert(last@ =~= after_last_slash(t, 0));
    let dot = chars_of(".");
    let dotdot = chars_of("..");
    if last.len() == 0 || chars_eq(last.as_slice(), dot.as_slice()) || chars_eq(
        last.as_slice(),
        dotdot.as_slice(),
    ) {
        None
    } else {
        Some(string_from_chars(last.as_slice()))
    }
}

/// The shell's prompt.
pub fn prompt(cwd: &str, in_repo: bool) -> (r: String)
    ensures
        r@ == prompt_of(cwd@, in_repo),
{
    let dir = match file_name(cwd) {
        Some(n) => n,
        None => cwd.to_string(),
    };
    let a = concat_str("riku ", dir.as_str());
    let b = if in_repo {
        concat_str(a.as_str(), " (git)")
    } else {
        assert(a@ =~= a@ + Seq::<char>::empty());
        a
    };
    concat_str(b.as_str(), "> ")
}

/// The banner line under the logo: the version, the PDK and the repository.
pub open spec fn banner_line(version: Seq<char>, pdk: Option<Seq<char>>, repo: Option<Seq<char>>) -> Seq<char> {
    "  v"@ + version + "  ·  "@ + match pdk {
        Some(p) => "PDK: "@ + p + " [ok]"@,
        None => "PDK: no detectado"@,
    } + "  ·  "@ + match repo {
        Some(r) => r,
        None => "repo: no encontrado"@,
    }
}

/// The banner line under the logo; `pdk` is the PDK whose symbols were
/// found, `repo` the working tree found.
pub fn shell_status_line(version: &str, pdk: Option<&str>, repo: Option<&str>) -> (r: String)
    ensures
        r@ == banner_line(
            version@,
            match pdk {
                Some(p) => Some(p@),
                None => None,
            },
            match repo {
                Some(x) => Some(x@),
                None => None,
            },
        ),
{
    let p = match pdk {
        Some(name) => {
            let a = concat_str("PDK: ", name);
            concat_str(a.as_str(), " [ok]")
        },
        None => "PDK: no detectado".to_string(),
    };
    let r = match repo {
        Some(x) => x.to_string(),
        None => "repo: no encontrado".to_string(),
    };
    let a = concat_str("  v", version);
    let b = concat_str(a.as_str(), "  ·  ");
    let c = concat_str(b.as_str(), p.as_str());
    let d = concat_str(c.as_str(), "  ·  ");
    concat_str(d.as_str(), r.as_str())
}

} // verus!
