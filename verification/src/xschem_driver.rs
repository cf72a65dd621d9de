//! The Xschem driver: semantic diff of `.sch` files as a driver report, and
//! the render cache locations.

use vstd::prelude::*;
use crate::driver::{component_entry, entries_of, layout_entry, move_all_note, net_entry, report_of_entries, DiffEntry, DiffEntryView, DriverDiffReport};
use crate::models::{ChangeKind, ComponentDiffView, ComponentView, DiffReport, FileFormat, SchematicView, opt_map_view};
use crate::parser::{decode_lossy, detect_format, format_of, lines_of, lossy_text, schematic_of, split_lines};
use crate::semantic_diff::{added_entry, diff, diff_view, lemma_diff_from_nothing, lemma_diff_to_nothing, removed_entry};
use crate::text::{chars_of, concat_str, contains_chars, contains_seq, string_from_chars, trim, trim_bounds};
use crate::textmap::TextMap;

verus! {

// ───────────────────────── outside calls ─────────────────────────

/// SHA-256 digest of the bytes, as computed by the `sha2` crate.
pub uninterp spec fn sha256_digest(data: Seq<u8>) -> Seq<u8>;

/// Calls `sha2::Sha256::digest`. Claims: the digest depends on the data alone
/// (it is `sha256_digest` of it) and is 32 bytes long, SHA-256's output size.
#[verifier::external_body]
fn sha256(data: &[u8]) -> (d: Vec<u8>)
    ensures
        d@ == sha256_digest(data@),
        d@.len() == 32,
{
    <sha2::Sha256 as sha2::Digest>::digest(data).to_vec()
}

/// Calls `dirs::cache_dir`, the user's cache directory, as text. It depends on
/// the platform and the environment; nothing is claimed of it.
#[verifier::external_body]
fn user_cache_dir() -> Option<String> {
    match dirs::cache_dir() {
        Some(p) => Some(p.to_string_lossy().into_owned()),
        None => None,
    }
}

/// Calls `tempfile::env::temp_dir`, the system temporary directory, as text.
/// It depends on the environment; nothing is claimed of it.
#[verifier::external_body]
fn system_temp_dir() -> String {
    tempfile::env::temp_dir().to_string_lossy().into_owned()
}

// ───────────────────────── hex and keys ─────────────────────────

pub open spec fn hex_digit(n: nat) -> char {
    if n < 10 {
        crate::text::digit_char(n)
    } else if n == 10 {
        'a'
    } else if n == 11 {
        'b'
    } else if n == 12 {
        'c'
    } else if n == 13 {
        'd'
    } else if n == 14 {
        'e'
    } else {
        'f'
    }
}

/// Lowercase hexadecimal text of bytes, two digits each.
pub open spec fn hex_of(bytes: Seq<u8>) -> Seq<char>
    decreases bytes.len(),
{
    if bytes.len() == 0 {
        Seq::empty()
    } else {
        hex_of(bytes.drop_last()) + seq![
            hex_digit((bytes.last() / 16) as nat),
            hex_digit((bytes.last() % 16) as nat),
        ]
    }
}

pub proof fn lemma_hex_len(bytes: Seq<u8>)
    ensures
        hex_of(bytes).len() == 2 * bytes.len(),
    decreases bytes.len(),
{
    if bytes.len() > 0 {
        lemma_hex_len(bytes.drop_last());
    }
}

fn hex_char(n: u8) -> (c: char)
    requires
        n < 16,
    ensures
        c == hex_digit(n as nat),
{
    if n < 10 {
        if n == 0 {
            '0'
        } else if n == 1 {
            '1'
        } else if n == 2 {
            '2'
        } else if n == 3 {
            '3'
        } else if n == 4 {
            '4'
        } else if n == 5 {
            '5'
        } else if n == 6 {
            '6'
        } else if n == 7 {
            '7'
        } else if n == 8 {
            '8'
        } else {
            '9'
        }
    } else if n == 10 {
        'a'
    } else if n == 11 {
        'b'
    } else if n == 12 {
        'c'
    } else if n == 13 {
        'd'
    } else if n == 14 {
        'e'
    } else {
        'f'
    }
}

/// Lowercase hexadecimal text of bytes.
pub fn hex_text(bytes: &[u8]) -> (s: String)
    ensures
        s@ == hex_of(bytes@),
{
    let mut out: Vec<char> = Vec::new();
    let mut i: usize = 0;
    while i < bytes.len()
        invariant
            i <= bytes@.len(),
            out@ == hex_of(bytes@.take(i as int)),
        decreases bytes@.len() - i,
    {
        let b = bytes[i];
        out.push(hex_char(b / 16));
        out.push(hex_char(b % 16));
        assert(bytes@.take(i + 1).drop_last() =~= bytes@.take(i as int));
        assert(out@ =~= hex_of(bytes@.take(i + 1)));
        i = i + 1;
    }
    assert(bytes@.take(bytes@.len() as int) =~= bytes@);
    string_from_chars(out.as_slice())
}

/// The bytes a render key hashes: the tool version, `::`, the file content.
pub open spec fn render_key_input(version: Seq<char>, content: Seq<u8>) -> Seq<u8> {
    vstd::utf8::encode_utf8(version) + seq![58u8, 58u8] + content
}

/// The render cache key: hex SHA-256 of version, `::` and content.
pub open spec fn render_key_of(version: Seq<char>, content: Seq<u8>) -> Seq<char> {
    hex_of(sha256_digest(render_key_input(version, content)))
}

/// `base` joined with `name` as `PathBuf::join` does on Unix: an absolute
/// `name` replaces `base`; otherwise a `/` is put between them unless `base`
/// is empty or ends with one.
pub open spec fn join_path(base: Seq<char>, name: Seq<char>) -> Seq<char> {
    if name.len() > 0 && name[0] == '/' {
        name
    } else if base.len() == 0 || base.last() == '/' {
        base + name
    } else {
        base + seq!['/'] + name
    }
}

/// Joins `name` onto `base` as `PathBuf::join` does on Unix.
pub fn join_path_text(base: &str, name: &str) -> (p: String)
    ensures
        p@ == join_path(base@, name@),
{
    let n = chars_of(name);
    if n.len() > 0 && n[0] == '/' {
        return name.to_string();
    }
    let b = chars_of(base);
    if b.len() == 0 || b[b.len() - 1] == '/' {
        concat_str(base, name)
    } else {
        let with_sep = concat_str(base, "/");
        proof {
            reveal_strlit("/");
        }
        let p = concat_str(with_sep.as_str(), name);
        assert(p@ =~= base@ + seq!['/'] + name@);
        p
    }
}

/// The text of an optional text.
pub open spec fn opt_text(o: Option<String>) -> Option<Seq<char>> {
    match o {
        Some(t) => Some(t@),
        None => None,
    }
}

/// The base of the render cache: the user's cache directory when there is
/// one, else the system temporary directory.
pub open spec fn cache_base(user: Option<Seq<char>>, temp: Seq<char>) -> Seq<char> {
    match user {
        Some(d) => d,
        None => temp,
    }
}

/// The directory of the render cache under a base directory: `base/riku/ops`.
pub open spec fn cache_root_under(base: Seq<char>) -> Seq<char> {
    join_path(join_path(base, "riku"@), "ops"@)
}

/// The SVG path, the origins path and the key of a render, under `root`.
pub open spec fn render_paths_under(root: Seq<char>, key: Seq<char>) -> (Seq<char>, Seq<char>, Seq<char>) {
    (
        join_path(join_path(root, key), "render.svg"@),
        join_path(join_path(root, key), "origins.txt"@),
        key,
    )
}

// ───────────────────────── the driver ─────────────────────────

/// The warning for a file that is not Xschem.
pub open spec fn not_xschem_warning(path_hint: Seq<char>) -> Seq<char> {
    path_hint + ": no es formato Xschem, usando diff de texto."@
}

/// The report of the Xschem driver on two versions of a file.
pub open spec fn xschem_report(a: Seq<u8>, b: Seq<u8>, path_hint: Seq<char>) -> (FileFormat, Seq<DiffEntryView>, Seq<Seq<char>>) {
    if a.len() > 0 && format_of(a) != FileFormat::Xschem {
        (FileFormat::Xschem, Seq::empty(), seq![not_xschem_warning(path_hint)])
    } else {
        (FileFormat::Xschem, entries_of(diff_view(schematic_of(a), schematic_of(b))), Seq::empty())
    }
}

/// What a new file reports: each component of its first version added, in
/// name order, then each of its nets added.
pub open spec fn new_file_entries(s: SchematicView) -> Seq<DiffEntryView> {
    s.components.map_values(|e: (Seq<char>, ComponentView)| component_entry(added_entry(e.0, e.1)))
        + s.nets.map_values(|e: (Seq<char>, ())| net_entry(ChangeKind::Added, e.0))
}

/// What a deleted file reports: each component of its last version removed,
/// in name order, then each of its nets removed.
pub open spec fn deleted_file_entries(s: SchematicView) -> Seq<DiffEntryView> {
    s.components.map_values(|e: (Seq<char>, ComponentView)| component_entry(removed_entry(e.0, e.1)))
        + s.nets.map_values(|e: (Seq<char>, ())| net_entry(ChangeKind::Removed, e.0))
}

/// The driver for Xschem schematics.
#[derive(Clone, Debug)]
pub struct XschemDriver {}

impl XschemDriver {
    pub fn new() -> (d: XschemDriver)
        ensures
            d == (XschemDriver {  }),
    {
        XschemDriver {  }
    }

    /// The render cache key of a file for a tool version.
    pub fn render_key(version: &str, content: &[u8]) -> (k: String)
        ensures
            k@ == render_key_of(version@, content@),
            k@.len() == 64,
    {
        let mut data: Vec<u8> = Vec::new();
        let vb = version.as_bytes();
        let mut i: usize = 0;
        while i < vb.len()
            invariant
                i <= vb@.len(),
                data@ == vb@.take(i as int),
            decreases vb@.len() - i,
        {
            data.push(vb[i]);
            assert(vb@.take(i + 1) =~= vb@.take(i as int).push(vb@[i as int]));
            i = i + 1;
        }
        data.push(58u8);
        data.push(58u8);
        let ghost head = data@;
        let mut j: usize = 0;
        while j < content.len()
            invariant
                j <= content@.len(),
                data@ == head + content@.take(j as int),
            decreases content@.len() - j,
        {
            data.push(content[j]);
            assert(content@.take(j + 1) =~= content@.take(j as int).push(content@[j as int]));
            j = j + 1;
        }
        assert(vb@.take(vb@.len() as int) =~= vb@);
        assert(content@.take(content@.len() as int) =~= content@);
        assert(data@ =~= render_key_input(version@, content@));
        let digest = sha256(data.as_slice());
        proof {
            lemma_hex_len(digest@);
        }
        hex_text(digest.as_slice())
    }

    /// Paths of the rendered SVG and of the origins file, and the key, under
    /// the cache root `root`.
    pub fn render_paths_in(root: &str, version: &str, content: &[u8]) -> (r: (String, String, String))
        ensures
            (r.0@, r.1@, r.2@) == render_paths_under(root@, render_key_of(version@, content@)),
    {
        let key = Self::render_key(version, content);
        let dir = join_path_text(root, key.as_str());
        let svg = join_path_text(dir.as_str(), "render.svg");
        let origins = join_path_text(dir.as_str(), "origins.txt");
        (svg, origins, key)
    }

    /// The render cache root for what the environment gave: the user's cache
    /// directory `user` when there is one, else the system temporary
    /// directory `temp`, with `riku/ops` under it.
    pub fn cache_root_from(user: Option<String>, temp: String) -> (r: String)
        ensures
            r@ == cache_root_under(cache_base(opt_text(user), temp@)),
    {
        let base = match user {
            Some(d) => d,
            None => temp,
        };
        let riku = join_path_text(base.as_str(), "riku");
        join_path_text(riku.as_str(), "ops")
    }

    /// The render cache root: what `cache_root_from` gives for the user's
    /// cache directory and, only when there is none, the system temporary
    /// directory.
    pub fn cache_root() -> (r: String)
        ensures
            exists|user: Option<Seq<char>>, temp: Seq<char>|
                #![trigger cache_base(user, temp)]
                r@ == cache_root_under(cache_base(user, temp)),
    {
        let user = user_cache_dir();
        let temp = if user.is_none() {
            system_temp_dir()
        } else {
            String::new()
        };
        let ghost u = opt_text(user);
        let ghost t = temp@;
        let r = Self::cache_root_from(user, temp);
        assert(r@ == cache_root_under(cache_base(u, t)));
        r
    }

    /// Paths of the rendered SVG and of the origins file, and the key, in the
    /// render cache: what `render_paths_in` gives under the root that
    /// `cache_root` gives.
    pub fn render_paths(version: &str, content: &[u8]) -> (r: (String, String, String))
        ensures
            exists|user: Option<Seq<char>>, temp: Seq<char>|
                #![trigger cache_base(user, temp)]
                (r.0@, r.1@, r.2@) == render_paths_under(
                    cache_root_under(cache_base(user, temp)),
                    render_key_of(version@, content@),
                ),
    {
        let root = Self::cache_root();
        Self::render_paths_in(root.as_str(), version, content)
    }

    /// The content a comparison works on: the file as it is.
    pub fn normalize(&self, content: &[u8], path_hint: &str) -> (out: Vec<u8>)
        ensures
            out@ == content@,
    {
        let mut out: Vec<u8> = Vec::new();
        let mut i: usize = 0;
        while i < content.len()
            invariant
                i <= content@.len(),
                out@ == content@.take(i as int),
            decreases content@.len() - i,
        {
            out.push(content[i]);
            assert(content@.take(i + 1) =~= content@.take(i as int).push(content@[i as int]));
            i = i + 1;
        }
        assert(content@.take(content@.len() as int) =~= content@);
        out
    }

    /// Semantic diff of two versions of a file, as driver entries. An empty
    /// first version is a new file: every component of the second one comes
    /// out added. An empty second version is a deleted file: every component
    /// of the first one comes out removed. A non-empty first version that is
    /// not Xschem gets a warning and no entries.
    pub fn diff(&self, content_a: &[u8], content_b: &[u8], path_hint: &str) -> (report: DriverDiffReport)
        ensures
            (report@.file_type, report@.changes, report@.warnings) == xschem_report(
                content_a@,
                content_b@,
                path_hint@,
            ),
            content_a@.len() == 0 ==> report@.warnings.len() == 0 && report@.changes == new_file_entries(
                schematic_of(content_b@),
            ),
            format_of(content_a@) == FileFormat::Xschem && content_b@.len() == 0 ==> report@.warnings.len()
                == 0 && report@.changes == deleted_file_entries(schematic_of(content_a@)),
    {
        let mut report = DriverDiffReport::new(FileFormat::Xschem);
        if content_a.len() > 0 && detect_format(content_a) != FileFormat::Xschem {
            let w = concat_str(path_hint, ": no es formato Xschem, usando diff de texto.");
            report.warnings.push(w);
            assert(report@.warnings =~= seq![not_xschem_warning(path_hint@)]);
            return report;
        }
        let result = diff(content_a, content_b);
        report.changes = entries_from_report(&result);
        assert(report@.warnings =~= Seq::<Seq<char>>::empty());
        proof {
            if content_a@.len() == 0 {
                let sb = schematic_of(content_b@);
                lemma_diff_from_nothing(sb);
                let r = result@;
                assert(r.components.map_values(|c: ComponentDiffView| component_entry(c)) =~= sb.components.map_values(
                    |e: (Seq<char>, ComponentView)| component_entry(added_entry(e.0, e.1)),
                ));
                assert(r.nets_added.map_values(|n: Seq<char>| net_entry(ChangeKind::Added, n)) =~= sb.nets.map_values(
                    |e: (Seq<char>, ())| net_entry(ChangeKind::Added, e.0),
                ));
                assert(r.nets_removed.map_values(|n: Seq<char>| net_entry(ChangeKind::Removed, n)) =~= Seq::<
                    DiffEntryView,
                >::empty());
                assert(entries_of(r) =~= new_file_entries(sb));
            }
            if content_b@.len() == 0 {
                let sa = schematic_of(content_a@);
                lemma_diff_to_nothing(sa);
                let r = result@;
                assert(r.components.map_values(|c: ComponentDiffView| component_entry(c)) =~= sa.components.map_values(
                    |e: (Seq<char>, ComponentView)| component_entry(removed_entry(e.0, e.1)),
                ));
                assert(r.nets_removed.map_values(|n: Seq<char>| net_entry(ChangeKind::Removed, n)) =~= sa.nets.map_values(
                    |e: (Seq<char>, ())| net_entry(ChangeKind::Removed, e.0),
                ));
                assert(r.nets_added.map_values(|n: Seq<char>| net_entry(ChangeKind::Added, n)) =~= Seq::<
                    DiffEntryView,
                >::empty());
                assert(entries_of(r) =~= deleted_file_entries(sa));
            }
        }
        report
    }
}

impl Default for XschemDriver {
    fn default() -> (d: XschemDriver)
        ensures
            d == (XschemDriver {  }),
    {
        XschemDriver::new()
    }
}

spec fn entries_view(v: Seq<DiffEntry>) -> Seq<DiffEntryView> {
    v.map_values(|e: DiffEntry| e@)
}

fn clone_opt_map(m: &Option<TextMap<String>>) -> (r: Option<TextMap<String>>)
    ensures
        opt_map_view(r) == opt_map_view(*m),
{
    match m {
        Some(t) => Some(t.clone_map()),
        None => None,
    }
}

/// The driver entries of a semantic report.
pub fn entries_from_report(result: &DiffReport) -> (out: Vec<DiffEntry>)
    ensures
        out@.map_values(|e: DiffEntry| e@) == entries_of(result@),
{
    let ghost r = result@;
    let mut out: Vec<DiffEntry> = Vec::new();
    let mut i: usize = 0;
    while i < result.components.len()
        invariant
            r == result@,
            i <= result.components@.len(),
            entries_view(out@) == r.components.take(i as int).map_values(
                |c: ComponentDiffView| component_entry(c),
            ),
        decreases result.components@.len() - i,
    {
        let c = &result.components[i];
        let ghost before = entries_view(out@);
        out.push(
            DiffEntry {
                kind: c.kind,
                element: c.name.clone(),
                before: clone_opt_map(&c.before),
                after: clone_opt_map(&c.after),
                cosmetic: c.cosmetic,
                position_changed: c.position_changed,
            },
        );
        assert(r.components[i as int] == c@);
        assert(entries_view(out@) =~= before.push(component_entry(c@)));
        assert(r.components.take(i + 1).map_values(|c: ComponentDiffView| component_entry(c))
            =~= before.push(component_entry(c@)));
        i = i + 1;
    }
    assert(r.components.take(r.components.len() as int) =~= r.components);
    let ghost part1 = entries_view(out@);
    let mut i: usize = 0;
    while i < result.nets_added.len()
        invariant
            r == result@,
            i <= result.nets_added@.len(),
            entries_view(out@) == part1 + r.nets_added.take(i as int).map_values(
                |n: Seq<char>| net_entry(ChangeKind::Added, n),
            ),
        decreases result.nets_added@.len() - i,
    {
        let ghost before = entries_view(out@);
        let element = concat_str("net:", result.nets_added[i].as_str());
        out.push(
            DiffEntry {
                kind: ChangeKind::Added,
                element,
                before: None,
                after: None,
                cosmetic: false,
                position_changed: false,
            },
        );
        assert(r.nets_added[i as int] == result.nets_added@[i as int]@);
        assert(entries_view(out@) =~= before.push(net_entry(ChangeKind::Added, r.nets_added[i as int])));
        assert(part1 + r.nets_added.take(i + 1).map_values(|n: Seq<char>| net_entry(ChangeKind::Added, n))
            =~= before.push(net_entry(ChangeKind::Added, r.nets_added[i as int])));
        i = i + 1;
    }
    assert(r.nets_added.take(r.nets_added.len() as int) =~= r.nets_added);
    let ghost part2 = entries_view(out@);
    let mut i: usize = 0;
    while i < result.nets_removed.len()
        invariant
            r == result@,
            i <= result.nets_removed@.len(),
            entries_view(out@) == part2 + r.nets_removed.take(i as int).map_values(
                |n: Seq<char>| net_entry(ChangeKind::Removed, n),
            ),
        decreases result.nets_removed@.len() - i,
    {
        let ghost before = entries_view(out@);
        let element = concat_str("net:", result.nets_removed[i].as_str());
        out.push(
            DiffEntry {
                kind: ChangeKind::Removed,
                element,
                before: None,
                after: None,
                cosmetic: false,
                position_changed: false,
            },
        );
        assert(r.nets_removed[i as int] == result.nets_removed@[i as int]@);
        assert(entries_view(out@) =~= before.push(net_entry(ChangeKind::Removed, r.nets_removed[i as int])));
        assert(part2 + r.nets_removed.take(i + 1).map_values(|n: Seq<char>| net_entry(ChangeKind::Removed, n))
            =~= before.push(net_entry(ChangeKind::Removed, r.nets_removed[i as int])));
        i = i + 1;
    }
    assert(r.nets_removed.take(r.nets_removed.len() as int) =~= r.nets_removed);
    let ghost part3 = entries_view(out@);
    if result.is_move_all {
        let mut note: TextMap<String> = TextMap::new();
        note.insert("note".to_string(), "reorganizacion cosmetica (Move All)".to_string());
        assert(note@ =~= move_all_note());
        out.push(
            DiffEntry {
                kind: ChangeKind::Modified,
                element: "layout".to_string(),
                before: None,
                after: Some(note),
                cosmetic: true,
                position_changed: false,
            },
        );
        assert(entries_view(out@) =~= part3.push(layout_entry()));
        assert(entries_view(out@) =~= entries_of(r));
    } else {
        assert(entries_view(out@) =~= entries_of(r));
    }
    out
}


/// What the driver reports on an Xschem file converts back into the
/// semantic diff it was made from, when no component is named `layout` or
/// `net:...`.
pub proof fn lemma_driver_report_round_trip(a: Seq<u8>, b: Seq<u8>, path_hint: Seq<char>)
    requires
        format_of(a) == FileFormat::Xschem,
        crate::driver::plain_component_names(diff_view(schematic_of(a), schematic_of(b))),
    ensures
        report_of_entries(xschem_report(a, b, path_hint).1) == diff_view(schematic_of(a), schematic_of(b)),
{
    crate::driver::lemma_entries_round_trip(diff_view(schematic_of(a), schematic_of(b)));
}

// ───────────────────────── the tool's version ─────────────────────────

/// The version line among the lines of `xschem --version`: the first that
/// holds `XSCHEM V`, trimmed; `unknown` when none does.
pub open spec fn version_in(lines: Seq<Seq<char>>) -> Seq<char>
    decreases lines.len(),
{
    if lines.len() == 0 {
        "unknown"@
    } else if contains_seq(lines[0], "XSCHEM V"@) {
        trim(lines[0])
    } else {
        version_in(lines.drop_first())
    }
}

/// The version reported by `xschem --version`, from its output (standard
/// output then standard error), decoded as lossy UTF-8.
pub fn xschem_version(output: &[u8]) -> (v: String)
    ensures
        v@ == version_in(lines_of(lossy_text(output@))),
{
    let text = decode_lossy(output);
    let chars = chars_of(text.as_str());
    let lines = split_lines(chars.as_slice());
    let ghost ls = lines@.map_values(|l: Vec<char>| l@);
    let marker = chars_of("XSCHEM V");
    let mut i: usize = 0;
    assert(ls.skip(0) =~= ls);
    while i < lines.len()
        invariant
            i <= lines@.len(),
            ls == lines@.map_values(|l: Vec<char>| l@),
            ls == lines_of(chars@),
            chars@ == lossy_text(output@),
            marker@ == "XSCHEM V"@,
            version_in(ls) == version_in(ls.skip(i as int)),
        decreases lines@.len() - i,
    {
        assert(ls.skip(i as int)[0] == lines@[i as int]@);
        assert(ls.skip(i as int).drop_first() =~= ls.skip(i + 1));
        if contains_chars(lines[i].as_slice(), marker.as_slice()) {
            let (b, e) = trim_bounds(lines[i].as_slice(), 0, lines[i].len());
            assert(lines@[i as int]@.subrange(0, lines@[i as int]@.len() as int) =~= lines@[i as int]@);
            let t = crate::text::slice_to_vec(lines[i].as_slice(), b, e);
            assert(ls.skip(i as int).len() > 0);
            assert(contains_seq(ls.skip(i as int)[0], "XSCHEM V"@));
            assert(version_in(ls.skip(i as int)) == trim(lines@[i as int]@));
            return string_from_chars(t.as_slice());
        }
        i = i + 1;
    }
    assert(ls.skip(i as int) =~= Seq::<Seq<char>>::empty());
    "unknown".to_string()
}

} // verus!
