//! The diff of one schematic between two commits, with everything a viewer
//! needs: both renders, both parsed schematics, the semantic report and the
//! warnings met on the way.

use vstd::prelude::*;
use crate::driver::{driver_report_to_diff_report, report_of_entries};
use crate::git_types::{git_error_message, git_error_text, lenient_outcome, read_blob_lenient, GitError, GitRepository};
use crate::models::{opt_map_view, ChangeKind, ComponentDiff, ComponentDiffView, DiffReport, DiffReportView, Schematic};
use crate::textmap::TextMap;
use crate::parser::{parse, schematic_of};
use crate::text::{concat_str, texts};
use crate::xschem_driver::{xschem_report, XschemDriver};

verus! {

broadcast use crate::text::lemma_texts_push;

// ───────────────────────── ports ─────────────────────────

/// Renders a schematic to SVG.
pub trait RendererPort {
    /// Whether `r` is what rendering `content` gives. Which result that is,
    /// the renderer decides; callers learn it only from `render`, which ties
    /// its result to the content it was given.
    open spec fn rendered(&self, content: Seq<u8>, path_hint: Seq<char>, r: Option<String>) -> bool {
        true
    }

    /// The SVG of `content`, or `None` when it could not be rendered.
    fn render(&self, content: &[u8], path_hint: &str) -> (r: Option<String>)
        ensures
            self.rendered(content@, path_hint@, r),
    ;
}

/// A driver that renders and says which files it takes.
pub trait DriverContract: RendererPort {
    fn can_handle(&self, filename: &str) -> bool;
}

/// The root of a repository's working tree, if it has one.
pub trait RepoRoot {
    fn root(&self) -> Option<String>;
}

// ───────────────────────── the view ─────────────────────────

/// Why a diff view could not be built.
#[derive(Debug)]
pub enum DiffViewError {
    Git(GitError),
    /// The later version could not be rendered; names the file and commit.
    Render(String),
}

impl DiffViewError {
    /// The human message.
    pub fn message(&self) -> (m: String)
        ensures
            match self {
                DiffViewError::Git(e) => git_error_text(*e) matches Some(t) ==> m@ == t,
                DiffViewError::Render(s) => m@ == "no se pudo renderizar: "@ + s@,
            },
    {
        match self {
            DiffViewError::Git(e) => git_error_message(e),
            DiffViewError::Render(s) => concat_str("no se pudo renderizar: ", s.as_str()),
        }
    }
}

/// A file's diff between two commits, ready to show.
#[derive(Debug)]
pub struct DiffView {
    /// SVG of the earlier version; `None` when the file is new or it could
    /// not be rendered.
    pub svg_a: Option<String>,
    /// SVG of the later version.
    pub svg_b: String,
    /// The earlier version, parsed; `None` when the file is new.
    pub sch_a: Option<Schematic>,
    /// The later version, parsed.
    pub sch_b: Schematic,
    /// The semantic differences.
    pub report: DiffReport,
    pub warnings: Vec<String>,
}

/// The bytes of an optional content.
pub open spec fn opt_bytes(o: Option<Vec<u8>>) -> Option<Seq<u8>> {
    match o {
        Some(v) => Some(v@),
        None => None,
    }
}

/// What failing to render the later version says.
pub open spec fn render_failure(file_path: Seq<char>, commit_b: Seq<char>) -> Seq<char> {
    file_path + " (commit "@ + commit_b + ")"@
}

/// The view was built from content `a` before (`None`: a new file) and `b`
/// after: both parsed, the report read back from the driver's entries on
/// them, and the driver's warnings after `warnings_before`.
pub open spec fn view_fits(
    v: DiffView,
    a: Option<Seq<u8>>,
    b: Seq<u8>,
    path: Seq<char>,
    warnings_before: Seq<Seq<char>>,
) -> bool {
    let r = xschem_report(
        match a {
            Some(x) => x,
            None => Seq::empty(),
        },
        b,
        path,
    );
    &&& v.sch_b@ == schematic_of(b)
    &&& match a {
        Some(x) => v.sch_a matches Some(s) && s@ == schematic_of(x),
        None => v.sch_a is None && v.svg_a is None,
    }
    &&& v.report@ == report_of_entries(r.1)
    &&& texts(v.warnings@) == warnings_before + r.2
}

impl DiffView {
    /// The view from the two contents and their renders: both parsed, the
    /// Xschem driver's diff of them as a semantic report, its warnings
    /// after `warnings`.
    pub fn assemble(
        file_path: &str,
        content_a: Option<Vec<u8>>,
        svg_a: Option<String>,
        content_b: Vec<u8>,
        svg_b: String,
        driver: &XschemDriver,
        warnings: Vec<String>,
    ) -> (v: DiffView)
        ensures
            view_fits(v, opt_bytes(content_a), content_b@, file_path@, texts(warnings@)),
            v.svg_b == svg_b,
            content_a is Some ==> v.svg_a == svg_a,
    {
        let mut warnings = warnings;
        let ghost w0 = texts(warnings@);
        let sch_b = parse(content_b.as_slice());
        let (sch_a, svg_a, bytes_a) = match content_a {
            Some(bytes) => (Some(parse(bytes.as_slice())), svg_a, bytes),
            None => (None, None, Vec::new()),
        };
        let driver_report = driver.diff(bytes_a.as_slice(), content_b.as_slice(), file_path);
        let ghost dw = driver_report@.warnings;
        let mut i: usize = 0;
        while i < driver_report.warnings.len()
            invariant
                i <= dw.len(),
                dw == driver_report@.warnings,
                texts(warnings@) == w0 + dw.take(i as int),
            decreases dw.len() - i,
        {
            warnings.push(driver_report.warnings[i].clone());
            assert(dw.take(i + 1) =~= dw.take(i as int).push(dw[i as int]));
            i = i + 1;
        }
        assert(dw.take(dw.len() as int) =~= dw);
        let report = driver_report_to_diff_report(driver_report.changes.as_slice());
        DiffView { svg_a, svg_b, sch_a, sch_b, report, warnings }
    }

    /// The view, or why there is none, from what the reads and renders gave:
    /// `blob_b` and `svg_b` for the later version, `blob_a` (through the
    /// lenient policy) and `svg_a` for the earlier one, with the warnings met
    /// so far. A failed later read is its Git error; a later version that did
    /// not render is the render error naming file and commit; a failed
    /// earlier read is its Git error; otherwise the assembled view.
    pub fn view_from_outcomes(
        file_path: &str,
        commit_b: &str,
        blob_b: Result<Vec<u8>, GitError>,
        svg_b: Option<String>,
        blob_a: Result<Option<Vec<u8>>, GitError>,
        svg_a: Option<String>,
        warnings: Vec<String>,
        driver: &XschemDriver,
    ) -> (r: Result<DiffView, DiffViewError>)
        ensures
            view_outcome(blob_b, svg_b, blob_a, svg_a, texts(warnings@), file_path@, commit_b@, r),
    {
        let content_b = match blob_b {
            Ok(b) => b,
            Err(e) => return Err(DiffViewError::Git(e)),
        };
        let svg = match svg_b {
            Some(s) => s,
            None => {
                let a = concat_str(file_path, " (commit ");
                let b = concat_str(a.as_str(), commit_b);
                return Err(DiffViewError::Render(concat_str(b.as_str(), ")")));
            },
        };
        let content_a = match blob_a {
            Ok(a) => a,
            Err(e) => return Err(DiffViewError::Git(e)),
        };
        Ok(Self::assemble(file_path, content_a, svg_a, content_b, svg, driver, warnings))
    }

    /// Builds the view of `file_path` from `commit_a` to `commit_b`: the
    /// later version must exist and render; the earlier one may be missing
    /// (a new file) or too large (a warning), and may fail to render. The
    /// earlier version is read only once the later one has rendered, and
    /// rendered only when it was read. What comes back is what
    /// `view_from_outcomes` gives for those reads and renders.
    pub fn from_repo<R: GitRepository + ?Sized, D: RendererPort + ?Sized>(
        repo: &R,
        commit_a: &str,
        commit_b: &str,
        file_path: &str,
        driver: &XschemDriver,
        renderer: &D,
    ) -> (r: Result<DiffView, DiffViewError>)
        ensures
            exists|
                blob_b: Result<Vec<u8>, GitError>,
                svg_b: Option<String>,
                blob_a: Result<Option<Vec<u8>>, GitError>,
                svg_a: Option<String>,
                w: Seq<String>,
            |
                #![trigger view_outcome(blob_b, svg_b, blob_a, svg_a, texts(w), file_path@, commit_b@, r)]
                view_outcome(blob_b, svg_b, blob_a, svg_a, texts(w), file_path@, commit_b@, r)
                    && reads_and_renders_fit(repo, renderer, commit_a@, commit_b@, file_path@, blob_b, svg_b, blob_a, svg_a, w),
    {
        let (blob_b, svg_b) = match repo.get_blob(commit_b, file_path) {
            Ok(b) => {
                let s = renderer.render(b.as_slice(), file_path);
                (Ok(b), s)
            },
            Err(e) => (Err(e), None),
        };
        let mut warnings: Vec<String> = Vec::new();
        let ghost w0 = warnings@;
        let (blob_a, svg_a) = if blob_b.is_ok() && svg_b.is_some() {
            let ba = read_blob_lenient(repo, commit_a, file_path, &mut warnings);
            let sa = match &ba {
                Ok(Some(bytes)) => renderer.render(bytes.as_slice(), file_path),
                _ => None,
            };
            (ba, sa)
        } else {
            (Ok(None), None)
        };
        let ghost gb = blob_b;
        let ghost gs = svg_b;
        let ghost ga = blob_a;
        let ghost gsa = svg_a;
        let ghost w = warnings@;
        assert(w0 =~= Seq::<String>::empty());
        assert(reads_and_renders_fit(repo, renderer, commit_a@, commit_b@, file_path@, gb, gs, ga, gsa, w));
        let r = Self::view_from_outcomes(file_path, commit_b, blob_b, svg_b, blob_a, svg_a, warnings, driver);
        assert(view_outcome(gb, gs, ga, gsa, texts(w), file_path@, commit_b@, r));
        r
    }
}

/// The reads and renders a view rests on are those of its file: `blob_b` is
/// what the repository gave for the path at `commit_b`, and `svg_b` its
/// render; once that rendered, `blob_a` is the lenient policy on what the
/// repository gave for the path at `commit_a` (warnings `w`), and `svg_a` is
/// the render of the earlier content when there is one, else nothing.
pub open spec fn reads_and_renders_fit<R: GitRepository + ?Sized, D: RendererPort + ?Sized>(
    repo: &R,
    renderer: &D,
    commit_a: Seq<char>,
    commit_b: Seq<char>,
    path: Seq<char>,
    blob_b: Result<Vec<u8>, GitError>,
    svg_b: Option<String>,
    blob_a: Result<Option<Vec<u8>>, GitError>,
    svg_a: Option<String>,
    w: Seq<String>,
) -> bool {
    &&& repo.blob_read(commit_b, path, blob_b)
    &&& blob_b matches Ok(b) ==> renderer.rendered(b@, path, svg_b)
    &&& blob_b is Ok && svg_b is Some ==> exists|raw: Result<Vec<u8>, GitError>|
        #[trigger] lenient_outcome(raw, blob_a, Seq::empty(), w) && repo.blob_read(commit_a, path, raw)
    &&& match blob_a {
        Ok(Some(x)) => renderer.rendered(x@, path, svg_a),
        _ => svg_a is None,
    }
}

/// What the view builder gives for each outcome of the reads and renders
/// (see `view_from_outcomes`).
pub open spec fn view_outcome(
    blob_b: Result<Vec<u8>, GitError>,
    svg_b: Option<String>,
    blob_a: Result<Option<Vec<u8>>, GitError>,
    svg_a: Option<String>,
    warnings_before: Seq<Seq<char>>,
    file_path: Seq<char>,
    commit_b: Seq<char>,
    r: Result<DiffView, DiffViewError>,
) -> bool {
    match blob_b {
        Err(e) => r == Err::<DiffView, DiffViewError>(DiffViewError::Git(e)),
        Ok(b) => match svg_b {
            None => r matches Err(DiffViewError::Render(m)) && m@ == render_failure(file_path, commit_b),
            Some(s) => match blob_a {
                Err(e) => r == Err::<DiffView, DiffViewError>(DiffViewError::Git(e)),
                Ok(a) => r matches Ok(v) && view_fits(v, opt_bytes(a), b@, file_path, warnings_before)
                    && v.svg_b == s && (a is Some ==> v.svg_a == svg_a),
            },
        },
    }
}

// ───────────────────────── the earlier panel ─────────────────────────

/// What the earlier panel of a visual diff marks: the removed components
/// and the removed nets, nothing else.
pub open spec fn removed_only_view(r: DiffReportView) -> DiffReportView {
    DiffReportView {
        components: removed_components(r.components),
        nets_added: Seq::empty(),
        nets_removed: r.nets_removed,
        is_move_all: false,
    }
}

/// The removed components, in order.
pub open spec fn removed_components(cs: Seq<ComponentDiffView>) -> Seq<ComponentDiffView>
    decreases cs.len(),
{
    if cs.len() == 0 {
        Seq::empty()
    } else if cs.last().kind == ChangeKind::Removed {
        removed_components(cs.drop_last()).push(cs.last())
    } else {
        removed_components(cs.drop_last())
    }
}

/// What the earlier panel shows for a file that is new.
pub const NEW_FILE_PANEL: &'static str = "<p style='color:#888'>Archivo nuevo — no existe en el commit anterior</p>";

fn clone_snapshot(m: &Option<TextMap<String>>) -> (r: Option<TextMap<String>>)
    ensures
        opt_map_view(r) == opt_map_view(*m),
{
    match m {
        Some(t) => Some(t.clone_map()),
        None => None,
    }
}

/// The report the earlier panel marks: the removed components and nets.
pub fn removed_only(report: &DiffReport) -> (r: DiffReport)
    ensures
        r@ == removed_only_view(report@),
{
    let ghost cs = report@.components;
    let mut components: Vec<ComponentDiff> = Vec::new();
    let mut i: usize = 0;
    assert(components@.map_values(|c: ComponentDiff| c@) =~= removed_components(cs.take(0)));
    while i < report.components.len()
        invariant
            i <= cs.len(),
            cs == report@.components,
            components@.map_values(|c: ComponentDiff| c@) == removed_components(cs.take(i as int)),
        decreases cs.len() - i,
    {
        let c = &report.components[i];
        assert(cs.take(i + 1).drop_last() =~= cs.take(i as int));
        assert(cs.take(i + 1).last() == c@);
        let ghost before = components@.map_values(|c: ComponentDiff| c@);
        if c.kind == ChangeKind::Removed {
            components.push(
                ComponentDiff {
                    name: c.name.clone(),
                    kind: c.kind,
                    cosmetic: c.cosmetic,
                    position_changed: c.position_changed,
                    before: clone_snapshot(&c.before),
                    after: clone_snapshot(&c.after),
                },
            );
            assert(components@.map_values(|c: ComponentDiff| c@) =~= before.push(c@));
        }
        i = i + 1;
    }
    assert(cs.take(cs.len() as int) =~= cs);
    let mut nets_removed: Vec<String> = Vec::new();
    let ghost ns = report@.nets_removed;
    let mut j: usize = 0;
    while j < report.nets_removed.len()
        invariant
            j <= ns.len(),
            ns == report@.nets_removed,
            nets_removed@.map_values(|s: String| s@) == ns.take(j as int),
        decreases ns.len() - j,
    {
        let ghost before = nets_removed@.map_values(|s: String| s@);
        nets_removed.push(report.nets_removed[j].clone());
        assert(nets_removed@.map_values(|s: String| s@) =~= before.push(ns[j as int]));
        assert(ns.take(j + 1) =~= ns.take(j as int).push(ns[j as int]));
        j = j + 1;
    }
    assert(ns.take(ns.len() as int) =~= ns);
    let r = DiffReport { components, nets_added: Vec::new(), nets_removed, is_move_all: false };
    assert(r@.nets_added =~= Seq::<Seq<char>>::empty());
    assert(r@ =~= removed_only_view(report@));
    r
}

} // verus!
