use std::cell::Cell;
use std::collections::HashMap;

use riku::diff_view::{removed_only, DiffView, DiffViewError, RendererPort};
use riku::driver::{
    driver_report_to_diff_report, is_layout_element, is_net_element, net_name, DiffEntry,
    DriverDiffReport,
};
use riku::git_types::{ChangedFile, CommitInfo, GitError, GitRepository};
use riku::models::{ChangeKind, ComponentDiff, DiffReport, FileFormat};
use riku::textmap::TextMap;
use riku::xschem_driver::XschemDriver;

fn make_report(changes: Vec<DiffEntry>) -> DriverDiffReport {
    DriverDiffReport { file_type: FileFormat::Xschem, changes, warnings: Vec::new() }
}

fn snapshot(pairs: &[(&str, &str)]) -> TextMap<String> {
    let mut m = TextMap::new();
    for (k, v) in pairs {
        m.insert(k.to_string(), v.to_string());
    }
    m
}

#[test]
fn convierte_componentes_y_nets() {
    let report = make_report(vec![
        DiffEntry {
            kind: ChangeKind::Added,
            element: "R1".to_string(),
            before: None,
            after: Some(snapshot(&[("value", "10k")])),
            cosmetic: false,
            position_changed: false,
        },
        DiffEntry {
            kind: ChangeKind::Added,
            element: "net:Vdd".to_string(),
            before: None,
            after: None,
            cosmetic: false,
            position_changed: false,
        },
        DiffEntry {
            kind: ChangeKind::Modified,
            element: "layout".to_string(),
            before: None,
            after: None,
            cosmetic: true,
            position_changed: false,
        },
    ]);

    let diff = driver_report_to_diff_report(&report.changes);
    assert_eq!(diff.components.len(), 1);
    assert_eq!(diff.components[0].name, "R1");
    assert_eq!(diff.nets_added, vec!["Vdd"]);
    assert!(diff.is_move_all);
}

// ─── four passes against one ───

fn make_n_changes(n: usize) -> Vec<DiffEntry> {
    (0..n)
        .map(|i| DiffEntry {
            kind: ChangeKind::Added,
            element: format!("R{i}"),
            before: None,
            after: None,
            cosmetic: false,
            position_changed: false,
        })
        .collect()
}

fn copy_snapshot(m: &Option<TextMap<String>>) -> Option<TextMap<String>> {
    m.as_ref().map(|t| t.clone_map())
}

fn component_of(c: &DiffEntry) -> ComponentDiff {
    ComponentDiff {
        name: c.element.clone(),
        kind: c.kind,
        cosmetic: c.cosmetic,
        position_changed: c.position_changed,
        before: copy_snapshot(&c.before),
        after: copy_snapshot(&c.after),
    }
}

/// Four passes: each `.iter()` walks the whole slice.
fn old_version(changes: &[DiffEntry], visits: &Cell<usize>) -> DiffReport {
    let bump = || visits.set(visits.get() + 1);
    DiffReport {
        components: changes
            .iter()
            .inspect(|_| bump())
            .filter(|c| !is_net_element(&c.element) && !is_layout_element(&c.element))
            .map(component_of)
            .collect(),
        nets_added: changes
            .iter()
            .inspect(|_| bump())
            .filter(|c| c.kind == ChangeKind::Added && is_net_element(&c.element))
            .map(|c| net_name(&c.element))
            .collect(),
        nets_removed: changes
            .iter()
            .inspect(|_| bump())
            .filter(|c| c.kind == ChangeKind::Removed && is_net_element(&c.element))
            .map(|c| net_name(&c.element))
            .collect(),
        is_move_all: changes.iter().fold(false, |acc, c| {
            bump();
            acc || (is_layout_element(&c.element) && c.cosmetic)
        }),
    }
}

/// One pass.
fn new_version(changes: &[DiffEntry], visits: &Cell<usize>) -> DiffReport {
    let mut components = Vec::new();
    let mut nets_added = Vec::new();
    let mut nets_removed = Vec::new();
    let mut is_move_all = false;
    for c in changes {
        visits.set(visits.get() + 1);
        if is_layout_element(&c.element) {
            if c.cosmetic {
                is_move_all = true;
            }
            continue;
        }
        if is_net_element(&c.element) {
            match c.kind {
                ChangeKind::Added => nets_added.push(net_name(&c.element)),
                ChangeKind::Removed => nets_removed.push(net_name(&c.element)),
                ChangeKind::Modified => {}
            }
            continue;
        }
        components.push(component_of(c));
    }
    DiffReport { components, nets_added, nets_removed, is_move_all }
}

#[test]
fn old_version_visita_4n_veces() {
    const N: usize = 100;
    let changes = make_n_changes(N);
    let visits = Cell::new(0);
    let _ = old_version(&changes, &visits);
    assert_eq!(visits.get(), 4 * N, "old_version debe visitar 4×N elementos");
    println!("old_version: {} elementos, {} visitas (= 4×N)", N, visits.get());
}

#[test]
fn new_version_visita_n_veces() {
    const N: usize = 100;
    let changes = make_n_changes(N);
    let visits = Cell::new(0);
    let _ = new_version(&changes, &visits);
    assert_eq!(visits.get(), N, "new_version debe visitar exactamente N elementos");
    println!("new_version: {} elementos, {} visitas (= 1×N)", N, visits.get());
}

#[test]
fn one_pass_matches_the_library_conversion() {
    let mut changes = make_n_changes(5);
    changes.push(DiffEntry {
        kind: ChangeKind::Removed,
        element: "net:gnd".into(),
        before: None,
        after: None,
        cosmetic: false,
        position_changed: false,
    });
    let visits = Cell::new(0);
    let mine = new_version(&changes, &visits);
    let lib = driver_report_to_diff_report(&changes);
    assert_eq!(mine.components.len(), lib.components.len());
    assert_eq!(mine.nets_removed, lib.nets_removed);
    assert_eq!(lib.nets_removed, vec!["gnd".to_string()]);
    assert!(!lib.is_move_all);
}

#[test]
fn modified_nets_and_non_cosmetic_layout_are_dropped() {
    let changes = vec![
        DiffEntry {
            kind: ChangeKind::Modified,
            element: "net:x".into(),
            before: None,
            after: None,
            cosmetic: false,
            position_changed: false,
        },
        DiffEntry {
            kind: ChangeKind::Modified,
            element: "layout".into(),
            before: None,
            after: None,
            cosmetic: false,
            position_changed: false,
        },
    ];
    let r = driver_report_to_diff_report(&changes);
    assert!(r.components.is_empty());
    assert!(r.nets_added.is_empty() && r.nets_removed.is_empty());
    assert!(!r.is_move_all);
}

#[test]
fn removed_only_keeps_removed_components_and_nets() {
    let changes = vec![
        DiffEntry { kind: ChangeKind::Added, element: "R1".into(), before: None, after: None, cosmetic: false, position_changed: false },
        DiffEntry { kind: ChangeKind::Removed, element: "R2".into(), before: None, after: None, cosmetic: false, position_changed: false },
        DiffEntry { kind: ChangeKind::Added, element: "net:a".into(), before: None, after: None, cosmetic: false, position_changed: false },
        DiffEntry { kind: ChangeKind::Removed, element: "net:b".into(), before: None, after: None, cosmetic: false, position_changed: false },
    ];
    let full = driver_report_to_diff_report(&changes);
    let r = removed_only(&full);
    assert_eq!(r.components.len(), 1);
    assert_eq!(r.components[0].name, "R2");
    assert!(r.nets_added.is_empty());
    assert_eq!(r.nets_removed, vec!["b".to_string()]);
    assert!(!r.is_move_all);
}

// ─── building a view ───

struct Blobs(HashMap<(String, String), Vec<u8>>);

impl GitRepository for Blobs {
    fn get_blob(&self, commit: &str, path: &str) -> Result<Vec<u8>, GitError> {
        match self.0.get(&(commit.to_string(), path.to_string())) {
            Some(b) => Ok(b.clone()),
            None => Err(GitError::BlobNotFound { commit: commit.into(), path: path.into() }),
        }
    }
    fn get_commits(&self, _: Option<&str>) -> Result<Vec<CommitInfo>, GitError> {
        Ok(Vec::new())
    }
    fn get_changed_files(&self, _: &str, _: &str) -> Result<Vec<ChangedFile>, GitError> {
        Ok(Vec::new())
    }
}

struct FakeRenderer {
    works: bool,
}

impl RendererPort for FakeRenderer {
    fn render(&self, content: &[u8], _path_hint: &str) -> Option<String> {
        if self.works {
            Some(format!("<svg>{}</svg>", content.len()))
        } else {
            None
        }
    }
}

const V1: &str = "v {xschem version=3.4.7 file_version=1.2}\nC {res.sym} 0 0 0 0 {name=R1 value=1k}\n";
const V2: &str = "v {xschem version=3.4.7 file_version=1.2}\nC {res.sym} 0 0 0 0 {name=R1 value=2k}\nC {cap.sym} 10 0 0 0 {name=C1}\nN 0 0 10 0 {lab=OUT}\n";

#[test]
fn view_of_a_modified_file() {
    let mut blobs = HashMap::new();
    blobs.insert(("a".to_string(), "top.sch".to_string()), V1.as_bytes().to_vec());
    blobs.insert(("b".to_string(), "top.sch".to_string()), V2.as_bytes().to_vec());
    let repo = Blobs(blobs);
    let v = DiffView::from_repo(&repo, "a", "b", "top.sch", &XschemDriver::new(), &FakeRenderer { works: true })
        .unwrap();
    assert!(v.svg_a.is_some());
    assert!(v.sch_a.is_some());
    assert_eq!(v.sch_b.components.len(), 2);
    assert!(v.warnings.is_empty());
    assert_eq!(v.report.components.len(), 2);
    assert_eq!(v.report.nets_added, vec!["OUT".to_string()]);
}

#[test]
fn view_of_a_new_file_and_render_failure() {
    let mut blobs = HashMap::new();
    blobs.insert(("b".to_string(), "top.sch".to_string()), V2.as_bytes().to_vec());
    let repo = Blobs(blobs);
    let v = DiffView::from_repo(&repo, "a", "b", "top.sch", &XschemDriver::new(), &FakeRenderer { works: true })
        .unwrap();
    assert!(v.svg_a.is_none() && v.sch_a.is_none());
    // The earlier content is empty: a new file, everything in it is added.
    assert!(v.warnings.is_empty());
    assert_eq!(v.report.components.len(), 2);
    assert!(v.report.components.iter().all(|c| c.kind == ChangeKind::Added));
    assert_eq!(v.report.nets_added, vec!["OUT".to_string()]);
    assert!(v.report.nets_removed.is_empty());

    let err = DiffView::from_repo(&repo, "a", "b", "top.sch", &XschemDriver::new(), &FakeRenderer { works: false })
        .unwrap_err();
    match &err {
        DiffViewError::Render(m) => assert_eq!(m, "top.sch (commit b)"),
        _ => panic!("expected a render error"),
    }
    assert_eq!(err.message(), "no se pudo renderizar: top.sch (commit b)");

    let missing = DiffView::from_repo(&repo, "a", "zz", "top.sch", &XschemDriver::new(), &FakeRenderer { works: true });
    assert!(matches!(missing, Err(DiffViewError::Git(GitError::BlobNotFound { .. }))));
}

#[test]
fn view_from_outcomes_decides_each_case() {
    let d = XschemDriver::new();
    let not_found = || GitError::BlobNotFound { commit: "b".to_string(), path: "top.sch".to_string() };
    let r = DiffView::view_from_outcomes("top.sch", "b", Err(not_found()), None, Ok(None), None, Vec::new(), &d);
    assert!(matches!(r, Err(DiffViewError::Git(GitError::BlobNotFound { .. }))));
    let r = DiffView::view_from_outcomes("top.sch", "b", Ok(V2.as_bytes().to_vec()), None, Ok(None), None, Vec::new(), &d);
    match r {
        Err(DiffViewError::Render(m)) => assert_eq!(m, "top.sch (commit b)"),
        _ => panic!("expected a render error"),
    }
    let r = DiffView::view_from_outcomes(
        "top.sch",
        "b",
        Ok(V2.as_bytes().to_vec()),
        Some("<svg/>".to_string()),
        Err(GitError::CommitNotFound("a".to_string())),
        None,
        Vec::new(),
        &d,
    );
    assert!(matches!(r, Err(DiffViewError::Git(GitError::CommitNotFound(_)))));
    let v = DiffView::view_from_outcomes(
        "top.sch",
        "b",
        Ok(V2.as_bytes().to_vec()),
        Some("<svg/>".to_string()),
        Ok(Some(V1.as_bytes().to_vec())),
        Some("<svg a/>".to_string()),
        vec!["before".to_string()],
        &d,
    )
    .unwrap();
    assert_eq!(v.svg_b, "<svg/>");
    assert_eq!(v.svg_a.as_deref(), Some("<svg a/>"));
    assert!(v.sch_a.is_some());
    assert_eq!(v.warnings, vec!["before".to_string()]);
    let new_file = DiffView::view_from_outcomes(
        "top.sch",
        "b",
        Ok(V2.as_bytes().to_vec()),
        Some("<svg/>".to_string()),
        Ok(None),
        None,
        Vec::new(),
        &d,
    )
    .unwrap();
    assert!(new_file.sch_a.is_none() && new_file.svg_a.is_none());
    assert!(new_file.report.components.iter().all(|c| c.kind == ChangeKind::Added));
}
