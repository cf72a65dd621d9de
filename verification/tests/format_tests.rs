use riku::driver::{DiffEntry, DriverDiffReport};
use riku::format::{
    build_diff_html, change_style, describe_upstream, format_counts, marker_for_change,
};
use riku::git_types::BranchInfo;
use riku::models::{ChangeKind, FileFormat};
use riku::status::StatusReport;
use riku::status_text::{detail_text, file_entry_text, status_header, status_text};
use riku::summary::{DetailEntry, DetailKind, DetailLevel, FileSummary, SummaryCategory};
use riku::textmap::TextMap;

fn entry(kind: ChangeKind, element: &str, cosmetic: bool) -> DiffEntry {
    DiffEntry {
        kind,
        element: element.to_string(),
        before: None,
        after: None,
        cosmetic,
        position_changed: false,
    }
}

fn report(entries: Vec<DiffEntry>) -> DriverDiffReport {
    DriverDiffReport { file_type: FileFormat::Xschem, changes: entries, warnings: Vec::new() }
}

#[test]
fn marker_rename_se_detecta_por_flecha_en_nombre() {
    assert_eq!(marker_for_change(&ChangeKind::Modified, "vin → vin_diff"), "r");
    assert_eq!(marker_for_change(&ChangeKind::Modified, "M3"), "~");
}

#[test]
fn marker_added_y_removed_se_mapean_directo() {
    assert_eq!(marker_for_change(&ChangeKind::Added, "x"), "+");
    assert_eq!(marker_for_change(&ChangeKind::Removed, "x"), "-");
}

#[test]
fn format_counts_cosmetico_etiquetado_solo_si_se_permite() {
    let mut f = FileSummary::unknown("a.sch");
    f.category = SummaryCategory::Cosmetic;
    assert_eq!(format_counts(&f, true), "(solo cambios cosméticos)");
    // Without the permission it falls to the empty counts.
    assert_eq!(format_counts(&f, false), "(cambios sin detalle)");
}

#[test]
fn detail_kind_marker_es_consistente_con_marker_for_change() {
    assert_eq!(DetailKind::ComponentAdded.marker(), "+");
    assert_eq!(DetailKind::ComponentRemoved.marker(), "-");
    assert_eq!(DetailKind::ComponentRenamed.marker(), "r");
    assert_eq!(DetailKind::ComponentModified.marker(), "~");
    assert_eq!(DetailKind::Other.marker(), "~");
}

#[test]
fn styles_cosmetic_changes_differently() {
    assert_eq!(
        change_style(&ChangeKind::Modified, true),
        ("rgba(120,120,120,0.20)", "rgba(120,120,120,0.85)")
    );
    assert_eq!(
        change_style(&ChangeKind::Modified, false),
        ("rgba(255,180,0,0.25)", "rgba(255,180,0,0.8)")
    );
}

#[test]
fn styles_added_and_removed() {
    assert_eq!(change_style(&ChangeKind::Added, true), ("rgba(0,200,0,0.25)", "rgba(0,200,0,0.8)"));
    assert_eq!(change_style(&ChangeKind::Removed, false), ("rgba(200,0,0,0.25)", "rgba(200,0,0,0.8)"));
}

#[test]
fn a_modified_net_with_an_arrow_is_a_rename_marker_too() {
    assert_eq!(marker_for_change(&ChangeKind::Added, "a → b"), "+");
    assert_eq!(marker_for_change(&ChangeKind::Modified, "a→b"), "~");
}

#[test]
fn format_counts_joins_labels_in_key_order() {
    let r = report(vec![
        entry(ChangeKind::Added, "M1", false),
        entry(ChangeKind::Added, "M2", false),
        entry(ChangeKind::Removed, "net:vbias", false),
    ]);
    let s = FileSummary::from_report(&r, "a.sch");
    assert_eq!(format_counts(&s, true), "2 componentes añadidos, 1 net eliminada");
}

#[test]
fn format_counts_shows_unknown_keys_as_they_are() {
    let mut f = FileSummary::unknown("a.gds");
    f.category = SummaryCategory::Semantic;
    let mut counts = TextMap::new();
    counts.insert("polygons_added_M1".to_string(), 3i64);
    f.counts = counts;
    assert_eq!(format_counts(&f, true), "3 polygons_added_M1");
}

#[test]
fn describe_upstream_cases() {
    assert_eq!(describe_upstream(0, 0), "al día");
    assert_eq!(describe_upstream(2, 0), "2 adelante");
    assert_eq!(describe_upstream(0, 1), "1 atrás");
    assert_eq!(describe_upstream(3, 12), "3 adelante, 12 atrás");
}

#[test]
fn diff_html_holds_its_parts() {
    let html = build_diff_html("abc", "def", "top.sch", "<svg>A</svg>", "<svg>B</svg>");
    assert!(html.starts_with("<!DOCTYPE html>\n<html lang=\"es\">"));
    assert!(html.contains("<title>riku diff — top.sch</title>"));
    assert!(html.contains("<span>abc</span> → <span>def</span>"));
    assert!(html.contains("<div class=\"panel-body\"><svg>A</svg></div>"));
    assert!(html.contains("<div class=\"panel-body\"><svg>B</svg></div>"));
    assert!(html.contains("* { box-sizing: border-box; margin: 0; padding: 0; }"));
    assert!(html.ends_with("</body>\n</html>"));
}

#[test]
fn header_without_and_with_upstream() {
    assert_eq!(status_header(&None), "Repositorio sin HEAD (commit inicial pendiente).");
    let b = BranchInfo {
        name: "main".into(),
        head_oid: "0".repeat(40),
        head_short: "0000000".into(),
        upstream: None,
        ahead: 0,
        behind: 0,
    };
    assert_eq!(status_header(&Some(b.clone())), "En rama main (HEAD 0000000)");
    let mut up = b;
    up.upstream = Some("origin/main".into());
    up.ahead = 1;
    assert_eq!(
        status_header(&Some(up)),
        "En rama main (HEAD 0000000) — vs origin/main: 1 adelante"
    );
}

#[test]
fn detail_text_lists_params_under_the_entry() {
    let mut params = TextMap::new();
    params.insert("W".to_string(), "4u → 8u".to_string());
    let d = DetailEntry { kind: DetailKind::ComponentModified, element: "M3".into(), params };
    assert_eq!(detail_text(&d, "  "), vec!["  ~ M3".to_string(), "      W: 4u → 8u".to_string()]);
    let empty = DetailEntry { kind: DetailKind::ComponentAdded, element: "M1".into(), params: TextMap::new() };
    assert_eq!(detail_text(&empty, "  "), vec!["  + M1".to_string()]);
}

#[test]
fn file_entry_at_each_level() {
    let r = report(vec![entry(ChangeKind::Added, "M1", false), entry(ChangeKind::Modified, "layout", true)]);
    let resumen = FileSummary::from_report_with(&r, "a.sch", DetailLevel::Resumen);
    assert_eq!(file_entry_text(&resumen, DetailLevel::Resumen), vec!["  a.sch    1 componente añadido".to_string()]);
    let completo = FileSummary::from_report_with(&r, "a.sch", DetailLevel::Completo);
    assert_eq!(
        file_entry_text(&completo, DetailLevel::Completo),
        vec![
            "  a.sch    1 componente añadido".to_string(),
            "      + M1".to_string(),
            "      ── reporte completo ──".to_string(),
            "      + M1".to_string(),
            "      ~ layout [cosmetic]".to_string(),
        ]
    );
}

#[test]
fn status_text_groups_by_category() {
    let sem = FileSummary::from_report(&report(vec![entry(ChangeKind::Removed, "R1", false)]), "b.sch");
    let cos = FileSummary::from_report(&report(vec![entry(ChangeKind::Modified, "layout", true)]), "c.sch");
    let unk = FileSummary::unknown("Makefile");
    let err = FileSummary::error("d.sch", "boom".to_string());
    let rep = StatusReport { branch: None, files: vec![cos, sem, unk, err], warnings: vec![] };
    let lines = status_text(&rep, DetailLevel::Resumen, false);
    assert_eq!(
        lines,
        vec![
            "Repositorio sin HEAD (commit inicial pendiente).",
            "",
            "Modificados con cambios semánticos:",
            "  b.sch    1 componente eliminado",
            "",
            "Modificados sin cambios semánticos:",
            "  c.sch    (solo cambios cosméticos)",
            "",
            "Errores al analizar:",
            "  d.sch    boom",
            "",
            "No reconocidos por Riku (1): use --include-unknown para listarlos.",
        ]
    );
    let listed = status_text(&rep, DetailLevel::Resumen, true);
    assert_eq!(listed[listed.len() - 2], "No reconocidos por Riku:");
    assert_eq!(listed[listed.len() - 1], "  Makefile");
}

#[test]
fn status_text_without_files() {
    let rep = StatusReport { branch: None, files: vec![], warnings: vec![] };
    assert_eq!(
        status_text(&rep, DetailLevel::Detalle, true),
        vec!["Repositorio sin HEAD (commit inicial pendiente).", "", "Sin cambios."]
    );
}
