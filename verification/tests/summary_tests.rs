use riku::driver::{DiffEntry, DriverDiffReport};
use riku::models::{ChangeKind, FileFormat};
use riku::summary::labels;
use riku::summary::labels::label_for;
use riku::summary::{decide_category, DetailKind, DetailLevel, FileSummary, SummaryCategory};
use riku::textmap::TextMap;

fn entry(kind: ChangeKind, element: &str, cosmetic: bool) -> DiffEntry {
    DiffEntry {
        kind,
        element: element.to_string(),
        before: None,
        after: None,
        cosmetic,
        position_changed: false,
    }
}

fn report(entries: Vec<DiffEntry>) -> DriverDiffReport {
    DriverDiffReport { file_type: FileFormat::Xschem, changes: entries, warnings: Vec::new() }
}

// ── build ──

#[test]
fn build_solo_cosmeticos_es_categoria_cosmetic() {
    let r = report(vec![entry(ChangeKind::Modified, "layout", true)]);
    let s = FileSummary::from_report(&r, "a.sch");
    assert_eq!(s.category, SummaryCategory::Cosmetic);
    assert!(s.counts.is_empty());
}

#[test]
fn build_semantico_cuenta_componentes_y_nets() {
    let r = report(vec![
        entry(ChangeKind::Added, "M1", false),
        entry(ChangeKind::Added, "M2", false),
        entry(ChangeKind::Removed, "net:vbias", false),
        entry(ChangeKind::Modified, "vin → vin_diff", false),
    ]);
    let s = FileSummary::from_report(&r, "a.sch");
    assert_eq!(s.category, SummaryCategory::Semantic);
    assert_eq!(s.counts.get(labels::COMPONENTS_ADDED), Some(&2));
    assert_eq!(s.counts.get(labels::NETS_REMOVED), Some(&1));
    assert_eq!(s.counts.get(labels::COMPONENTS_RENAMED), Some(&1));
}

#[test]
fn build_sin_cambios_es_unchanged() {
    let r = report(vec![]);
    let s = FileSummary::from_report(&r, "a.sch");
    assert_eq!(s.category, SummaryCategory::Unchanged);
}

#[test]
fn build_cambios_en_layout_no_cuentan_pero_marcan_cosmetic() {
    let r = report(vec![entry(ChangeKind::Modified, "layout", true)]);
    let s = FileSummary::from_report(&r, "a.sch");
    assert_eq!(s.category, SummaryCategory::Cosmetic);
    assert!(s.counts.is_empty());
}

#[test]
fn nivel_resumen_no_llena_details_ni_full_report() {
    let r = report(vec![entry(ChangeKind::Added, "M1", false)]);
    let s = FileSummary::from_report_with(&r, "a.sch", DetailLevel::Resumen);
    assert!(s.details.is_empty());
    assert!(s.full_report.is_none());
}

#[test]
fn nivel_detalle_llena_details_pero_no_full_report() {
    let r = report(vec![entry(ChangeKind::Added, "M1", false)]);
    let s = FileSummary::from_report_with(&r, "a.sch", DetailLevel::Detalle);
    assert_eq!(s.details.len(), 1);
    assert_eq!(s.details[0].kind, DetailKind::ComponentAdded);
    assert_eq!(s.details[0].element, "M1");
    assert!(s.full_report.is_none());
}

#[test]
fn nivel_completo_llena_todo() {
    let r = report(vec![entry(ChangeKind::Added, "M1", false)]);
    let s = FileSummary::from_report_with(&r, "a.sch", DetailLevel::Completo);
    assert_eq!(s.details.len(), 1);
    assert!(s.full_report.is_some());
}

#[test]
fn decide_category_prioriza_semantic_sobre_cosmetic() {
    assert_eq!(decide_category(1, 5), SummaryCategory::Semantic);
    assert_eq!(decide_category(0, 3), SummaryCategory::Cosmetic);
    assert_eq!(decide_category(0, 0), SummaryCategory::Unchanged);
}

#[test]
fn detalle_extrae_cambios_de_parametros() {
    let mut before = TextMap::new();
    before.insert("W".to_string(), "4u".to_string());
    before.insert("L".to_string(), "180n".to_string());
    before.insert("x".to_string(), "100".to_string()); // a placement key: ignored
    let mut after = TextMap::new();
    after.insert("W".to_string(), "8u".to_string());
    after.insert("L".to_string(), "180n".to_string());
    after.insert("x".to_string(), "200".to_string());

    let mut e = entry(ChangeKind::Modified, "M3", false);
    e.before = Some(before);
    e.after = Some(after);
    let r = report(vec![e]);

    let s = FileSummary::from_report_with(&r, "a.sch", DetailLevel::Detalle);
    let d = &s.details[0];
    assert_eq!(d.params.get("W").map(String::as_str), Some("4u → 8u"));
    assert!(!d.params.contains_key("x"));
    assert!(!d.params.contains_key("L"));
}

// ── labels ──

#[test]
fn labels_label_for_singular_y_plural() {
    assert_eq!(label_for(labels::COMPONENTS_ADDED, 1).unwrap(), "componente añadido");
    assert_eq!(label_for(labels::COMPONENTS_ADDED, 3).unwrap(), "componentes añadidos");
    assert_eq!(label_for("clave_desconocida", 1), None);
}

// ── summary ──

#[test]
fn summary_solo_cosmeticos_es_categoria_cosmetic() {
    let r = report(vec![entry(ChangeKind::Modified, "layout", true)]);
    let s = FileSummary::from_report(&r, "a.sch");
    assert_eq!(s.category, SummaryCategory::Cosmetic);
    assert!(s.counts.is_empty());
}

#[test]
fn summary_semantico_cuenta_componentes_y_nets() {
    let r = report(vec![
        entry(ChangeKind::Added, "M1", false),
        entry(ChangeKind::Added, "M2", false),
        entry(ChangeKind::Removed, "net:vbias", false),
        entry(ChangeKind::Modified, "vin → vin_diff", false),
    ]);
    let s = FileSummary::from_report(&r, "a.sch");
    assert_eq!(s.category, SummaryCategory::Semantic);
    assert_eq!(s.counts.get(labels::COMPONENTS_ADDED), Some(&2));
    assert_eq!(s.counts.get(labels::NETS_REMOVED), Some(&1));
    assert_eq!(s.counts.get(labels::COMPONENTS_RENAMED), Some(&1));
}

#[test]
fn summary_sin_cambios_es_unchanged() {
    let r = report(vec![]);
    let s = FileSummary::from_report(&r, "a.sch");
    assert_eq!(s.category, SummaryCategory::Unchanged);
}

#[test]
fn summary_label_for_singular_y_plural() {
    assert_eq!(label_for(labels::COMPONENTS_ADDED, 1).unwrap(), "componente añadido");
    assert_eq!(label_for(labels::COMPONENTS_ADDED, 3).unwrap(), "componentes añadidos");
    assert_eq!(label_for("clave_desconocida", 1), None);
}

#[test]
fn summary_cambios_en_layout_no_cuentan_pero_marcan_cosmetic() {
    let r = report(vec![entry(ChangeKind::Modified, "layout", true)]);
    let s = FileSummary::from_report(&r, "a.sch");
    assert_eq!(s.category, SummaryCategory::Cosmetic);
    assert!(s.counts.is_empty());
}

// ── more cases ──

#[test]
fn label_for_negative_one_is_singular_and_zero_plural() {
    assert_eq!(label_for(labels::NETS_ADDED, -1).unwrap(), "net añadida");
    assert_eq!(label_for(labels::NETS_ADDED, 0).unwrap(), "nets añadidas");
    assert_eq!(label_for(labels::NETS_MODIFIED, 2).unwrap(), "nets modificadas");
    assert_eq!(label_for(labels::COMPONENTS_RENAMED, 1).unwrap(), "componente renombrado");
}

#[test]
fn detail_level_from_flags_full_wins() {
    assert_eq!(DetailLevel::from_flags(false, false), DetailLevel::Resumen);
    assert_eq!(DetailLevel::from_flags(true, false), DetailLevel::Detalle);
    assert_eq!(DetailLevel::from_flags(true, true), DetailLevel::Completo);
    assert_eq!(DetailLevel::from_flags(false, true), DetailLevel::Completo);
}

#[test]
fn category_names_are_snake_case() {
    assert_eq!(SummaryCategory::Semantic.as_str(), "semantic");
    assert_eq!(SummaryCategory::Cosmetic.as_str(), "cosmetic");
    assert_eq!(SummaryCategory::Unchanged.as_str(), "unchanged");
    assert_eq!(SummaryCategory::Unknown.as_str(), "unknown");
    assert_eq!(SummaryCategory::Error.as_str(), "error");
}

#[test]
fn unknown_and_error_summaries() {
    let u = FileSummary::unknown("Makefile");
    assert_eq!(u.path, "Makefile");
    assert_eq!(u.format, FileFormat::Unknown);
    assert_eq!(u.category, SummaryCategory::Unknown);
    assert!(u.errors.is_empty());
    let e = FileSummary::error("x.sch", "falló".to_string());
    assert_eq!(e.category, SummaryCategory::Error);
    assert_eq!(e.errors, vec!["falló".to_string()]);
}

#[test]
fn counts_are_sorted_and_nets_counted_by_kind() {
    let r = report(vec![
        entry(ChangeKind::Added, "net:a", false),
        entry(ChangeKind::Modified, "net:b", false),
        entry(ChangeKind::Removed, "R1", false),
        entry(ChangeKind::Modified, "R2", false),
        entry(ChangeKind::Modified, "R3", true),
    ]);
    let s = FileSummary::from_report(&r, "a.sch");
    assert_eq!(s.category, SummaryCategory::Semantic);
    assert_eq!(s.counts.len(), 4);
    assert_eq!(s.counts.key_at(0), "components_modified");
    assert_eq!(s.counts.key_at(1), "components_removed");
    assert_eq!(s.counts.key_at(2), "nets_added");
    assert_eq!(s.counts.key_at(3), "nets_modified");
}

#[test]
fn detail_of_a_net_drops_its_prefix() {
    let r = report(vec![entry(ChangeKind::Removed, "net:vbias", false)]);
    let s = FileSummary::from_report_with(&r, "a.sch", DetailLevel::Detalle);
    assert_eq!(s.details[0].kind, DetailKind::NetRemoved);
    assert_eq!(s.details[0].element, "vbias");
}

#[test]
fn detail_of_an_added_or_removed_parameter() {
    let mut before = TextMap::new();
    before.insert("value".to_string(), "1k".to_string());
    let mut after = TextMap::new();
    after.insert("model".to_string(), "rx".to_string());
    let mut e = entry(ChangeKind::Modified, "R1", false);
    e.before = Some(before);
    e.after = Some(after);
    let s = FileSummary::from_report_with(&report(vec![e]), "a.sch", DetailLevel::Detalle);
    let d = &s.details[0];
    assert_eq!(d.kind, DetailKind::ComponentModified);
    assert_eq!(d.params.get("value").map(String::as_str), Some("1k → (eliminado)"));
    assert_eq!(d.params.get("model").map(String::as_str), Some("(nuevo) → rx"));
}
