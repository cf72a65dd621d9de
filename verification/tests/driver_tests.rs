use riku::coord::{display_coord, same_coord};
use riku::models::{ChangeKind, FileFormat};
use riku::parser::{detect_format, parse};
use riku::pipeline::summarize;
use riku::semantic_diff::diff;
use riku::summary::{DetailLevel, SummaryCategory};
use riku::xschem_driver::{join_path_text, XschemDriver};

#[test]
fn render_key_changes_with_version_and_content() {
    let a = XschemDriver::render_key("XSCHEM V1", b"foo");
    let b = XschemDriver::render_key("XSCHEM V1", b"bar");
    let c = XschemDriver::render_key("XSCHEM V2", b"foo");

    assert_ne!(a, b);
    assert_ne!(a, c);
    assert_eq!(a.len(), 64);
}

#[test]
fn render_paths_are_stable() {
    let (svg_a, origins_a, key_a) = XschemDriver::render_paths("XSCHEM V1", b"foo");
    let (svg_b, origins_b, key_b) = XschemDriver::render_paths("XSCHEM V1", b"foo");

    assert_eq!(svg_a, svg_b);
    assert_eq!(origins_a, origins_b);
    assert_eq!(key_a, key_b);
    assert!(svg_a.ends_with("render.svg"));
    assert!(origins_a.ends_with("origins.txt"));
}

#[test]
fn render_key_is_hex_sha256_of_version_colons_content() {
    let k = XschemDriver::render_key("v", b"x");
    assert_eq!(k.len(), 64);
    assert!(k.chars().all(|c| c.is_ascii_hexdigit() && !c.is_ascii_uppercase()));
    // SHA-256 of "::" (empty version, empty content).
    assert_eq!(
        XschemDriver::render_key("", b""),
        "71546855d6279ef70d20909b292c42c2dcb02cd06bde01485da52d13e304ebf4"
    );
}

#[test]
fn render_paths_in_a_root() {
    let (svg, origins, key) = XschemDriver::render_paths_in("/c/riku/ops", "v", b"x");
    assert_eq!(svg, format!("/c/riku/ops/{key}/render.svg"));
    assert_eq!(origins, format!("/c/riku/ops/{key}/origins.txt"));
    assert_eq!(join_path_text("/a/", "b"), "/a/b");
    assert_eq!(join_path_text("", "b"), "b");
    assert_eq!(join_path_text("/a", "b"), "/a/b");
}

#[test]
fn the_cache_root_prefers_the_user_cache() {
    assert_eq!(XschemDriver::cache_root_from(Some("/home/u/.cache".to_string()), "/tmp".to_string()), "/home/u/.cache/riku/ops");
    assert_eq!(XschemDriver::cache_root_from(None, "/tmp".to_string()), "/tmp/riku/ops");
    assert!(XschemDriver::cache_root().ends_with("riku/ops"));
}

#[test]
fn normalize_keeps_the_content() {
    let d = XschemDriver::new();
    assert_eq!(d.normalize(b"abc\r\n", "x.sch"), b"abc\r\n".to_vec());
}

const HEADER: &str = "v {xschem version=3.4.7 file_version=1.2}\n";

fn sch(body: &str) -> Vec<u8> {
    format!("{HEADER}{body}").into_bytes()
}

#[test]
fn detect_format_by_header() {
    assert_eq!(detect_format(&sch("")), FileFormat::Xschem);
    assert_eq!(detect_format(b"<Qucs Schematic 0.0.19>\n"), FileFormat::Qucs);
    assert_eq!(detect_format(b"EESchema Schematic File Version 4\n"), FileFormat::KicadLegacy);
    assert_eq!(detect_format(b"hello"), FileFormat::Unknown);
    assert_eq!(detect_format(b""), FileFormat::Unknown);
}

#[test]
fn parse_reads_components_wires_and_nets() {
    let s = parse(&sch(
        "C {res.sym} 100 200 0 0 {name=R1 value=10k}\nC {nmos.sym} 10 20 1 1 {name=M1\nW=1 L=0.15\n}\nN 0 0 10 0 {lab=VDD}\nL 4 0 0 1 1 {lab=OUT}\n",
    ));
    assert_eq!(s.components.len(), 2);
    let r1 = s.components.get("R1").unwrap();
    assert_eq!(r1.symbol, "res.sym");
    assert_eq!(r1.x, "100");
    assert_eq!(r1.y, "200");
    assert_eq!(r1.params.get("value").map(String::as_str), Some("10k"));
    assert!(!r1.params.contains_key("name"));
    let m1 = s.components.get("M1").unwrap();
    assert_eq!(m1.rotation, 1);
    assert_eq!(m1.mirror, 1);
    assert_eq!(m1.params.get("W").map(String::as_str), Some("1"));
    assert_eq!(m1.params.get("L").map(String::as_str), Some("0.15"));
    assert_eq!(s.wires.len(), 1);
    assert!(s.nets.contains_key("VDD"));
    assert!(s.nets.contains_key("OUT"));
}

#[test]
fn a_block_closes_on_its_last_attribute_line() {
    // The format's own example: the closing brace ends the last value line.
    let s = parse(&sch("C {nmos.sym} 100 200 0 0 {name=M1\nvalue=sky130_fd_pr__nfet_01v8\nW=1 L=0.15}\nC {r.sym} 0 0 0 0 {name=R1}\n"));
    let m1 = s.components.get("M1").unwrap();
    assert_eq!(m1.params.len(), 3);
    assert_eq!(m1.params.get("value").map(String::as_str), Some("sky130_fd_pr__nfet_01v8"));
    assert_eq!(m1.params.get("W").map(String::as_str), Some("1"));
    assert_eq!(m1.params.get("L").map(String::as_str), Some("0.15"));
    assert!(s.components.get("R1").is_some());
    // A line holding only the brace closes the block too.
    let t = parse(&sch("C {r.sym} 0 0 0 0 {name=R2\nvalue=5\n}\n"));
    assert_eq!(t.components.get("R2").unwrap().params.get("value").map(String::as_str), Some("5"));
}

#[test]
fn parse_skips_components_without_a_name() {
    let s = parse(&sch("C {res.sym} 1 2 0 0 {value=1}\n"));
    assert_eq!(s.components.len(), 0);
}

#[test]
fn coordinates_are_compared_as_numbers() {
    assert_eq!(display_coord("10.50"), "10.5");
    assert_eq!(display_coord("+007"), "7");
    assert_eq!(display_coord("-0.0"), "-0");
    assert_eq!(display_coord("1e3"), "1000");
    assert_eq!(display_coord("1.5E2"), "150");
    assert_eq!(display_coord("-2e-3"), "-0.002");
    assert_eq!(display_coord("1e9999"), "1e9999");
    assert!(same_coord("1e2", "1E2"));
    assert!(same_coord("100", "1e2"));
    assert!(same_coord("10", "10.0"));
    assert!(same_coord("-0", "0"));
    assert!(!same_coord("10", "10.5"));
}

#[test]
fn diff_of_same_content_is_empty() {
    let a = sch("C {res.sym} 0 0 0 0 {name=R1 value=1k}\nN 0 0 1 0 {lab=A}\n");
    let r = diff(&a, &a);
    assert!(r.is_empty());
    assert!(!r.is_move_all);
}

#[test]
fn diff_added_removed_modified_and_nets() {
    let a = sch("C {res.sym} 0 0 0 0 {name=R1 value=1k}\nC {res.sym} 5 0 0 0 {name=R2}\nN 0 0 1 0 {lab=A}\n");
    let b = sch("C {res.sym} 0 0 0 0 {name=R1 value=2k}\nC {cap.sym} 9 0 0 0 {name=C1}\nN 0 0 1 0 {lab=B}\n");
    let r = diff(&a, &b);
    assert_eq!(r.components.len(), 3);
    assert_eq!(r.components[0].name, "R2");
    assert_eq!(r.components[0].kind, ChangeKind::Removed);
    assert_eq!(r.components[1].name, "C1");
    assert_eq!(r.components[1].kind, ChangeKind::Added);
    assert_eq!(r.components[2].name, "R1");
    assert_eq!(r.components[2].kind, ChangeKind::Modified);
    assert!(!r.components[2].cosmetic);
    let before = r.components[2].before.as_ref().unwrap();
    assert_eq!(before.get("value").map(String::as_str), Some("1k"));
    assert_eq!(before.get("symbol").map(String::as_str), Some("res.sym"));
    assert_eq!(before.get("x").map(String::as_str), Some("0"));
    assert_eq!(r.nets_added, vec!["B".to_string()]);
    assert_eq!(r.nets_removed, vec!["A".to_string()]);
}

#[test]
fn moving_most_components_is_a_reorganisation() {
    let a = sch("C {r.sym} 0 0 0 0 {name=R1}\nC {r.sym} 1 0 0 0 {name=R2}\nC {r.sym} 2 0 0 0 {name=R3}\nC {r.sym} 3 0 0 0 {name=R4}\nC {r.sym} 4 0 0 0 {name=R5}\n");
    let b = sch("C {r.sym} 10 0 0 0 {name=R1}\nC {r.sym} 11 0 0 0 {name=R2}\nC {r.sym} 12 0 0 0 {name=R3}\nC {r.sym} 13 0 0 0 {name=R4}\nC {r.sym} 14 0 1 0 {name=R5}\n");
    let r = diff(&a, &b);
    // A reorganisation leaves the coordinate-only entries out.
    assert!(r.is_move_all);
    assert!(r.components.is_empty());
    // Four of five moved: 0.8 is not above 0.8.
    let c = sch("C {r.sym} 10 0 0 0 {name=R1}\nC {r.sym} 11 0 0 0 {name=R2}\nC {r.sym} 12 0 0 0 {name=R3}\nC {r.sym} 13 0 0 0 {name=R4}\nC {r.sym} 4 0 0 0 {name=R5}\n");
    let rc = diff(&a, &c);
    assert!(!rc.is_move_all);
    assert_eq!(rc.components.len(), 4);
    assert!(rc.components.iter().all(|c| c.cosmetic && c.kind == ChangeKind::Modified));
}

#[test]
fn a_reorganisation_keeps_the_real_changes() {
    let a = sch("C {r.sym} 0 0 0 0 {name=R1 value=1}\nC {r.sym} 1 0 0 0 {name=R2}\n");
    let b = sch("C {r.sym} 5 0 0 0 {name=R1 value=2}\nC {r.sym} 6 0 0 0 {name=R2}\nC {r.sym} 7 0 0 0 {name=R3}\n");
    let r = diff(&a, &b);
    // R2 only moved (1 of 2 common): no reorganisation, R2 stays.
    assert!(!r.is_move_all);
    let names: Vec<&str> = r.components.iter().map(|c| c.name.as_str()).collect();
    assert_eq!(names, vec!["R3", "R1", "R2"]);
}

#[test]
fn a_coordinate_written_differently_is_no_move() {
    let a = sch("C {r.sym} 10 0 0 0 {name=R1}\n");
    let b = sch("C {r.sym} 10.0 0 0 0 {name=R1}\n");
    assert!(diff(&a, &b).is_empty());
}

#[test]
fn driver_warns_on_a_first_version_that_is_not_xschem() {
    let d = XschemDriver::new();
    let rep = d.diff(b"plain", &sch(""), "x.sch");
    assert_eq!(rep.file_type, FileFormat::Xschem);
    assert!(rep.changes.is_empty());
    assert_eq!(rep.warnings, vec!["x.sch: no es formato Xschem, usando diff de texto.".to_string()]);
}

#[test]
fn driver_entries_name_nets_and_layout() {
    let d = XschemDriver::new();
    let a = sch("C {r.sym} 0 0 0 0 {name=R1}\n");
    let b = sch("C {r.sym} 9 0 0 0 {name=R1}\nN 0 0 1 0 {lab=X}\n");
    let rep = d.diff(&a, &b, "t.sch");
    let names: Vec<&str> = rep.changes.iter().map(|c| c.element.as_str()).collect();
    // R1 alone moved: a reorganisation, so its own entry is left out.
    assert_eq!(names, vec!["net:X", "layout"]);
    assert!(rep.changes[1].cosmetic);
    let c = sch("C {r.sym} 0 0 0 0 {name=R1}\nC {r.sym} 0 5 0 0 {name=R2}\n");
    let e = sch("C {r.sym} 9 0 0 0 {name=R1}\nC {r.sym} 0 5 0 0 {name=R2}\n");
    let rep2 = d.diff(&c, &e, "t.sch");
    let names2: Vec<&str> = rep2.changes.iter().map(|c| c.element.as_str()).collect();
    assert_eq!(names2, vec!["R1"]);
    assert!(rep2.changes[0].cosmetic && rep2.changes[0].position_changed);
}

#[test]
fn driver_reports_a_new_file_as_all_added() {
    let d = XschemDriver::new();
    let b = sch("C {r.sym} 0 0 0 0 {name=R1}\nC {c.sym} 1 0 0 0 {name=C1}\n");
    let rep = d.diff(b"", &b, "n.sch");
    assert!(rep.warnings.is_empty());
    assert_eq!(rep.changes.len(), 2);
    assert!(rep.changes.iter().all(|c| c.kind == ChangeKind::Added && !c.cosmetic));
    let mut names: Vec<&str> = rep.changes.iter().map(|c| c.element.as_str()).collect();
    names.sort();
    assert_eq!(names, vec!["C1", "R1"]);
    let gone = d.diff(&b, b"", "n.sch");
    assert!(gone.changes.iter().all(|c| c.kind == ChangeKind::Removed));
    assert_eq!(gone.changes.len(), 2);
}

#[test]
fn summarize_two_versions() {
    let d = XschemDriver::new();
    let a = sch("C {r.sym} 0 0 0 0 {name=R1 value=1}\n");
    let b = sch("C {r.sym} 0 0 0 0 {name=R1 value=2}\n");
    let s = summarize(&d, &a, &b, "t.sch", DetailLevel::Detalle);
    assert_eq!(s.category, SummaryCategory::Semantic);
    assert_eq!(s.counts.get("components_modified"), Some(&1));
    assert_eq!(s.details[0].params.get("value").map(String::as_str), Some("1 → 2"));
    let same = summarize(&d, &a, &a, "t.sch", DetailLevel::Resumen);
    assert_eq!(same.category, SummaryCategory::Unchanged);
}
