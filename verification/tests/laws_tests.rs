use riku::driver::{driver_report_to_diff_report, DiffEntry};
use riku::models::ChangeKind;
use riku::pipeline::summarize;
use riku::semantic_diff::diff;
use riku::summary::{DetailLevel, SummaryCategory};
use riku::textmap::TextMap;
use riku::xschem_driver::XschemDriver;

const A: &str = "v {xschem version=3.4.7 file_version=1.2}\nC {r.sym} 0 0 0 0 {name=R1 value=1}\nC {r.sym} 5 0 0 0 {name=R2}\nN 0 0 1 0 {lab=IN}\n";
const B: &str = "v {xschem version=3.4.7 file_version=1.2}\nC {r.sym} 0 0 0 0 {name=R1 value=2}\nC {c.sym} 9 9 0 0 {name=C1}\nN 0 0 1 0 {lab=OUT}\n";

#[test]
fn a_file_compared_with_itself_is_unchanged() {
    let d = XschemDriver::new();
    for content in [A.as_bytes(), b"not a schematic".as_slice(), b"".as_slice()] {
        for level in [DetailLevel::Resumen, DetailLevel::Detalle, DetailLevel::Completo] {
            let s = summarize(&d, content, content, "f.sch", level);
            assert_eq!(s.category, SummaryCategory::Unchanged);
            assert!(s.counts.is_empty());
            assert!(s.details.is_empty());
        }
    }
}

#[test]
fn reversing_a_diff_swaps_additions_and_removals() {
    let ab = diff(A.as_bytes(), B.as_bytes());
    let ba = diff(B.as_bytes(), A.as_bytes());
    assert_eq!(ab.nets_added, ba.nets_removed);
    assert_eq!(ab.nets_removed, ba.nets_added);
    let added_ab: Vec<&str> = ab.components.iter().filter(|c| c.kind == ChangeKind::Added).map(|c| c.name.as_str()).collect();
    let removed_ba: Vec<&str> = ba.components.iter().filter(|c| c.kind == ChangeKind::Removed).map(|c| c.name.as_str()).collect();
    assert_eq!(added_ab, removed_ba);
    assert_eq!(added_ab, vec!["C1"]);
}

#[test]
fn a_diff_from_nothing_adds_everything() {
    let r = diff(b"", B.as_bytes());
    assert_eq!(r.components.len(), 2);
    assert!(r.components.iter().all(|c| c.kind == ChangeKind::Added && !c.cosmetic));
    assert_eq!(r.nets_added, vec!["OUT".to_string()]);
    assert!(r.nets_removed.is_empty() && !r.is_move_all);
}

#[test]
fn driver_entries_read_back_as_the_semantic_diff() {
    let d = XschemDriver::new();
    let rep = d.diff(A.as_bytes(), B.as_bytes(), "f.sch");
    let back = driver_report_to_diff_report(&rep.changes);
    let direct = diff(A.as_bytes(), B.as_bytes());
    assert_eq!(back.components.len(), direct.components.len());
    for (x, y) in back.components.iter().zip(direct.components.iter()) {
        assert_eq!(x.name, y.name);
        assert_eq!(x.kind, y.kind);
        assert_eq!(x.cosmetic, y.cosmetic);
    }
    assert_eq!(back.nets_added, direct.nets_added);
    assert_eq!(back.nets_removed, direct.nets_removed);
    assert_eq!(back.is_move_all, direct.is_move_all);
}

#[test]
fn counts_are_positive() {
    let d = XschemDriver::new();
    let s = summarize(&d, A.as_bytes(), B.as_bytes(), "f.sch", DetailLevel::Resumen);
    assert!(s.counts.len() > 0);
    for i in 0..s.counts.len() {
        assert!(*s.counts.value_at(i) >= 1);
    }
}

#[test]
fn a_text_map_gives_back_what_was_stored() {
    let mut m = TextMap::new();
    m.insert("b".to_string(), 2);
    m.insert("a".to_string(), 1);
    m.insert("b".to_string(), 3);
    assert_eq!(m.len(), 2);
    assert_eq!(m.get("b"), Some(&3));
    assert_eq!(m.get("a"), Some(&1));
    assert_eq!(m.get("c"), None);
    assert_eq!(m.key_at(0), "a");
    assert_eq!(m.remove("a"), Some(1));
    assert!(!m.contains_key("a"));
}

#[test]
fn reversing_a_diff_keeps_the_modified_entries_swapped() {
    let a = "v {xschem version=3.4.7 file_version=1.2}\nC {r.sym} 0 0 0 0 {name=R1 value=1}\nC {r.sym} 5 0 0 0 {name=R2}\nC {r.sym} 7 0 0 0 {name=R3}\n";
    let b = "v {xschem version=3.4.7 file_version=1.2}\nC {r.sym} 0 0 0 0 {name=R1 value=2}\nC {r.sym} 6 0 0 0 {name=R2}\nC {r.sym} 7 0 0 0 {name=R3}\n";
    let ab = diff(a.as_bytes(), b.as_bytes());
    let ba = diff(b.as_bytes(), a.as_bytes());
    assert_eq!(ab.is_move_all, ba.is_move_all);
    let modified = |r: &riku::models::DiffReport| -> Vec<(String, bool, bool)> {
        r.components
            .iter()
            .filter(|c| c.kind == ChangeKind::Modified)
            .map(|c| (c.name.clone(), c.cosmetic, c.position_changed))
            .collect()
    };
    assert_eq!(modified(&ab), modified(&ba));
    assert_eq!(
        modified(&ab),
        vec![("R1".to_string(), false, false), ("R2".to_string(), true, true)]
    );
    let r1_ab = &ab.components[0];
    let r1_ba = &ba.components[0];
    let value = |m: &Option<TextMap<String>>| m.as_ref().unwrap().get("value").cloned();
    assert_eq!(value(&r1_ab.before), value(&r1_ba.after));
    assert_eq!(value(&r1_ab.after), value(&r1_ba.before));
    assert_eq!(value(&r1_ab.before), Some("1".to_string()));
    // Every common component moved: a reorganisation both ways round.
    let c = "v {xschem version=3.4.7 file_version=1.2}\nC {r.sym} 1 0 0 0 {name=R1 value=1}\nC {r.sym} 6 0 0 0 {name=R2}\nC {r.sym} 8 0 0 0 {name=R3}\n";
    assert!(diff(a.as_bytes(), c.as_bytes()).is_move_all);
    assert!(diff(c.as_bytes(), a.as_bytes()).is_move_all);
}

#[test]
fn a_parsed_schematic_is_consistent() {
    let text = "v {xschem version=3.4.7 file_version=1.2}\nC {r.sym} 0 0 0 0 {name=R1 lab=VDD value=1}\nC {r.sym} 1 0 0 0 {name=R1 lab=GND}\nN 0 0 1 0 {lab=OUT}\nN 0 0 1 1 {}\nL 4 0 0 0 0 {lab=IN}\n";
    let s = riku::parser::parse(text.as_bytes());
    assert_eq!(s.components.len(), 1);
    for i in 0..s.components.len() {
        let c = s.components.value_at(i);
        assert_eq!(s.components.key_at(i), &c.name);
        assert!(c.params.get("name").is_none());
        if let Some(l) = c.params.get("lab") {
            assert!(s.nets.contains_key(l));
        }
    }
    for w in &s.wires {
        if !w.label.is_empty() {
            assert!(s.nets.contains_key(&w.label));
        }
    }
    assert!(s.nets.contains_key("GND") && s.nets.contains_key("OUT") && s.nets.contains_key("IN"));
}

#[test]
fn driver_entries_read_back_as_lists() {
    let entry = |kind: ChangeKind, element: &str, cosmetic: bool| DiffEntry {
        kind,
        element: element.to_string(),
        before: None,
        after: None,
        cosmetic,
        position_changed: false,
    };
    let changes = vec![
        entry(ChangeKind::Added, "net:A", false),
        entry(ChangeKind::Modified, "R1", false),
        entry(ChangeKind::Modified, "net:M", false),
        entry(ChangeKind::Removed, "net:B", false),
        entry(ChangeKind::Modified, "layout", false),
        entry(ChangeKind::Removed, "C1", false),
    ];
    let r = driver_report_to_diff_report(&changes);
    let names: Vec<&str> = r.components.iter().map(|c| c.name.as_str()).collect();
    assert_eq!(names, vec!["R1", "C1"]);
    assert_eq!(r.components[1].kind, ChangeKind::Removed);
    assert_eq!(r.nets_added, vec!["A".to_string()]);
    assert_eq!(r.nets_removed, vec!["B".to_string()]);
    assert!(!r.is_move_all);
    let mut with_layout = changes;
    with_layout.push(entry(ChangeKind::Modified, "layout", true));
    assert!(driver_report_to_diff_report(&with_layout).is_move_all);
}
