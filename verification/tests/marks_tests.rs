use riku::marks::mark_plan;
use riku::parser::parse;
use riku::semantic_diff::diff;

const A: &str = "v {xschem version=3.4.7 file_version=1.2}\nC {r.sym} 0 0 0 0 {name=R1 value=1}\nC {r.sym} 5 0 0 0 {name=R2}\nN 0 0 1 0 {lab=IN}\nN 0 0 2 0 {lab=KEEP}\n";
const B: &str = "v {xschem version=3.4.7 file_version=1.2}\nC {r.sym} 0 0 0 0 {name=R1 value=2}\nC {c.sym} 9 9 0 0 {name=C1}\nN 0 0 1 0 {lab=OUT}\nN 0 0 2 0 {lab=KEEP}\nN 0 0 3 0 {lab=OUT}\n";

#[test]
fn marks_follow_the_report() {
    let a = parse(A.as_bytes());
    let b = parse(B.as_bytes());
    let r = diff(A.as_bytes(), B.as_bytes());
    let plan = mark_plan(&b, &r, Some(&a));
    // R2 removed (placed from the earlier version), C1 added, R1 modified.
    let marked: Vec<(&str, bool)> =
        plan.components.iter().map(|m| (r.components[m.change].name.as_str(), m.from_earlier)).collect();
    assert_eq!(marked, vec![("R2", true), ("C1", false), ("R1", false)]);
    assert_eq!(plan.wires_added, vec![0, 2]);
    assert_eq!(plan.wires_removed, vec![0]);

    // Without the earlier version a removed component is looked up in the
    // later one, where it is not, so it gets no box; no removed wires.
    let alone = mark_plan(&b, &r, None);
    let names: Vec<&str> = alone.components.iter().map(|m| r.components[m.change].name.as_str()).collect();
    assert_eq!(names, vec!["C1", "R1"]);
    assert!(alone.wires_removed.is_empty());
}
