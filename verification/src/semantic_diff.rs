//! Semantic difference between two versions of a schematic.
//!
//! Components are matched by name. A component only in the old version is
//! removed, one only in the new version is added. A common component whose
//! symbol or attributes changed is modified; one that only moved (coordinates,
//! rotation or mirror) is a cosmetic modification, listed after all the
//! others. When more than 80% of the common components only moved, the whole
//! change is a layout reorganisation ("Move All") and those coordinate-only
//! entries are left out. Nets are compared by name.

use vstd::prelude::*;
use crate::coord::{coord_display, coord_key, display_coord, same_coord};
use crate::models::{
    ChangeKind, Component, ComponentDiff, ComponentDiffView, ComponentView, DiffReport,
    DiffReportView, Schematic, SchematicView,
};
use crate::parser::{parse, schematic_of};
use crate::text::{i64_text, int_text};
use crate::text::{lemma_seq_lt_irreflexive, lemma_seq_lt_total, lemma_seq_lt_transitive, seq_lt};
use crate::textmap::{
    has_key, insert_all, keys_sorted, lemma_lookup_absent, lemma_lookup_index, lemma_lookup_some, lookup,
    seq_insert, TextMap,
};

verus! {

// ───────────────────────── specification ─────────────────────────

/// Same coordinates (by value), rotation and mirror.
pub open spec fn same_place(a: ComponentView, b: ComponentView) -> bool {
    coord_key(a.x) == coord_key(b.x) && coord_key(a.y) == coord_key(b.y) && a.rotation
        == b.rotation && a.mirror == b.mirror
}

/// Same symbol and same attributes.
pub open spec fn same_circuit(a: ComponentView, b: ComponentView) -> bool {
    a.params == b.params && a.symbol == b.symbol
}

/// The flat attribute view of a component: placement, optionally the symbol,
/// then its attributes (which win over placement keys of the same name).
pub open spec fn snapshot(c: ComponentView, include_symbol: bool) -> Seq<(Seq<char>, Seq<char>)> {
    let m0 = seq_insert(
        seq_insert(
            seq_insert(
                seq_insert(Seq::empty(), "x"@, coord_display(c.x)),
                "y"@,
                coord_display(c.y),
            ),
            "rotation"@,
            int_text(c.rotation as int),
        ),
        "mirror"@,
        int_text(c.mirror as int),
    );
    let m1 = if include_symbol {
        seq_insert(m0, "symbol"@, c.symbol)
    } else {
        m0
    };
    insert_all(m1, c.params)
}

pub open spec fn removed_entry(name: Seq<char>, c: ComponentView) -> ComponentDiffView {
    ComponentDiffView {
        name,
        kind: ChangeKind::Removed,
        cosmetic: false,
        position_changed: false,
        before: Some(snapshot(c, true)),
        after: None,
    }
}

pub open spec fn added_entry(name: Seq<char>, c: ComponentView) -> ComponentDiffView {
    ComponentDiffView {
        name,
        kind: ChangeKind::Added,
        cosmetic: false,
        position_changed: false,
        before: None,
        after: Some(snapshot(c, true)),
    }
}

pub open spec fn modified_entry(
    name: Seq<char>,
    a: ComponentView,
    b: ComponentView,
    cosmetic: bool,
) -> ComponentDiffView {
    ComponentDiffView {
        name,
        kind: ChangeKind::Modified,
        cosmetic,
        position_changed: !same_place(a, b),
        before: Some(snapshot(a, true)),
        after: Some(snapshot(b, true)),
    }
}

/// Entries of `a` whose name `b` lacks, as removals, in name order.
pub open spec fn removed_diffs(
    a: Seq<(Seq<char>, ComponentView)>,
    b: Seq<(Seq<char>, ComponentView)>,
) -> Seq<ComponentDiffView>
    decreases a.len(),
{
    if a.len() == 0 {
        Seq::empty()
    } else {
        let rest = removed_diffs(a.drop_last(), b);
        if has_key(b, a.last().0) {
            rest
        } else {
            rest.push(removed_entry(a.last().0, a.last().1))
        }
    }
}

/// Entries of `b` whose name `a` lacks, as additions, in name order.
pub open spec fn added_diffs(
    a: Seq<(Seq<char>, ComponentView)>,
    b: Seq<(Seq<char>, ComponentView)>,
) -> Seq<ComponentDiffView>
    decreases b.len(),
{
    if b.len() == 0 {
        Seq::empty()
    } else {
        let rest = added_diffs(a, b.drop_last());
        if has_key(a, b.last().0) {
            rest
        } else {
            rest.push(added_entry(b.last().0, b.last().1))
        }
    }
}

/// Common components whose circuit changed, in name order.
pub open spec fn changed_diffs(
    a: Seq<(Seq<char>, ComponentView)>,
    b: Seq<(Seq<char>, ComponentView)>,
) -> Seq<ComponentDiffView>
    decreases a.len(),
{
    if a.len() == 0 {
        Seq::empty()
    } else {
        let rest = changed_diffs(a.drop_last(), b);
        match lookup(b, a.last().0) {
            Some(cb) => if !same_circuit(a.last().1, cb) {
                rest.push(modified_entry(a.last().0, a.last().1, cb, false))
            } else {
                rest
            },
            None => rest,
        }
    }
}

/// Common components that only moved, in name order.
pub open spec fn moved_diffs(
    a: Seq<(Seq<char>, ComponentView)>,
    b: Seq<(Seq<char>, ComponentView)>,
) -> Seq<ComponentDiffView>
    decreases a.len(),
{
    if a.len() == 0 {
        Seq::empty()
    } else {
        let rest = moved_diffs(a.drop_last(), b);
        match lookup(b, a.last().0) {
            Some(cb) => if same_circuit(a.last().1, cb) && !same_place(a.last().1, cb) {
                rest.push(modified_entry(a.last().0, a.last().1, cb, true))
            } else {
                rest
            },
            None => rest,
        }
    }
}

/// Number of names that both versions have.
pub open spec fn common_count(
    a: Seq<(Seq<char>, ComponentView)>,
    b: Seq<(Seq<char>, ComponentView)>,
) -> nat
    decreases a.len(),
{
    if a.len() == 0 {
        0
    } else {
        common_count(a.drop_last(), b) + if has_key(b, a.last().0) {
            1nat
        } else {
            0nat
        }
    }
}

/// Names of `x` that `y` lacks, in order.
pub open spec fn net_difference(x: Seq<(Seq<char>, ())>, y: Seq<(Seq<char>, ())>) -> Seq<
    Seq<char>,
>
    decreases x.len(),
{
    if x.len() == 0 {
        Seq::empty()
    } else {
        let rest = net_difference(x.drop_last(), y);
        if has_key(y, x.last().0) {
            rest
        } else {
            rest.push(x.last().0)
        }
    }
}

/// More than 80% of `common` components only moved.
pub open spec fn is_move_all(moved: nat, common: nat) -> bool {
    common > 0 && 5 * moved > 4 * common
}

/// The semantic difference from schematic `a` to schematic `b`.
pub open spec fn diff_view(a: SchematicView, b: SchematicView) -> DiffReportView {
    DiffReportView {
        components: removed_diffs(a.components, b.components) + added_diffs(
            a.components,
            b.components,
        ) + changed_diffs(a.components, b.components) + if is_move_all(
            moved_diffs(a.components, b.components).len(),
            common_count(a.components, b.components),
        ) {
            Seq::empty()
        } else {
            moved_diffs(a.components, b.components)
        },
        nets_added: net_difference(b.nets, a.nets),
        nets_removed: net_difference(a.nets, b.nets),
        is_move_all: is_move_all(
            moved_diffs(a.components, b.components).len(),
            common_count(a.components, b.components),
        ),
    }
}

// ───────────────────────── implementation ─────────────────────────

/// The flat attribute view of a component.
pub fn component_snapshot(component: &Component, include_symbol: bool) -> (m: TextMap<String>)
    ensures
        m.wf(),
        m@ == snapshot(component@, include_symbol),
{
    let mut m: TextMap<String> = TextMap::new();
    m.insert("x".to_string(), display_coord(component.x.as_str()));
    m.insert("y".to_string(), display_coord(component.y.as_str()));
    m.insert("rotation".to_string(), i64_text(component.rotation as i64));
    m.insert("mirror".to_string(), i64_text(component.mirror as i64));
    if include_symbol {
        m.insert("symbol".to_string(), component.symbol.clone());
    }
    let ghost m1 = m@;
    let params = &component.params;
    let mut i: usize = 0;
    while i < params.len()
        invariant
            i <= params@.len(),
            m.wf(),
            m@ == insert_all(m1, params@.take(i as int)),
        decreases params@.len() - i,
    {
        let k = params.key_at(i).clone();
        let v = params.value_at(i).clone();
        m.insert(k, v);
        assert(params@.take(i + 1).drop_last() =~= params@.take(i as int));
        i = i + 1;
    }
    assert(params@.take(params@.len() as int) =~= params@);
    m
}

spec fn diffs_view(v: Seq<ComponentDiff>) -> Seq<ComponentDiffView> {
    v.map_values(|c: ComponentDiff| c@)
}

fn same_place_exec(a: &Component, b: &Component) -> (r: bool)
    ensures
        r == same_place(a@, b@),
{
    same_coord(a.x.as_str(), b.x.as_str()) && same_coord(a.y.as_str(), b.y.as_str())
        && a.rotation == b.rotation && a.mirror == b.mirror
}

fn same_circuit_exec(a: &Component, b: &Component) -> (r: bool)
    ensures
        r == same_circuit(a@, b@),
{
    a.params.same_entries(&b.params) && crate::text::str_eq(a.symbol.as_str(), b.symbol.as_str())
}

/// The semantic difference from schematic `sch_a` to schematic `sch_b`.
pub fn diff_schematics(sch_a: &Schematic, sch_b: &Schematic) -> (report: DiffReport)
    ensures
        report@ == diff_view(sch_a@, sch_b@),
{
    sch_a.components.check_wf();
    sch_b.components.check_wf();
    sch_a.nets.check_wf();
    sch_b.nets.check_wf();
    let a = &sch_a.components;
    let b = &sch_b.components;
    let mut out: Vec<ComponentDiff> = Vec::new();

    let mut i: usize = 0;
    while i < a.len()
        invariant
            a.wf(),
            b.wf(),
            i <= a@.len(),
            diffs_view(out@) == removed_diffs(a@.take(i as int), b@),
        decreases a@.len() - i,
    {
        let name = a.key_at(i);
        assert(a@.take(i + 1).drop_last() =~= a@.take(i as int));
        if !b.contains_key(name.as_str()) {
            let ghost before = diffs_view(out@);
            let snap = component_snapshot(a.value_at(i), true);
            out.push(
                ComponentDiff {
                    name: name.clone(),
                    kind: ChangeKind::Removed,
                    cosmetic: false,
                    position_changed: false,
                    before: Some(snap),
                    after: None,
                },
            );
            assert(diffs_view(out@) =~= before.push(removed_entry(a@[i as int].0, a@[i as int].1)));
        }
        i = i + 1;
    }
    assert(a@.take(a@.len() as int) =~= a@);
    let ghost removed = diffs_view(out@);

    let mut i: usize = 0;
    while i < b.len()
        invariant
            a.wf(),
            b.wf(),
            i <= b@.len(),
            diffs_view(out@) == removed + added_diffs(a@, b@.take(i as int)),
        decreases b@.len() - i,
    {
        let name = b.key_at(i);
        assert(b@.take(i + 1).drop_last() =~= b@.take(i as int));
        if !a.contains_key(name.as_str()) {
            let ghost before = diffs_view(out@);
            let snap = component_snapshot(b.value_at(i), true);
            out.push(
                ComponentDiff {
                    name: name.clone(),
                    kind: ChangeKind::Added,
                    cosmetic: false,
                    position_changed: false,
                    before: None,
                    after: Some(snap),
                },
            );
            assert(diffs_view(out@) =~= before.push(added_entry(b@[i as int].0, b@[i as int].1)));
            assert(removed + added_diffs(a@, b@.take(i + 1)) =~= before.push(
                added_entry(b@[i as int].0, b@[i as int].1),
            ));
        }
        i = i + 1;
    }
    assert(b@.take(b@.len() as int) =~= b@);
    let ghost added = diffs_view(out@);

    let mut moved: Vec<ComponentDiff> = Vec::new();
    let mut common: usize = 0;
    let mut i: usize = 0;
    while i < a.len()
        invariant
            a.wf(),
            b.wf(),
            i <= a@.len(),
            common <= i,
            diffs_view(out@) == added + changed_diffs(a@.take(i as int), b@),
            diffs_view(moved@) == moved_diffs(a@.take(i as int), b@),
            common == common_count(a@.take(i as int), b@),
        decreases a@.len() - i,
    {
        let name = a.key_at(i);
        let ca = a.value_at(i);
        assert(a@.take(i + 1).drop_last() =~= a@.take(i as int));
        match b.get(name.as_str()) {
            Some(cb) => {
                proof {
                    crate::textmap::lemma_lookup_some(b@, name@);
                }
                common = common + 1;
                let circuit_same = same_circuit_exec(ca, cb);
                let place_same = same_place_exec(ca, cb);
                if !circuit_same {
                    let ghost before = diffs_view(out@);
                    let sa = component_snapshot(ca, true);
                    let sb = component_snapshot(cb, true);
                    out.push(
                        ComponentDiff {
                            name: name.clone(),
                            kind: ChangeKind::Modified,
                            cosmetic: false,
                            position_changed: !place_same,
                            before: Some(sa),
                            after: Some(sb),
                        },
                    );
                    assert(diffs_view(out@) =~= before.push(
                        modified_entry(a@[i as int].0, a@[i as int].1, cb@, false),
                    ));
                    assert(added + changed_diffs(a@.take(i + 1), b@) =~= before.push(
                        modified_entry(a@[i as int].0, a@[i as int].1, cb@, false),
                    ));
                } else if !place_same {
                    let ghost before = diffs_view(moved@);
                    let sa = component_snapshot(ca, true);
                    let sb = component_snapshot(cb, true);
                    moved.push(
                        ComponentDiff {
                            name: name.clone(),
                            kind: ChangeKind::Modified,
                            cosmetic: true,
                            position_changed: true,
                            before: Some(sa),
                            after: Some(sb),
                        },
                    );
                    assert(diffs_view(moved@) =~= before.push(
                        modified_entry(a@[i as int].0, a@[i as int].1, cb@, true),
                    ));
                }
            },
            None => {},
        }
        i = i + 1;
    }
    assert(a@.take(a@.len() as int) =~= a@);
    let moved_count = moved.len();
    let move_all = common > 0 && 5 * (moved_count as u128) > 4 * (common as u128);
    let ghost changed_all = diffs_view(out@);
    let ghost moved_all = diffs_view(moved@);
    if !move_all {
        out.append(&mut moved);
        assert(diffs_view(out@) =~= changed_all + moved_all);
    } else {
        assert(diffs_view(out@) =~= changed_all + Seq::<ComponentDiffView>::empty());
    }

    let na = &sch_a.nets;
    let nb = &sch_b.nets;
    let mut nets_added: Vec<String> = Vec::new();
    let mut i: usize = 0;
    while i < nb.len()
        invariant
            na.wf(),
            nb.wf(),
            i <= nb@.len(),
            nets_added@.map_values(|s: String| s@) == net_difference(nb@.take(i as int), na@),
        decreases nb@.len() - i,
    {
        let k = nb.key_at(i);
        assert(nb@.take(i + 1).drop_last() =~= nb@.take(i as int));
        if !na.contains_key(k.as_str()) {
            let ghost before = nets_added@.map_values(|s: String| s@);
            nets_added.push(k.clone());
            assert(nets_added@.map_values(|s: String| s@) =~= before.push(nb@[i as int].0));
        }
        i = i + 1;
    }
    assert(nb@.take(nb@.len() as int) =~= nb@);
    let mut nets_removed: Vec<String> = Vec::new();
    let mut i: usize = 0;
    while i < na.len()
        invariant
            na.wf(),
            nb.wf(),
            i <= na@.len(),
            nets_removed@.map_values(|s: String| s@) == net_difference(na@.take(i as int), nb@),
        decreases na@.len() - i,
    {
        let k = na.key_at(i);
        assert(na@.take(i + 1).drop_last() =~= na@.take(i as int));
        if !nb.contains_key(k.as_str()) {
            let ghost before = nets_removed@.map_values(|s: String| s@);
            nets_removed.push(k.clone());
            assert(nets_removed@.map_values(|s: String| s@) =~= before.push(na@[i as int].0));
        }
        i = i + 1;
    }
    assert(na@.take(na@.len() as int) =~= na@);

    DiffReport { components: out, nets_added, nets_removed, is_move_all: move_all }
}

/// The semantic difference between two versions of an Xschem file.
pub fn diff(content_a: &[u8], content_b: &[u8]) -> (report: DiffReport)
    ensures
        report@ == diff_view(schematic_of(content_a@), schematic_of(content_b@)),
        content_a@.len() == 0 ==> report@ == diff_view(crate::parser::empty_schematic(), schematic_of(content_b@)),
        content_b@.len() == 0 ==> report@ == diff_view(schematic_of(content_a@), crate::parser::empty_schematic()),
        forall|n: Seq<char>|
            #![trigger lookup(schematic_of(content_a@).components, n), lookup(schematic_of(content_b@).components, n)]
            lookup(schematic_of(content_a@).components, n) is Some && lookup(schematic_of(content_b@).components, n) is Some
                && (lookup(schematic_of(content_a@).components, n)->0.symbol != lookup(
                schematic_of(content_b@).components,
                n,
            )->0.symbol || lookup(schematic_of(content_a@).components, n)->0.params != lookup(
                schematic_of(content_b@).components,
                n,
            )->0.params) ==> exists|i: int|
                0 <= i < report@.components.len() && (#[trigger] report@.components[i]).name == n
                    && report@.components[i].kind == ChangeKind::Modified && !report@.components[i].cosmetic,
{
    proof {
        crate::parser::lemma_schematic_of_sorted(content_a@);
        crate::parser::lemma_schematic_of_sorted(content_b@);
        lemma_circuit_changes_are_seen(schematic_of(content_a@), schematic_of(content_b@));
    }
    let sch_a = parse(content_a);
    let sch_b = parse(content_b);
    diff_schematics(&sch_a, &sch_b)
}


// ───────────────────────── laws ─────────────────────────

proof fn lemma_self_prefix(s: Seq<(Seq<char>, ComponentView)>, n: int)
    requires
        crate::textmap::keys_sorted(s),
        0 <= n <= s.len(),
    ensures
        removed_diffs(s.take(n), s).len() == 0,
        changed_diffs(s.take(n), s).len() == 0,
        moved_diffs(s.take(n), s).len() == 0,
    decreases n,
{
    if n > 0 {
        let p = s.take(n);
        assert(p.drop_last() =~= s.take(n - 1));
        lemma_self_prefix(s, n - 1);
        assert(p.last() == s[n - 1]);
        assert(has_key(s, s[n - 1].0));
        crate::textmap::lemma_lookup_index(s, n - 1);
    }
}

proof fn lemma_self_nets(s: Seq<(Seq<char>, ())>, n: int)
    requires
        0 <= n <= s.len(),
    ensures
        net_difference(s.take(n), s).len() == 0,
    decreases n,
{
    if n > 0 {
        let p = s.take(n);
        assert(p.drop_last() =~= s.take(n - 1));
        lemma_self_nets(s, n - 1);
        assert(p.last() == s[n - 1]);
        assert(has_key(s, s[n - 1].0));
    }
}

proof fn lemma_added_self(s: Seq<(Seq<char>, ComponentView)>, n: int)
    requires
        0 <= n <= s.len(),
    ensures
        added_diffs(s, s.take(n)).len() == 0,
    decreases n,
{
    if n > 0 {
        let p = s.take(n);
        assert(p.drop_last() =~= s.take(n - 1));
        lemma_added_self(s, n - 1);
        assert(p.last() == s[n - 1]);
        assert(has_key(s, s[n - 1].0));
    }
}

/// Comparing a schematic with itself finds no change: no component entry,
/// no net added or removed, and no layout reorganisation.
pub proof fn lemma_diff_of_same_schematic_is_empty(s: SchematicView)
    requires
        crate::textmap::keys_sorted(s.components),
    ensures
        diff_view(s, s).components.len() == 0,
        diff_view(s, s).nets_added.len() == 0,
        diff_view(s, s).nets_removed.len() == 0,
        !diff_view(s, s).is_move_all,
{
    lemma_self_prefix(s.components, s.components.len() as int);
    lemma_added_self(s.components, s.components.len() as int);
    lemma_self_nets(s.nets, s.nets.len() as int);
    assert(s.components.take(s.components.len() as int) =~= s.components);
    assert(s.nets.take(s.nets.len() as int) =~= s.nets);
}

/// Two equal files differ in nothing.
pub proof fn lemma_diff_of_same_content_is_empty(content: Seq<u8>)
    ensures
        diff_view(schematic_of(content), schematic_of(content)).components.len() == 0,
        diff_view(schematic_of(content), schematic_of(content)).nets_added.len() == 0,
        diff_view(schematic_of(content), schematic_of(content)).nets_removed.len() == 0,
{
    crate::parser::lemma_schematic_of_sorted(content);
    lemma_diff_of_same_schematic_is_empty(schematic_of(content));
}

/// The entry the reverse comparison makes of a change.
pub open spec fn reversed_entry(e: ComponentDiffView) -> ComponentDiffView {
    ComponentDiffView {
        name: e.name,
        kind: match e.kind {
            ChangeKind::Added => ChangeKind::Removed,
            ChangeKind::Removed => ChangeKind::Added,
            ChangeKind::Modified => ChangeKind::Modified,
        },
        cosmetic: e.cosmetic,
        position_changed: e.position_changed,
        before: e.after,
        after: e.before,
    }
}

proof fn lemma_added_is_reversed_removed(
    a: Seq<(Seq<char>, ComponentView)>,
    b: Seq<(Seq<char>, ComponentView)>,
)
    ensures
        added_diffs(a, b) == removed_diffs(b, a).map_values(|e: ComponentDiffView| reversed_entry(e)),
    decreases b.len(),
{
    if b.len() > 0 {
        lemma_added_is_reversed_removed(a, b.drop_last());
        let r = removed_diffs(b.drop_last(), a);
        if !has_key(a, b.last().0) {
            assert(r.push(removed_entry(b.last().0, b.last().1)).map_values(
                |e: ComponentDiffView| reversed_entry(e),
            ) =~= r.map_values(|e: ComponentDiffView| reversed_entry(e)).push(
                added_entry(b.last().0, b.last().1),
            ));
        }
    } else {
        assert(removed_diffs(b, a).map_values(|e: ComponentDiffView| reversed_entry(e))
            =~= Seq::<ComponentDiffView>::empty());
    }
}

/// Comparing the other way round turns additions into removals: what `a → b`
/// adds is what `b → a` removes (same names, same order, snapshots swapped),
/// and the nets added one way are the nets removed the other way.
pub proof fn lemma_diff_reversed(a: SchematicView, b: SchematicView)
    ensures
        added_diffs(a.components, b.components) == removed_diffs(b.components, a.components).map_values(
            |e: ComponentDiffView| reversed_entry(e),
        ),
        added_diffs(b.components, a.components) == removed_diffs(a.components, b.components).map_values(
            |e: ComponentDiffView| reversed_entry(e),
        ),
        diff_view(a, b).nets_added == diff_view(b, a).nets_removed,
        diff_view(a, b).nets_removed == diff_view(b, a).nets_added,
{
    lemma_added_is_reversed_removed(a.components, b.components);
    lemma_added_is_reversed_removed(b.components, a.components);
}

proof fn lemma_sorted_drop_last<T>(s: Seq<(Seq<char>, T)>)
    requires
        keys_sorted(s),
        s.len() > 0,
    ensures
        keys_sorted(s.drop_last()),
{
    assert forall|i: int, j: int| 0 <= i < j < s.drop_last().len() implies seq_lt(
        #[trigger] s.drop_last()[i].0,
        #[trigger] s.drop_last()[j].0,
    ) by {
        assert(s.drop_last()[i] == s[i] && s.drop_last()[j] == s[j]);
    }
}

/// A key of sorted entries above the last key is not among them.
proof fn lemma_key_above_absent<T>(s: Seq<(Seq<char>, T)>, k: Seq<char>)
    requires
        keys_sorted(s),
        s.len() > 0,
        seq_lt(s.last().0, k),
    ensures
        !has_key(s, k),
{
    if has_key(s, k) {
        let i = choose|i: int| 0 <= i < s.len() && #[trigger] s[i].0 == k;
        if i < s.len() - 1 {
            assert(seq_lt(s[i].0, s[s.len() - 1].0));
            lemma_seq_lt_transitive(k, s.last().0, k);
        }
        lemma_seq_lt_irreflexive(k);
    }
}

/// The last key of sorted entries is not among the others.
proof fn lemma_last_key_absent_before<T>(s: Seq<(Seq<char>, T)>)
    requires
        keys_sorted(s),
        s.len() > 0,
    ensures
        !has_key(s.drop_last(), s.last().0),
{
    if has_key(s.drop_last(), s.last().0) {
        let i = choose|i: int| 0 <= i < s.drop_last().len() && #[trigger] s.drop_last()[i].0 == s.last().0;
        assert(s[i].0 == s.drop_last()[i].0);
        assert(seq_lt(s[i].0, s[s.len() - 1].0));
        lemma_seq_lt_irreflexive(s.last().0);
    }
}

proof fn lemma_has_key_drop_last<T>(s: Seq<(Seq<char>, T)>, x: Seq<char>)
    requires
        s.len() > 0,
        x != s.last().0,
    ensures
        has_key(s, x) == has_key(s.drop_last(), x),
{
    if has_key(s, x) {
        let i = choose|i: int| 0 <= i < s.len() && #[trigger] s[i].0 == x;
        assert(s.drop_last()[i].0 == x);
    }
    if has_key(s.drop_last(), x) {
        let i = choose|i: int| 0 <= i < s.drop_last().len() && #[trigger] s.drop_last()[i].0 == x;
        assert(s[i].0 == x);
    }
}

proof fn lemma_lookup_drop_last<T>(s: Seq<(Seq<char>, T)>, x: Seq<char>)
    requires
        keys_sorted(s),
        s.len() > 0,
        x != s.last().0,
    ensures
        lookup(s, x) == lookup(s.drop_last(), x),
{
    let t = s.drop_last();
    lemma_sorted_drop_last(s);
    lemma_has_key_drop_last(s, x);
    if has_key(t, x) {
        let i = choose|i: int| 0 <= i < t.len() && #[trigger] t[i].0 == x;
        assert(t[i] == s[i]);
        lemma_lookup_index(s, i);
        lemma_lookup_index(t, i);
    } else {
        lemma_lookup_absent(s, x);
        lemma_lookup_absent(t, x);
    }
}

/// The last entry of `b`, under a name `a` lacks, plays no part in what
/// changed, what moved, or how many names are common.
proof fn lemma_ignore_last_of_b(a: Seq<(Seq<char>, ComponentView)>, b: Seq<(Seq<char>, ComponentView)>)
    requires
        keys_sorted(b),
        b.len() > 0,
        !has_key(a, b.last().0),
    ensures
        changed_diffs(a, b) == changed_diffs(a, b.drop_last()),
        moved_diffs(a, b) == moved_diffs(a, b.drop_last()),
        common_count(a, b) == common_count(a, b.drop_last()),
    decreases a.len(),
{
    if a.len() > 0 {
        let k = b.last().0;
        assert(!has_key(a.drop_last(), k)) by {
            if has_key(a.drop_last(), k) {
                let i = choose|i: int| 0 <= i < a.drop_last().len() && #[trigger] a.drop_last()[i].0 == k;
                assert(a[i].0 == k);
            }
        }
        assert(a[a.len() - 1].0 != k);
        lemma_ignore_last_of_b(a.drop_last(), b);
        lemma_lookup_drop_last(b, a.last().0);
        lemma_has_key_drop_last(b, a.last().0);
    }
}

proof fn lemma_against_nothing(a: Seq<(Seq<char>, ComponentView)>, b: Seq<(Seq<char>, ComponentView)>)
    requires
        b.len() == 0,
    ensures
        changed_diffs(a, b).len() == 0,
        moved_diffs(a, b).len() == 0,
        common_count(a, b) == 0,
    decreases a.len(),
{
    if a.len() > 0 {
        lemma_against_nothing(a.drop_last(), b);
        assert(!has_key(b, a.last().0));
    }
}

proof fn lemma_reversed_modified(name: Seq<char>, ca: ComponentView, cb: ComponentView, cosmetic: bool)
    ensures
        reversed_entry(modified_entry(name, ca, cb, cosmetic)) == modified_entry(name, cb, ca, cosmetic),
        same_circuit(ca, cb) == same_circuit(cb, ca),
        same_place(ca, cb) == same_place(cb, ca),
{
}

/// Over sorted entries, the common names that changed or only moved are the
/// same both ways round, in the same order, with the snapshots swapped; and
/// so is the number of common names.
proof fn lemma_common_swap(a: Seq<(Seq<char>, ComponentView)>, b: Seq<(Seq<char>, ComponentView)>)
    requires
        keys_sorted(a),
        keys_sorted(b),
    ensures
        changed_diffs(b, a) == changed_diffs(a, b).map_values(|e: ComponentDiffView| reversed_entry(e)),
        moved_diffs(b, a) == moved_diffs(a, b).map_values(|e: ComponentDiffView| reversed_entry(e)),
        common_count(b, a) == common_count(a, b),
    decreases a.len() + b.len(),
{
    if a.len() == 0 || b.len() == 0 {
        if a.len() == 0 {
            lemma_against_nothing(b, a);
        } else {
            lemma_against_nothing(a, b);
        }
        assert(changed_diffs(b, a) =~= changed_diffs(a, b).map_values(|e: ComponentDiffView| reversed_entry(e)));
        assert(moved_diffs(b, a) =~= moved_diffs(a, b).map_values(|e: ComponentDiffView| reversed_entry(e)));
    } else {
        let ka = a.last().0;
        let kb = b.last().0;
        let a1 = a.drop_last();
        let b1 = b.drop_last();
        lemma_sorted_drop_last(a);
        lemma_sorted_drop_last(b);
        lemma_seq_lt_total(ka, kb);
        if ka == kb {
            lemma_last_key_absent_before(a);
            lemma_last_key_absent_before(b);
            lemma_ignore_last_of_b(a1, b);
            lemma_ignore_last_of_b(b1, a);
            lemma_common_swap(a1, b1);
            lemma_lookup_index(b, b.len() - 1);
            lemma_lookup_index(a, a.len() - 1);
            assert(has_key(b, ka) && has_key(a, kb)) by {
                assert(b[b.len() - 1].0 == ka);
                assert(a[a.len() - 1].0 == kb);
            }
            lemma_reversed_modified(ka, a.last().1, b.last().1, false);
            lemma_reversed_modified(ka, a.last().1, b.last().1, true);
            let ca = changed_diffs(a1, b1);
            let ma = moved_diffs(a1, b1);
            assert(ca.push(modified_entry(ka, a.last().1, b.last().1, false)).map_values(
                |e: ComponentDiffView| reversed_entry(e),
            ) =~= ca.map_values(|e: ComponentDiffView| reversed_entry(e)).push(
                reversed_entry(modified_entry(ka, a.last().1, b.last().1, false)),
            ));
            assert(ma.push(modified_entry(ka, a.last().1, b.last().1, true)).map_values(
                |e: ComponentDiffView| reversed_entry(e),
            ) =~= ma.map_values(|e: ComponentDiffView| reversed_entry(e)).push(
                reversed_entry(modified_entry(ka, a.last().1, b.last().1, true)),
            ));
        } else if seq_lt(ka, kb) {
            lemma_key_above_absent(a, kb);
            lemma_ignore_last_of_b(a, b);
            lemma_common_swap(a, b1);
            lemma_lookup_absent(a, kb);
        } else {
            lemma_key_above_absent(b, ka);
            lemma_ignore_last_of_b(b, a);
            lemma_common_swap(a1, b);
            lemma_lookup_absent(b, ka);
        }
    }
}

proof fn lemma_reverse_twice(s: Seq<ComponentDiffView>)
    ensures
        s.map_values(|e: ComponentDiffView| reversed_entry(e)).map_values(
            |e: ComponentDiffView| reversed_entry(e),
        ) == s,
{
    assert(s.map_values(|e: ComponentDiffView| reversed_entry(e)).map_values(
        |e: ComponentDiffView| reversed_entry(e),
    ) =~= s);
}

/// Comparing the other way round gives every entry reversed: what one way
/// adds the other removes and back, and the modified entries keep their
/// names, their order and their cosmetic and placement flags, with the two
/// snapshots swapped. A layout reorganisation is found either both ways or
/// neither.
pub proof fn lemma_diff_reversed_entries(a: SchematicView, b: SchematicView)
    requires
        keys_sorted(a.components),
        keys_sorted(b.components),
    ensures
        changed_diffs(b.components, a.components) == changed_diffs(a.components, b.components).map_values(
            |e: ComponentDiffView| reversed_entry(e),
        ),
        moved_diffs(b.components, a.components) == moved_diffs(a.components, b.components).map_values(
            |e: ComponentDiffView| reversed_entry(e),
        ),
        diff_view(b, a).is_move_all == diff_view(a, b).is_move_all,
        diff_view(b, a).components == (added_diffs(a.components, b.components) + removed_diffs(
            a.components,
            b.components,
        ) + changed_diffs(a.components, b.components) + if diff_view(a, b).is_move_all {
            Seq::empty()
        } else {
            moved_diffs(a.components, b.components)
        }).map_values(|e: ComponentDiffView| reversed_entry(e)),
{
    let ac = a.components;
    let bc = b.components;
    lemma_common_swap(ac, bc);
    lemma_added_is_reversed_removed(ac, bc);
    lemma_added_is_reversed_removed(bc, ac);
    lemma_reverse_twice(removed_diffs(bc, ac));
    let tail = if diff_view(a, b).is_move_all {
        Seq::<ComponentDiffView>::empty()
    } else {
        moved_diffs(ac, bc)
    };
    assert((added_diffs(ac, bc) + removed_diffs(ac, bc) + changed_diffs(ac, bc) + tail).map_values(
        |e: ComponentDiffView| reversed_entry(e),
    ) =~= added_diffs(ac, bc).map_values(|e: ComponentDiffView| reversed_entry(e)) + removed_diffs(
        ac,
        bc,
    ).map_values(|e: ComponentDiffView| reversed_entry(e)) + changed_diffs(ac, bc).map_values(
        |e: ComponentDiffView| reversed_entry(e),
    ) + tail.map_values(|e: ComponentDiffView| reversed_entry(e)));
    assert(tail.map_values(|e: ComponentDiffView| reversed_entry(e)) =~= if diff_view(b, a).is_move_all {
        Seq::<ComponentDiffView>::empty()
    } else {
        moved_diffs(bc, ac)
    });
}

proof fn lemma_from_empty(b: Seq<(Seq<char>, ComponentView)>)
    ensures
        added_diffs(Seq::empty(), b) == b.map_values(
            |e: (Seq<char>, ComponentView)| added_entry(e.0, e.1),
        ),
    decreases b.len(),
{
    if b.len() > 0 {
        lemma_from_empty(b.drop_last());
        assert(!has_key(Seq::<(Seq<char>, ComponentView)>::empty(), b.last().0));
        assert(b.map_values(|e: (Seq<char>, ComponentView)| added_entry(e.0, e.1)) =~= b.drop_last().map_values(
            |e: (Seq<char>, ComponentView)| added_entry(e.0, e.1),
        ).push(added_entry(b.last().0, b.last().1)));
    } else {
        assert(b.map_values(|e: (Seq<char>, ComponentView)| added_entry(e.0, e.1)) =~= Seq::<
            ComponentDiffView,
        >::empty());
    }
}

proof fn lemma_nets_from_empty(b: Seq<(Seq<char>, ())>)
    ensures
        net_difference(b, Seq::empty()) == b.map_values(|e: (Seq<char>, ())| e.0),
    decreases b.len(),
{
    if b.len() > 0 {
        lemma_nets_from_empty(b.drop_last());
        assert(!has_key(Seq::<(Seq<char>, ())>::empty(), b.last().0));
        assert(b.map_values(|e: (Seq<char>, ())| e.0) =~= b.drop_last().map_values(
            |e: (Seq<char>, ())| e.0,
        ).push(b.last().0));
    } else {
        assert(b.map_values(|e: (Seq<char>, ())| e.0) =~= Seq::<Seq<char>>::empty());
    }
}

/// Against an empty old version every component is added, in name order,
/// every net is added, and nothing is removed.
pub proof fn lemma_diff_from_nothing(b: SchematicView)
    ensures
        diff_view(crate::parser::empty_schematic(), b).components == b.components.map_values(
            |e: (Seq<char>, ComponentView)| added_entry(e.0, e.1),
        ),
        diff_view(crate::parser::empty_schematic(), b).nets_added == b.nets.map_values(
            |e: (Seq<char>, ())| e.0,
        ),
        diff_view(crate::parser::empty_schematic(), b).nets_removed.len() == 0,
        !diff_view(crate::parser::empty_schematic(), b).is_move_all,
{
    let e = crate::parser::empty_schematic();
    lemma_from_empty(b.components);
    lemma_nets_from_empty(b.nets);
    assert(removed_diffs(e.components, b.components) =~= Seq::<ComponentDiffView>::empty());
    assert(changed_diffs(e.components, b.components) =~= Seq::<ComponentDiffView>::empty());
    assert(moved_diffs(e.components, b.components) =~= Seq::<ComponentDiffView>::empty());
    assert(diff_view(e, b).components =~= added_diffs(e.components, b.components));
}

proof fn lemma_to_empty(a: Seq<(Seq<char>, ComponentView)>)
    ensures
        removed_diffs(a, Seq::empty()) == a.map_values(
            |e: (Seq<char>, ComponentView)| removed_entry(e.0, e.1),
        ),
    decreases a.len(),
{
    if a.len() > 0 {
        lemma_to_empty(a.drop_last());
        assert(!has_key(Seq::<(Seq<char>, ComponentView)>::empty(), a.last().0));
        assert(a.map_values(|e: (Seq<char>, ComponentView)| removed_entry(e.0, e.1)) =~= a.drop_last().map_values(
            |e: (Seq<char>, ComponentView)| removed_entry(e.0, e.1),
        ).push(removed_entry(a.last().0, a.last().1)));
    } else {
        assert(a.map_values(|e: (Seq<char>, ComponentView)| removed_entry(e.0, e.1)) =~= Seq::<
            ComponentDiffView,
        >::empty());
    }
}

/// Against an empty new version every component is removed, in name order,
/// every net is removed, and nothing is added.
pub proof fn lemma_diff_to_nothing(a: SchematicView)
    ensures
        diff_view(a, crate::parser::empty_schematic()).components == a.components.map_values(
            |e: (Seq<char>, ComponentView)| removed_entry(e.0, e.1),
        ),
        diff_view(a, crate::parser::empty_schematic()).nets_removed == a.nets.map_values(
            |e: (Seq<char>, ())| e.0,
        ),
        diff_view(a, crate::parser::empty_schematic()).nets_added.len() == 0,
        !diff_view(a, crate::parser::empty_schematic()).is_move_all,
{
    let e = crate::parser::empty_schematic();
    lemma_to_empty(a.components);
    lemma_nets_from_empty(a.nets);
    lemma_against_nothing(a.components, e.components);
    assert(added_diffs(a.components, e.components) =~= Seq::<ComponentDiffView>::empty());
    assert(changed_diffs(a.components, e.components) =~= Seq::<ComponentDiffView>::empty());
    assert(moved_diffs(a.components, e.components) =~= Seq::<ComponentDiffView>::empty());
    assert(diff_view(a, e).components =~= removed_diffs(a.components, e.components));
}

proof fn lemma_changed_has(
    a: Seq<(Seq<char>, ComponentView)>,
    b: Seq<(Seq<char>, ComponentView)>,
    k: int,
    cb: ComponentView,
)
    requires
        0 <= k < a.len(),
        lookup(b, a[k].0) == Some(cb),
        !(a[k].1.params == cb.params && a[k].1.symbol == cb.symbol),
    ensures
        changed_diffs(a, b).contains(modified_entry(a[k].0, a[k].1, cb, false)),
    decreases a.len(),
{
    let e = modified_entry(a[k].0, a[k].1, cb, false);
    let rest = changed_diffs(a.drop_last(), b);
    if k == a.len() - 1 {
        assert(changed_diffs(a, b) == rest.push(e));
        assert(changed_diffs(a, b)[rest.len() as int] == e);
    } else {
        assert(a.drop_last()[k] == a[k]);
        lemma_changed_has(a.drop_last(), b, k, cb);
        let j = choose|j: int| 0 <= j < rest.len() && rest[j] == e;
        assert(changed_diffs(a, b)[j] == e);
    }
}

proof fn lemma_changed_from(a: Seq<(Seq<char>, ComponentView)>, b: Seq<(Seq<char>, ComponentView)>)
    ensures
        forall|i: int|
            0 <= i < changed_diffs(a, b).len() ==> exists|k: int, cb: ComponentView|
                0 <= k < a.len() && lookup(b, a[k].0) == Some(cb) && !(a[k].1.params == cb.params
                    && a[k].1.symbol == cb.symbol) && #[trigger] changed_diffs(a, b)[i] == modified_entry(
                    a[k].0,
                    a[k].1,
                    cb,
                    false,
                ),
    decreases a.len(),
{
    if a.len() > 0 {
        lemma_changed_from(a.drop_last(), b);
        let rest = changed_diffs(a.drop_last(), b);
        assert forall|i: int| 0 <= i < changed_diffs(a, b).len() implies exists|k: int, cb: ComponentView|
            0 <= k < a.len() && lookup(b, a[k].0) == Some(cb) && !(a[k].1.params == cb.params
                && a[k].1.symbol == cb.symbol) && #[trigger] changed_diffs(a, b)[i] == modified_entry(
                a[k].0,
                a[k].1,
                cb,
                false,
            ) by {
            if i < rest.len() {
                assert(changed_diffs(a, b)[i] == rest[i]);
                let (k, cb) = choose|k: int, cb: ComponentView|
                    0 <= k < a.drop_last().len() && lookup(b, a.drop_last()[k].0) == Some(cb) && !(
                    a.drop_last()[k].1.params == cb.params && a.drop_last()[k].1.symbol == cb.symbol)
                        && #[trigger] rest[i] == modified_entry(a.drop_last()[k].0, a.drop_last()[k].1, cb, false);
                assert(a.drop_last()[k] == a[k]);
            } else {
                let k = a.len() - 1;
                let cb = lookup(b, a[k].0)->0;
                assert(changed_diffs(a, b)[i] == modified_entry(a[k].0, a[k].1, cb, false));
            }
        }
    }
}

proof fn lemma_moved_from(a: Seq<(Seq<char>, ComponentView)>, b: Seq<(Seq<char>, ComponentView)>)
    ensures
        forall|i: int|
            0 <= i < moved_diffs(a, b).len() ==> exists|k: int, cb: ComponentView|
                0 <= k < a.len() && lookup(b, a[k].0) == Some(cb) && a[k].1.params == cb.params
                    && a[k].1.symbol == cb.symbol && #[trigger] moved_diffs(a, b)[i] == modified_entry(
                    a[k].0,
                    a[k].1,
                    cb,
                    true,
                ),
    decreases a.len(),
{
    if a.len() > 0 {
        lemma_moved_from(a.drop_last(), b);
        let rest = moved_diffs(a.drop_last(), b);
        assert forall|i: int| 0 <= i < moved_diffs(a, b).len() implies exists|k: int, cb: ComponentView|
            0 <= k < a.len() && lookup(b, a[k].0) == Some(cb) && a[k].1.params == cb.params
                && a[k].1.symbol == cb.symbol && #[trigger] moved_diffs(a, b)[i] == modified_entry(
                a[k].0,
                a[k].1,
                cb,
                true,
            ) by {
            if i < rest.len() {
                assert(moved_diffs(a, b)[i] == rest[i]);
                let (k, cb) = choose|k: int, cb: ComponentView|
                    0 <= k < a.drop_last().len() && lookup(b, a.drop_last()[k].0) == Some(cb)
                        && a.drop_last()[k].1.params == cb.params && a.drop_last()[k].1.symbol == cb.symbol
                        && #[trigger] rest[i] == modified_entry(a.drop_last()[k].0, a.drop_last()[k].1, cb, true);
                assert(a.drop_last()[k] == a[k]);
            } else {
                let k = a.len() - 1;
                let cb = lookup(b, a[k].0)->0;
                assert(moved_diffs(a, b)[i] == modified_entry(a[k].0, a[k].1, cb, true));
            }
        }
    }
}

/// A change of circuit is always seen, and only such a change is a real
/// modification: a component both versions hold whose symbol or attributes
/// differ gets a modification that is not cosmetic, with its two snapshots;
/// every modification that is not cosmetic is of such a component; and every
/// cosmetic one is of a component whose symbol and attributes are the same
/// in both versions and whose placement changed.
pub proof fn lemma_circuit_changes_are_seen(a: SchematicView, b: SchematicView)
    requires
        keys_sorted(a.components),
        keys_sorted(b.components),
    ensures
        forall|n: Seq<char>|
            #![trigger lookup(a.components, n), lookup(b.components, n)]
            lookup(a.components, n) is Some && lookup(b.components, n) is Some && (lookup(a.components, n)->0.symbol
                != lookup(b.components, n)->0.symbol || lookup(a.components, n)->0.params != lookup(
                b.components,
                n,
            )->0.params) ==> exists|i: int|
                0 <= i < diff_view(a, b).components.len() && #[trigger] diff_view(a, b).components[i]
                    == (ComponentDiffView {
                    name: n,
                    kind: ChangeKind::Modified,
                    cosmetic: false,
                    position_changed: !same_place(lookup(a.components, n)->0, lookup(b.components, n)->0),
                    before: Some(snapshot(lookup(a.components, n)->0, true)),
                    after: Some(snapshot(lookup(b.components, n)->0, true)),
                }),
        forall|i: int|
            0 <= i < diff_view(a, b).components.len() && (#[trigger] diff_view(a, b).components[i]).kind
                == ChangeKind::Modified ==> exists|ca: ComponentView, cb: ComponentView|
                lookup(a.components, diff_view(a, b).components[i].name) == Some(ca) && lookup(
                    b.components,
                    diff_view(a, b).components[i].name,
                ) == Some(cb) && diff_view(a, b).components[i].before == Some(snapshot(ca, true))
                    && diff_view(a, b).components[i].after == Some(snapshot(cb, true)) && (diff_view(
                    a,
                    b,
                ).components[i].cosmetic <==> (ca.symbol == cb.symbol && ca.params == cb.params)) && (
                diff_view(a, b).components[i].cosmetic ==> !same_place(ca, cb)),
{
    let ac = a.components;
    let bc = b.components;
    let rm = removed_diffs(ac, bc);
    let ad = added_diffs(ac, bc);
    let ch = changed_diffs(ac, bc);
    let mv = moved_diffs(ac, bc);
    let r = diff_view(a, b);
    let tail = if r.is_move_all {
        Seq::<ComponentDiffView>::empty()
    } else {
        mv
    };
    assert(r.components == rm + ad + ch + tail);
    assert forall|n: Seq<char>|
        #![trigger lookup(a.components, n), lookup(b.components, n)]
        lookup(a.components, n) is Some && lookup(b.components, n) is Some && (lookup(a.components, n)->0.symbol
            != lookup(b.components, n)->0.symbol || lookup(a.components, n)->0.params != lookup(
            b.components,
            n,
        )->0.params) implies exists|i: int|
        0 <= i < r.components.len() && #[trigger] r.components[i] == (ComponentDiffView {
            name: n,
            kind: ChangeKind::Modified,
            cosmetic: false,
            position_changed: !same_place(lookup(a.components, n)->0, lookup(b.components, n)->0),
            before: Some(snapshot(lookup(a.components, n)->0, true)),
            after: Some(snapshot(lookup(b.components, n)->0, true)),
        }) by {
        let ca = lookup(ac, n)->0;
        let cb = lookup(bc, n)->0;
        lemma_lookup_some(ac, n);
        let k = choose|k: int| 0 <= k < ac.len() && ac[k].0 == n && lookup(ac, n) == Some(#[trigger] ac[k].1);
        lemma_changed_has(ac, bc, k, cb);
        let e = modified_entry(n, ca, cb, false);
        let j = choose|j: int| 0 <= j < ch.len() && ch[j] == e;
        let i = rm.len() + ad.len() + j;
        assert(r.components[i] == ch[j]);
    }
    lemma_changed_from(ac, bc);
    lemma_moved_from(ac, bc);
    lemma_removed_kinds(ac, bc);
    lemma_added_kinds(ac, bc);
    assert forall|i: int|
        0 <= i < r.components.len() && (#[trigger] r.components[i]).kind == ChangeKind::Modified implies exists|
        ca: ComponentView,
        cb: ComponentView,
    |
        lookup(ac, r.components[i].name) == Some(ca) && lookup(bc, r.components[i].name) == Some(cb)
            && r.components[i].before == Some(snapshot(ca, true)) && r.components[i].after == Some(
            snapshot(cb, true),
        ) && (r.components[i].cosmetic <==> (ca.symbol == cb.symbol && ca.params == cb.params)) && (
        r.components[i].cosmetic ==> !same_place(ca, cb)) by {
        if i < rm.len() {
            assert(r.components[i] == rm[i]);
        } else if i < rm.len() + ad.len() {
            assert(r.components[i] == ad[i - rm.len()]);
        } else if i < rm.len() + ad.len() + ch.len() {
            let j = i - rm.len() - ad.len();
            assert(r.components[i] == ch[j]);
            let (k, cb) = choose|k: int, cb: ComponentView|
                0 <= k < ac.len() && lookup(bc, ac[k].0) == Some(cb) && !(ac[k].1.params == cb.params
                    && ac[k].1.symbol == cb.symbol) && #[trigger] ch[j] == modified_entry(ac[k].0, ac[k].1, cb, false);
            lemma_lookup_index(ac, k);
        } else {
            let j = i - rm.len() - ad.len() - ch.len();
            assert(r.components[i] == tail[j]);
            assert(!r.is_move_all);
            let (k, cb) = choose|k: int, cb: ComponentView|
                0 <= k < ac.len() && lookup(bc, ac[k].0) == Some(cb) && ac[k].1.params == cb.params
                    && ac[k].1.symbol == cb.symbol && #[trigger] mv[j] == modified_entry(ac[k].0, ac[k].1, cb, true);
            lemma_lookup_index(ac, k);
            lemma_moved_are_cosmetic(ac, bc);
            assert(mv[j].position_changed);
        }
    }
}

proof fn lemma_removed_has(a: Seq<(Seq<char>, ComponentView)>, b: Seq<(Seq<char>, ComponentView)>, k: int)
    requires
        0 <= k < a.len(),
        !has_key(b, a[k].0),
    ensures
        removed_diffs(a, b).contains(removed_entry(a[k].0, a[k].1)),
    decreases a.len(),
{
    let e = removed_entry(a[k].0, a[k].1);
    let rest = removed_diffs(a.drop_last(), b);
    if k == a.len() - 1 {
        assert(removed_diffs(a, b)[rest.len() as int] == e);
    } else {
        assert(a.drop_last()[k] == a[k]);
        lemma_removed_has(a.drop_last(), b, k);
        let j = choose|j: int| 0 <= j < rest.len() && rest[j] == e;
        assert(removed_diffs(a, b)[j] == e);
    }
}

proof fn lemma_added_has(a: Seq<(Seq<char>, ComponentView)>, b: Seq<(Seq<char>, ComponentView)>, k: int)
    requires
        0 <= k < b.len(),
        !has_key(a, b[k].0),
    ensures
        added_diffs(a, b).contains(added_entry(b[k].0, b[k].1)),
    decreases b.len(),
{
    let e = added_entry(b[k].0, b[k].1);
    let rest = added_diffs(a, b.drop_last());
    if k == b.len() - 1 {
        assert(added_diffs(a, b)[rest.len() as int] == e);
    } else {
        assert(b.drop_last()[k] == b[k]);
        lemma_added_has(a, b.drop_last(), k);
        let j = choose|j: int| 0 <= j < rest.len() && rest[j] == e;
        assert(added_diffs(a, b)[j] == e);
    }
}

proof fn lemma_moved_has(
    a: Seq<(Seq<char>, ComponentView)>,
    b: Seq<(Seq<char>, ComponentView)>,
    k: int,
    cb: ComponentView,
)
    requires
        0 <= k < a.len(),
        lookup(b, a[k].0) == Some(cb),
        a[k].1.params == cb.params && a[k].1.symbol == cb.symbol,
        !same_place(a[k].1, cb),
    ensures
        moved_diffs(a, b).contains(modified_entry(a[k].0, a[k].1, cb, true)),
    decreases a.len(),
{
    let e = modified_entry(a[k].0, a[k].1, cb, true);
    let rest = moved_diffs(a.drop_last(), b);
    if k == a.len() - 1 {
        assert(moved_diffs(a, b)[rest.len() as int] == e);
    } else {
        assert(a.drop_last()[k] == a[k]);
        lemma_moved_has(a.drop_last(), b, k, cb);
        let j = choose|j: int| 0 <= j < rest.len() && rest[j] == e;
        assert(moved_diffs(a, b)[j] == e);
    }
}

/// Every change is seen: a component only the old version holds is
/// removed, one only the new version holds is added, each with its
/// snapshot; and, unless the change is a layout reorganisation, a component
/// that kept its symbol and attributes but moved gets a cosmetic
/// modification whose placement changed.
pub proof fn lemma_every_change_is_seen(a: SchematicView, b: SchematicView)
    requires
        keys_sorted(a.components),
        keys_sorted(b.components),
    ensures
        forall|n: Seq<char>|
            #![trigger lookup(a.components, n), lookup(b.components, n)]
            lookup(a.components, n) is Some && lookup(b.components, n) is None ==> exists|i: int|
                0 <= i < diff_view(a, b).components.len() && #[trigger] diff_view(a, b).components[i]
                    == (ComponentDiffView {
                    name: n,
                    kind: ChangeKind::Removed,
                    cosmetic: false,
                    position_changed: false,
                    before: Some(snapshot(lookup(a.components, n)->0, true)),
                    after: None,
                }),
        forall|n: Seq<char>|
            #![trigger lookup(a.components, n), lookup(b.components, n)]
            lookup(a.components, n) is None && lookup(b.components, n) is Some ==> exists|i: int|
                0 <= i < diff_view(a, b).components.len() && #[trigger] diff_view(a, b).components[i]
                    == (ComponentDiffView {
                    name: n,
                    kind: ChangeKind::Added,
                    cosmetic: false,
                    position_changed: false,
                    before: None,
                    after: Some(snapshot(lookup(b.components, n)->0, true)),
                }),
        forall|n: Seq<char>|
            #![trigger lookup(a.components, n), lookup(b.components, n)]
            lookup(a.components, n) is Some && lookup(b.components, n) is Some && lookup(a.components, n)->0.symbol
                == lookup(b.components, n)->0.symbol && lookup(a.components, n)->0.params == lookup(
                b.components,
                n,
            )->0.params && !same_place(lookup(a.components, n)->0, lookup(b.components, n)->0)
                && !diff_view(a, b).is_move_all ==> exists|i: int|
                0 <= i < diff_view(a, b).components.len() && (#[trigger] diff_view(a, b).components[i]).name == n
                    && diff_view(a, b).components[i].kind == ChangeKind::Modified && diff_view(
                    a,
                    b,
                ).components[i].cosmetic && diff_view(a, b).components[i].position_changed,
{
    let ac = a.components;
    let bc = b.components;
    let rm = removed_diffs(ac, bc);
    let ad = added_diffs(ac, bc);
    let ch = changed_diffs(ac, bc);
    let mv = moved_diffs(ac, bc);
    let r = diff_view(a, b);
    assert forall|n: Seq<char>|
        #![trigger lookup(a.components, n), lookup(b.components, n)]
        lookup(a.components, n) is Some && lookup(b.components, n) is None implies exists|i: int|
        0 <= i < r.components.len() && #[trigger] r.components[i] == (ComponentDiffView {
            name: n,
            kind: ChangeKind::Removed,
            cosmetic: false,
            position_changed: false,
            before: Some(snapshot(lookup(a.components, n)->0, true)),
            after: None,
        }) by {
        lemma_lookup_some(ac, n);
        lemma_lookup_some(bc, n);
        let k = choose|k: int| 0 <= k < ac.len() && ac[k].0 == n && lookup(ac, n) == Some(#[trigger] ac[k].1);
        lemma_removed_has(ac, bc, k);
        let j = choose|j: int| 0 <= j < rm.len() && rm[j] == removed_entry(n, ac[k].1);
        assert(r.components[j] == rm[j]);
    }
    assert forall|n: Seq<char>|
        #![trigger lookup(a.components, n), lookup(b.components, n)]
        lookup(a.components, n) is None && lookup(b.components, n) is Some implies exists|i: int|
        0 <= i < r.components.len() && #[trigger] r.components[i] == (ComponentDiffView {
            name: n,
            kind: ChangeKind::Added,
            cosmetic: false,
            position_changed: false,
            before: None,
            after: Some(snapshot(lookup(b.components, n)->0, true)),
        }) by {
        lemma_lookup_some(ac, n);
        lemma_lookup_some(bc, n);
        let k = choose|k: int| 0 <= k < bc.len() && bc[k].0 == n && lookup(bc, n) == Some(#[trigger] bc[k].1);
        lemma_added_has(ac, bc, k);
        let j = choose|j: int| 0 <= j < ad.len() && ad[j] == added_entry(n, bc[k].1);
        assert(r.components[rm.len() + j] == ad[j]);
    }
    assert forall|n: Seq<char>|
        #![trigger lookup(a.components, n), lookup(b.components, n)]
        lookup(a.components, n) is Some && lookup(b.components, n) is Some && lookup(a.components, n)->0.symbol
            == lookup(b.components, n)->0.symbol && lookup(a.components, n)->0.params == lookup(
            b.components,
            n,
        )->0.params && !same_place(lookup(a.components, n)->0, lookup(b.components, n)->0)
            && !r.is_move_all implies exists|i: int|
        0 <= i < r.components.len() && (#[trigger] r.components[i]).name == n && r.components[i].kind
            == ChangeKind::Modified && r.components[i].cosmetic && r.components[i].position_changed by {
        lemma_lookup_some(ac, n);
        let k = choose|k: int| 0 <= k < ac.len() && ac[k].0 == n && lookup(ac, n) == Some(#[trigger] ac[k].1);
        let cb = lookup(bc, n)->0;
        lemma_moved_has(ac, bc, k, cb);
        let e = modified_entry(n, ac[k].1, cb, true);
        let j = choose|j: int| 0 <= j < mv.len() && mv[j] == e;
        assert(r.components == rm + ad + ch + mv);
        assert(r.components[rm.len() + ad.len() + ch.len() + j] == mv[j]);
    }
}

proof fn lemma_counts_as_filters(a: Seq<(Seq<char>, ComponentView)>, b: Seq<(Seq<char>, ComponentView)>)
    ensures
        common_count(a, b) == a.filter(|e: (Seq<char>, ComponentView)| has_key(b, e.0)).len(),
        moved_diffs(a, b).len() == a.filter(
            |e: (Seq<char>, ComponentView)|
                lookup(b, e.0) is Some && e.1.symbol == lookup(b, e.0)->0.symbol && e.1.params == lookup(
                    b,
                    e.0,
                )->0.params && !same_place(e.1, lookup(b, e.0)->0),
        ).len(),
    decreases a.len(),
{
    reveal_with_fuel(Seq::filter, 2);
    if a.len() > 0 {
        lemma_counts_as_filters(a.drop_last(), b);
    }
}

/// A layout reorganisation is found exactly when some names are in both
/// versions and more than four fifths of them kept their symbol and
/// attributes but moved.
pub proof fn lemma_move_all_threshold(a: SchematicView, b: SchematicView)
    ensures
        diff_view(a, b).is_move_all == ({
            let common = a.components.filter(|e: (Seq<char>, ComponentView)| has_key(b.components, e.0)).len();
            let moved = a.components.filter(
                |e: (Seq<char>, ComponentView)|
                    lookup(b.components, e.0) is Some && e.1.symbol == lookup(b.components, e.0)->0.symbol
                        && e.1.params == lookup(b.components, e.0)->0.params && !same_place(
                        e.1,
                        lookup(b.components, e.0)->0,
                    ),
            ).len();
            common > 0 && 5 * moved > 4 * common
        }),
{
    lemma_counts_as_filters(a.components, b.components);
}

proof fn lemma_removed_kinds(a: Seq<(Seq<char>, ComponentView)>, b: Seq<(Seq<char>, ComponentView)>)
    ensures
        forall|i: int| 0 <= i < removed_diffs(a, b).len() ==> (#[trigger] removed_diffs(a, b)[i]).kind
            == ChangeKind::Removed,
    decreases a.len(),
{
    if a.len() > 0 {
        lemma_removed_kinds(a.drop_last(), b);
    }
}

proof fn lemma_added_kinds(a: Seq<(Seq<char>, ComponentView)>, b: Seq<(Seq<char>, ComponentView)>)
    ensures
        forall|i: int| 0 <= i < added_diffs(a, b).len() ==> (#[trigger] added_diffs(a, b)[i]).kind
            == ChangeKind::Added,
    decreases b.len(),
{
    if b.len() > 0 {
        lemma_added_kinds(a, b.drop_last());
    }
}

/// Every entry of `moved_diffs` is a cosmetic modification whose placement
/// changed.
proof fn lemma_moved_are_cosmetic(a: Seq<(Seq<char>, ComponentView)>, b: Seq<(Seq<char>, ComponentView)>)
    ensures
        forall|i: int|
            0 <= i < moved_diffs(a, b).len() ==> (#[trigger] moved_diffs(a, b)[i]).cosmetic
                && moved_diffs(a, b)[i].kind == ChangeKind::Modified
                && moved_diffs(a, b)[i].position_changed,
    decreases a.len(),
{
    if a.len() > 0 {
        lemma_moved_are_cosmetic(a.drop_last(), b);
    }
}

proof fn lemma_removed_not_cosmetic(a: Seq<(Seq<char>, ComponentView)>, b: Seq<(Seq<char>, ComponentView)>)
    ensures
        forall|i: int|
            0 <= i < removed_diffs(a, b).len() ==> !(#[trigger] removed_diffs(a, b)[i]).cosmetic,
    decreases a.len(),
{
    if a.len() > 0 {
        lemma_removed_not_cosmetic(a.drop_last(), b);
    }
}

proof fn lemma_added_not_cosmetic(a: Seq<(Seq<char>, ComponentView)>, b: Seq<(Seq<char>, ComponentView)>)
    ensures
        forall|i: int| 0 <= i < added_diffs(a, b).len() ==> !(#[trigger] added_diffs(a, b)[i]).cosmetic,
    decreases b.len(),
{
    if b.len() > 0 {
        lemma_added_not_cosmetic(a, b.drop_last());
    }
}

proof fn lemma_changed_not_cosmetic(a: Seq<(Seq<char>, ComponentView)>, b: Seq<(Seq<char>, ComponentView)>)
    ensures
        forall|i: int|
            0 <= i < changed_diffs(a, b).len() ==> !(#[trigger] changed_diffs(a, b)[i]).cosmetic,
    decreases a.len(),
{
    if a.len() > 0 {
        lemma_changed_not_cosmetic(a.drop_last(), b);
    }
}

/// A reorganisation (Move All) suppresses the coordinate-only entries: when
/// the flag is set, no entry of the report is cosmetic. Otherwise the
/// cosmetic entries are exactly the components that only moved, as
/// cosmetic modifications whose placement changed.
pub proof fn lemma_move_all_suppresses_moves(a: SchematicView, b: SchematicView)
    ensures
        diff_view(a, b).is_move_all ==> forall|i: int|
            0 <= i < diff_view(a, b).components.len() ==> !(
            #[trigger] diff_view(a, b).components[i]).cosmetic,
        !diff_view(a, b).is_move_all ==> forall|i: int|
            0 <= i < diff_view(a, b).components.len() && (
            #[trigger] diff_view(a, b).components[i]).cosmetic ==> diff_view(a, b).components[i].kind
                == ChangeKind::Modified && diff_view(a, b).components[i].position_changed,
{
    let r = diff_view(a, b);
    let rm = removed_diffs(a.components, b.components);
    let ad = added_diffs(a.components, b.components);
    let ch = changed_diffs(a.components, b.components);
    let mv = moved_diffs(a.components, b.components);
    lemma_removed_not_cosmetic(a.components, b.components);
    lemma_added_not_cosmetic(a.components, b.components);
    lemma_changed_not_cosmetic(a.components, b.components);
    lemma_moved_are_cosmetic(a.components, b.components);
    let head = rm + ad + ch;
    assert forall|i: int| 0 <= i < head.len() implies !(#[trigger] head[i]).cosmetic by {
        if i < rm.len() {
            assert(head[i] == rm[i]);
        } else if i < rm.len() + ad.len() {
            assert(head[i] == ad[i - rm.len()]);
        } else {
            assert(head[i] == ch[i - rm.len() - ad.len()]);
        }
    }
    if r.is_move_all {
        assert(r.components =~= head);
    } else {
        assert(r.components =~= head + mv);
        assert forall|i: int|
            0 <= i < r.components.len() && (#[trigger] r.components[i]).cosmetic implies r.components[i].kind
                == ChangeKind::Modified && r.components[i].position_changed by {
            if i < head.len() {
                assert(r.components[i] == head[i]);
            } else {
                assert(r.components[i] == mv[i - head.len()]);
            }
        }
    }
}

} // verus!
