//! The driver report: a flat list of changes, each naming an element.
//!
//! Elements are component names, `net:<name>` for nets, and `layout` for the
//! whole-drawing reorganisation entry.

use vstd::prelude::*;
use crate::models::{ChangeKind, ComponentDiff, ComponentDiffView, DiffReport, DiffReportView, FileFormat, opt_map_view};
use crate::text::{chars_of, occurs_at, str_eq, string_from_chars, slice_to_vec};
use crate::textmap::TextMap;

verus! {

/// One change reported by a driver.
#[derive(Debug)]
pub struct DiffEntry {
    pub kind: ChangeKind,
    /// The element: a component name, `net:<name>` or `layout`.
    pub element: String,
    pub before: Option<TextMap<String>>,
    pub after: Option<TextMap<String>>,
    pub cosmetic: bool,
    pub position_changed: bool,
}

/// Abstract value of a `DiffEntry`.
pub struct DiffEntryView {
    pub kind: ChangeKind,
    pub element: Seq<char>,
    pub before: Option<Seq<(Seq<char>, Seq<char>)>>,
    pub after: Option<Seq<(Seq<char>, Seq<char>)>>,
    pub cosmetic: bool,
    pub position_changed: bool,
}

impl View for DiffEntry {
    type V = DiffEntryView;

    open spec fn view(&self) -> DiffEntryView {
        DiffEntryView {
            kind: self.kind,
            element: self.element@,
            before: opt_map_view(self.before),
            after: opt_map_view(self.after),
            cosmetic: self.cosmetic,
            position_changed: self.position_changed,
        }
    }
}

/// What a driver reports for one file.
#[derive(Debug)]
pub struct DriverDiffReport {
    pub file_type: FileFormat,
    pub changes: Vec<DiffEntry>,
    pub warnings: Vec<String>,
}

/// Abstract value of a `DriverDiffReport`.
pub struct DriverDiffReportView {
    pub file_type: FileFormat,
    pub changes: Seq<DiffEntryView>,
    pub warnings: Seq<Seq<char>>,
}

impl View for DriverDiffReport {
    type V = DriverDiffReportView;

    open spec fn view(&self) -> DriverDiffReportView {
        DriverDiffReportView {
            file_type: self.file_type,
            changes: self.changes@.map_values(|e: DiffEntry| e@),
            warnings: self.warnings@.map_values(|w: String| w@),
        }
    }
}

impl DriverDiffReport {
    /// A report on a file of the given format, with no change and no warning.
    pub fn new(file_type: FileFormat) -> (r: DriverDiffReport)
        ensures
            r@.file_type == file_type,
            r@.changes.len() == 0,
            r@.warnings.len() == 0,
    {
        DriverDiffReport { file_type, changes: Vec::new(), warnings: Vec::new() }
    }
}

// ───────────────────────── element names ─────────────────────────

/// The whole-drawing entry.
pub open spec fn is_layout(e: Seq<char>) -> bool {
    e == "layout"@
}

/// A net entry: `net:` then the net name.
pub open spec fn is_net(e: Seq<char>) -> bool {
    occurs_at(e, "net:"@, 0)
}

/// The name of a net entry; other elements unchanged.
pub open spec fn net_name_of(e: Seq<char>) -> Seq<char> {
    if is_net(e) {
        e.skip(4)
    } else {
        e
    }
}

/// Whether the element is the whole-drawing entry.
pub fn is_layout_element(element: &str) -> (b: bool)
    ensures
        b == is_layout(element@),
{
    str_eq(element, "layout")
}

/// Whether the element is a net entry.
pub fn is_net_element(element: &str) -> (b: bool)
    ensures
        b == is_net(element@),
{
    crate::text::str_starts_with(element, "net:")
}

/// The net name of a net entry (the element itself otherwise).
pub fn net_name(element: &str) -> (n: String)
    ensures
        n@ == net_name_of(element@),
{
    let cs = chars_of(element);
    if is_net_element(element) {
        proof {
            reveal_strlit("net:");
            assert("net:"@.len() == 4);
        }
        let rest = slice_to_vec(cs.as_slice(), 4, cs.len());
        assert(rest@ =~= element@.skip(4));
        string_from_chars(rest.as_slice())
    } else {
        string_from_chars(cs.as_slice())
    }
}

// ───────────────────────── report conversions ─────────────────────────

/// The entry a component change becomes.
pub open spec fn component_entry(c: ComponentDiffView) -> DiffEntryView {
    DiffEntryView {
        kind: c.kind,
        element: c.name,
        before: c.before,
        after: c.after,
        cosmetic: c.cosmetic,
        position_changed: c.position_changed,
    }
}

/// The entry a net change becomes.
pub open spec fn net_entry(kind: ChangeKind, net: Seq<char>) -> DiffEntryView {
    DiffEntryView {
        kind,
        element: "net:"@ + net,
        before: None,
        after: None,
        cosmetic: false,
        position_changed: false,
    }
}

/// The note on the whole-drawing entry.
pub open spec fn move_all_note() -> Seq<(Seq<char>, Seq<char>)> {
    seq![("note"@, "reorganizacion cosmetica (Move All)"@)]
}

/// The whole-drawing entry of a layout reorganisation.
pub open spec fn layout_entry() -> DiffEntryView {
    DiffEntryView {
        kind: ChangeKind::Modified,
        element: "layout"@,
        before: None,
        after: Some(move_all_note()),
        cosmetic: true,
        position_changed: false,
    }
}

/// The entries of a semantic report: components, added nets, removed nets,
/// then the layout entry when it applies.
pub open spec fn entries_of(r: DiffReportView) -> Seq<DiffEntryView> {
    r.components.map_values(|c: ComponentDiffView| component_entry(c)) + r.nets_added.map_values(
        |n: Seq<char>| net_entry(ChangeKind::Added, n),
    ) + r.nets_removed.map_values(|n: Seq<char>| net_entry(ChangeKind::Removed, n)) + if r.is_move_all {
        seq![layout_entry()]
    } else {
        Seq::empty()
    }
}

/// The semantic report read back from driver entries, in one pass: the
/// layout entry sets the reorganisation flag when cosmetic, net entries fill
/// the net lists (a modified net is dropped), everything else is a component.
pub open spec fn report_of_entries(changes: Seq<DiffEntryView>) -> DiffReportView
    decreases changes.len(),
{
    if changes.len() == 0 {
        DiffReportView {
            components: Seq::empty(),
            nets_added: Seq::empty(),
            nets_removed: Seq::empty(),
            is_move_all: false,
        }
    } else {
        let r = report_of_entries(changes.drop_last());
        let c = changes.last();
        if is_layout(c.element) {
            DiffReportView { is_move_all: r.is_move_all || c.cosmetic, ..r }
        } else if is_net(c.element) {
            match c.kind {
                ChangeKind::Added => DiffReportView {
                    nets_added: r.nets_added.push(net_name_of(c.element)),
                    ..r
                },
                ChangeKind::Removed => DiffReportView {
                    nets_removed: r.nets_removed.push(net_name_of(c.element)),
                    ..r
                },
                ChangeKind::Modified => r,
            }
        } else {
            DiffReportView {
                components: r.components.push(
                    ComponentDiffView {
                        name: c.element,
                        kind: c.kind,
                        cosmetic: c.cosmetic,
                        position_changed: c.position_changed,
                        before: c.before,
                        after: c.after,
                    },
                ),
                ..r
            }
        }
    }
}

fn clone_opt_map(m: &Option<TextMap<String>>) -> (r: Option<TextMap<String>>)
    ensures
        opt_map_view(r) == opt_map_view(*m),
{
    match m {
        Some(t) => Some(t.clone_map()),
        None => None,
    }
}

/// Converts driver entries to the semantic report, in one pass: the
/// components are the entries that are neither nets nor the layout, in
/// order; the nets added and removed are the names of the net entries of
/// that kind, in order (a modified net is dropped); the reorganisation flag
/// is set exactly when some layout entry is cosmetic.
pub fn driver_report_to_diff_report(changes: &[DiffEntry]) -> (report: DiffReport)
    ensures
        report@ == report_of_entries(changes@.map_values(|e: DiffEntry| e@)),
        report@.components == changes@.map_values(|e: DiffEntry| e@).filter(
            |c: DiffEntryView| !is_layout(c.element) && !is_net(c.element),
        ).map_values(|c: DiffEntryView| entry_component(c)),
        report@.nets_added == changes@.map_values(|e: DiffEntry| e@).filter(
            |c: DiffEntryView| is_net(c.element) && c.kind == ChangeKind::Added,
        ).map_values(|c: DiffEntryView| net_name_of(c.element)),
        report@.nets_removed == changes@.map_values(|e: DiffEntry| e@).filter(
            |c: DiffEntryView| is_net(c.element) && c.kind == ChangeKind::Removed,
        ).map_values(|c: DiffEntryView| net_name_of(c.element)),
        report@.is_move_all == exists|i: int|
            0 <= i < changes@.len() && is_layout((#[trigger] changes@[i])@.element) && changes@[i]@.cosmetic,
{
    proof {
        lemma_report_of_entries_lists(changes@.map_values(|e: DiffEntry| e@));
        let cv = changes@.map_values(|e: DiffEntry| e@);
        if exists|i: int| 0 <= i < cv.len() && is_layout((#[trigger] cv[i]).element) && cv[i].cosmetic {
            let i = choose|i: int| 0 <= i < cv.len() && is_layout((#[trigger] cv[i]).element) && cv[i].cosmetic;
            assert(cv[i] == changes@[i]@);
        }
        if exists|i: int| 0 <= i < changes@.len() && is_layout((#[trigger] changes@[i])@.element) && changes@[i]@.cosmetic {
            let i = choose|i: int| 0 <= i < changes@.len() && is_layout((#[trigger] changes@[i])@.element) && changes@[i]@.cosmetic;
            assert(cv[i] == changes@[i]@);
        }
    }
    let ghost cv = changes@.map_values(|e: DiffEntry| e@);
    let mut components: Vec<ComponentDiff> = Vec::new();
    let mut nets_added: Vec<String> = Vec::new();
    let mut nets_removed: Vec<String> = Vec::new();
    let mut is_move_all = false;
    let mut i: usize = 0;
    assert(cv.take(0) =~= Seq::<DiffEntryView>::empty());
    assert(components@.map_values(|d: ComponentDiff| d@) =~= Seq::<ComponentDiffView>::empty());
    assert(nets_added@.map_values(|s: String| s@) =~= Seq::<Seq<char>>::empty());
    assert(nets_removed@.map_values(|s: String| s@) =~= Seq::<Seq<char>>::empty());
    while i < changes.len()
        invariant
            i <= changes@.len(),
            cv == changes@.map_values(|e: DiffEntry| e@),
            components@.map_values(|d: ComponentDiff| d@) == report_of_entries(
                cv.take(i as int),
            ).components,
            nets_added@.map_values(|s: String| s@) == report_of_entries(cv.take(i as int)).nets_added,
            nets_removed@.map_values(|s: String| s@) == report_of_entries(
                cv.take(i as int),
            ).nets_removed,
            is_move_all == report_of_entries(cv.take(i as int)).is_move_all,
        decreases changes@.len() - i,
    {
        let c = &changes[i];
        assert(cv.take(i + 1).drop_last() =~= cv.take(i as int));
        assert(cv.take(i + 1).last() == c@);
        if is_layout_element(c.element.as_str()) {
            if c.cosmetic {
                is_move_all = true;
            }
        } else if is_net_element(c.element.as_str()) {
            match c.kind {
                ChangeKind::Added => {
                    let ghost before = nets_added@.map_values(|s: String| s@);
                    nets_added.push(net_name(c.element.as_str()));
                    assert(nets_added@.map_values(|s: String| s@) =~= before.push(
                        net_name_of(c.element@),
                    ));
                },
                ChangeKind::Removed => {
                    let ghost before = nets_removed@.map_values(|s: String| s@);
                    nets_removed.push(net_name(c.element.as_str()));
                    assert(nets_removed@.map_values(|s: String| s@) =~= before.push(
                        net_name_of(c.element@),
                    ));
                },
                ChangeKind::Modified => {},
            }
        } else {
            let ghost before = components@.map_values(|d: ComponentDiff| d@);
            components.push(
                ComponentDiff {
                    name: c.element.clone(),
                    kind: c.kind,
                    cosmetic: c.cosmetic,
                    position_changed: c.position_changed,
                    before: clone_opt_map(&c.before),
                    after: clone_opt_map(&c.after),
                },
            );
            assert(components@.map_values(|d: ComponentDiff| d@) =~= before.push(
                ComponentDiffView {
                    name: c.element@,
                    kind: c.kind,
                    cosmetic: c.cosmetic,
                    position_changed: c.position_changed,
                    before: opt_map_view(c.before),
                    after: opt_map_view(c.after),
                },
            ));
        }
        i = i + 1;
    }
    assert(cv.take(changes@.len() as int) =~= cv);
    let report = DiffReport { components, nets_added, nets_removed, is_move_all };
    assert(report@ =~= report_of_entries(cv));
    report
}


// ───────────────────────── laws ─────────────────────────

/// No component is named like the layout entry or like a net entry.
pub open spec fn plain_component_names(r: DiffReportView) -> bool {
    forall|i: int|
        0 <= i < r.components.len() ==> !is_layout(#[trigger] r.components[i].name) && !is_net(
            r.components[i].name,
        )
}

proof fn lemma_net_entry_element(n: Seq<char>)
    ensures
        !is_layout("net:"@ + n),
        is_net("net:"@ + n),
        net_name_of("net:"@ + n) == n,
{
    reveal_strlit("net:");
    reveal_strlit("layout");
    let e = "net:"@ + n;
    assert(e[0] == 'n');
    if is_layout(e) {
        assert("layout"@[0] == 'l');
    }
    assert(e.subrange(0, 4) =~= "net:"@);
    assert(e.skip(4) =~= n);
}

proof fn lemma_components_back(cs: Seq<ComponentDiffView>)
    requires
        forall|i: int|
            0 <= i < cs.len() ==> !is_layout(#[trigger] cs[i].name) && !is_net(cs[i].name),
    ensures
        report_of_entries(cs.map_values(|c: ComponentDiffView| component_entry(c))) == (
        DiffReportView {
            components: cs,
            nets_added: Seq::empty(),
            nets_removed: Seq::empty(),
            is_move_all: false,
        }),
    decreases cs.len(),
{
    let es = cs.map_values(|c: ComponentDiffView| component_entry(c));
    if cs.len() > 0 {
        lemma_components_back(cs.drop_last());
        assert(es.drop_last() =~= cs.drop_last().map_values(
            |c: ComponentDiffView| component_entry(c),
        ));
        assert(es.last() == component_entry(cs.last()));
        assert(!is_layout(cs[cs.len() - 1].name));
        assert(cs.drop_last().push(cs.last()) =~= cs);
    } else {
        assert(es =~= Seq::<DiffEntryView>::empty());
        assert(cs =~= Seq::<ComponentDiffView>::empty());
    }
}

proof fn lemma_nets_back(e: Seq<DiffEntryView>, ns: Seq<Seq<char>>, kind: ChangeKind)
    requires
        kind != ChangeKind::Modified,
    ensures
        report_of_entries(e + ns.map_values(|n: Seq<char>| net_entry(kind, n))) == (if kind
            == ChangeKind::Added {
            DiffReportView {
                nets_added: report_of_entries(e).nets_added + ns,
                ..report_of_entries(e)
            }
        } else {
            DiffReportView {
                nets_removed: report_of_entries(e).nets_removed + ns,
                ..report_of_entries(e)
            }
        }),
    decreases ns.len(),
{
    let all = e + ns.map_values(|n: Seq<char>| net_entry(kind, n));
    if ns.len() > 0 {
        lemma_nets_back(e, ns.drop_last(), kind);
        assert(all.drop_last() =~= e + ns.drop_last().map_values(|n: Seq<char>| net_entry(kind, n)));
        assert(all.last() == net_entry(kind, ns.last()));
        lemma_net_entry_element(ns.last());
        assert(ns.drop_last().push(ns.last()) =~= ns);
        if kind == ChangeKind::Added {
            assert(report_of_entries(e).nets_added + ns.drop_last() + seq![ns.last()] =~= report_of_entries(e).nets_added + ns);
        } else {
            assert(report_of_entries(e).nets_removed + ns.drop_last() + seq![ns.last()] =~= report_of_entries(e).nets_removed + ns);
        }
    } else {
        assert(all =~= e);
        assert(report_of_entries(e).nets_added + ns =~= report_of_entries(e).nets_added);
        assert(report_of_entries(e).nets_removed + ns =~= report_of_entries(e).nets_removed);
    }
}

/// The component change a driver entry that is neither a net nor the layout
/// reads back as.
pub open spec fn entry_component(c: DiffEntryView) -> ComponentDiffView {
    ComponentDiffView {
        name: c.element,
        kind: c.kind,
        cosmetic: c.cosmetic,
        position_changed: c.position_changed,
        before: c.before,
        after: c.after,
    }
}

proof fn lemma_layout_is_no_net(e: Seq<char>)
    ensures
        is_layout(e) ==> !is_net(e),
{
    reveal_strlit("layout");
    reveal_strlit("net:");
    if is_layout(e) && is_net(e) {
        assert(e[0] == 'l');
        assert(e.subrange(0, 4)[0] == 'n');
    }
}

/// Reading driver entries back, as lists: the components are the entries
/// that are neither nets nor the layout, in order, field by field; the nets
/// added and removed are the names of the net entries of that kind, in order
/// (a modified net is dropped); the reorganisation flag is set exactly when
/// some layout entry is cosmetic.
pub proof fn lemma_report_of_entries_lists(changes: Seq<DiffEntryView>)
    ensures
        report_of_entries(changes).components == changes.filter(
            |c: DiffEntryView| !is_layout(c.element) && !is_net(c.element),
        ).map_values(|c: DiffEntryView| entry_component(c)),
        report_of_entries(changes).nets_added == changes.filter(
            |c: DiffEntryView| is_net(c.element) && c.kind == ChangeKind::Added,
        ).map_values(|c: DiffEntryView| net_name_of(c.element)),
        report_of_entries(changes).nets_removed == changes.filter(
            |c: DiffEntryView| is_net(c.element) && c.kind == ChangeKind::Removed,
        ).map_values(|c: DiffEntryView| net_name_of(c.element)),
        report_of_entries(changes).is_move_all == exists|i: int|
            0 <= i < changes.len() && is_layout((#[trigger] changes[i]).element) && changes[i].cosmetic,
    decreases changes.len(),
{
    let pc = |c: DiffEntryView| !is_layout(c.element) && !is_net(c.element);
    let pa = |c: DiffEntryView| is_net(c.element) && c.kind == ChangeKind::Added;
    let pr = |c: DiffEntryView| is_net(c.element) && c.kind == ChangeKind::Removed;
    if changes.len() == 0 {
        assert(changes.filter(pc) =~= Seq::<DiffEntryView>::empty());
        assert(changes.filter(pa) =~= Seq::<DiffEntryView>::empty());
        assert(changes.filter(pr) =~= Seq::<DiffEntryView>::empty());
    } else {
        let d = changes.drop_last();
        let c = changes.last();
        lemma_report_of_entries_lists(d);
        lemma_layout_is_no_net(c.element);
        reveal_with_fuel(Seq::filter, 2);
        assert(changes.filter(pc) == if pc(c) {
            d.filter(pc).push(c)
        } else {
            d.filter(pc)
        });
        assert(changes.filter(pa) == if pa(c) {
            d.filter(pa).push(c)
        } else {
            d.filter(pa)
        });
        assert(changes.filter(pr) == if pr(c) {
            d.filter(pr).push(c)
        } else {
            d.filter(pr)
        });
        assert(d.filter(pc).push(c).map_values(|c: DiffEntryView| entry_component(c)) =~= d.filter(pc).map_values(
            |c: DiffEntryView| entry_component(c),
        ).push(entry_component(c)));
        assert(d.filter(pa).push(c).map_values(|c: DiffEntryView| net_name_of(c.element)) =~= d.filter(
            pa,
        ).map_values(|c: DiffEntryView| net_name_of(c.element)).push(net_name_of(c.element)));
        assert(d.filter(pr).push(c).map_values(|c: DiffEntryView| net_name_of(c.element)) =~= d.filter(
            pr,
        ).map_values(|c: DiffEntryView| net_name_of(c.element)).push(net_name_of(c.element)));
        let ex_d = exists|i: int| 0 <= i < d.len() && is_layout((#[trigger] d[i]).element) && d[i].cosmetic;
        let ex = exists|i: int|
            0 <= i < changes.len() && is_layout((#[trigger] changes[i]).element) && changes[i].cosmetic;
        if ex_d {
            let i = choose|i: int| 0 <= i < d.len() && is_layout((#[trigger] d[i]).element) && d[i].cosmetic;
            assert(changes[i] == d[i]);
        }
        if ex {
            let i = choose|i: int|
                0 <= i < changes.len() && is_layout((#[trigger] changes[i]).element) && changes[i].cosmetic;
            if i < d.len() {
                assert(changes[i] == d[i]);
            }
        }
        if is_layout(c.element) && c.cosmetic {
            assert(changes[changes.len() - 1] == c);
        }
    }
}

/// Reading back the entries of a semantic report gives the report again,
/// as long as no component is named `layout` or `net:...`.
pub proof fn lemma_entries_round_trip(r: DiffReportView)
    requires
        plain_component_names(r),
    ensures
        report_of_entries(entries_of(r)) == r,
{
    let cs = r.components.map_values(|c: ComponentDiffView| component_entry(c));
    let added = r.nets_added.map_values(|n: Seq<char>| net_entry(ChangeKind::Added, n));
    let removed = r.nets_removed.map_values(|n: Seq<char>| net_entry(ChangeKind::Removed, n));
    lemma_components_back(r.components);
    lemma_nets_back(cs, r.nets_added, ChangeKind::Added);
    lemma_nets_back(cs + added, r.nets_removed, ChangeKind::Removed);
    let body = cs + added + removed;
    assert(Seq::<Seq<char>>::empty() + r.nets_added =~= r.nets_added);
    assert(Seq::<Seq<char>>::empty() + r.nets_removed =~= r.nets_removed);
    if r.is_move_all {
        reveal_strlit("layout");
        assert(entries_of(r) =~= body.push(layout_entry()));
        assert(entries_of(r).drop_last() =~= body);
    } else {
        assert(entries_of(r) =~= body);
    }
}

} // verus!
