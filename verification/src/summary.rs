//! Per-file summaries of a driver report, for listing many files at once.
//!
//! A summary counts the non-cosmetic changes by canonical key (see
//! [`labels`]), optionally lists them one by one, and classifies the file:
//! semantic when some change is not cosmetic, cosmetic when all changes are,
//! unchanged when there is none.

use vstd::prelude::*;
use crate::driver::{is_layout, is_layout_element, is_net, is_net_element, net_name, net_name_of, DiffEntry, DiffEntryView, DriverDiffReport, DriverDiffReportView};
use crate::models::{opt_map_view, ChangeKind, FileFormat};
use crate::text::{concat_str, contains_seq, str_contains};
use crate::textmap::{lookup, seq_insert, TextMap};

pub mod labels;

verus! {

// ───────────────────────── types ─────────────────────────

/// How much a summary holds: counts only; counts and one entry per change;
/// all that and the full driver report.
#[derive(Clone, Copy, Debug, PartialEq, Eq, Structural)]
pub enum DetailLevel {
    Resumen,
    Detalle,
    Completo,
}

impl DetailLevel {
    /// The level the `--detail` and `--full` flags ask for; `full` wins.
    pub fn from_flags(detail: bool, full: bool) -> (l: DetailLevel)
        ensures
            l == (if full {
                DetailLevel::Completo
            } else if detail {
                DetailLevel::Detalle
            } else {
                DetailLevel::Resumen
            }),
    {
        if full {
            DetailLevel::Completo
        } else if detail {
            DetailLevel::Detalle
        } else {
            DetailLevel::Resumen
        }
    }
}

/// The class of a file in a list.
#[derive(Clone, Copy, Debug, PartialEq, Eq, Structural)]
pub enum SummaryCategory {
    /// At least one change is not cosmetic.
    Semantic,
    /// There are changes, all cosmetic.
    Cosmetic,
    /// The driver found no change.
    Unchanged,
    /// No driver for this format.
    Unknown,
    /// The driver failed or the content could not be read.
    Error,
}

impl SummaryCategory {
    pub open spec fn name(self) -> Seq<char> {
        match self {
            SummaryCategory::Semantic => "semantic"@,
            SummaryCategory::Cosmetic => "cosmetic"@,
            SummaryCategory::Unchanged => "unchanged"@,
            SummaryCategory::Unknown => "unknown"@,
            SummaryCategory::Error => "error"@,
        }
    }

    /// The category's name in snake case.
    pub fn as_str(&self) -> (s: &'static str)
        ensures
            s@ == self.name(),
    {
        match self {
            SummaryCategory::Semantic => "semantic",
            SummaryCategory::Cosmetic => "cosmetic",
            SummaryCategory::Unchanged => "unchanged",
            SummaryCategory::Unknown => "unknown",
            SummaryCategory::Error => "error",
        }
    }
}

/// The kind of one detail entry.
#[derive(Clone, Copy, Debug, PartialEq, Eq, Structural)]
pub enum DetailKind {
    ComponentAdded,
    ComponentRemoved,
    ComponentModified,
    ComponentRenamed,
    NetAdded,
    NetRemoved,
    NetModified,
    /// A change that fits none of the other kinds.
    Other,
}

impl DetailKind {
    pub open spec fn marker_text(self) -> Seq<char> {
        match self {
            DetailKind::ComponentAdded | DetailKind::NetAdded => "+"@,
            DetailKind::ComponentRemoved | DetailKind::NetRemoved => "-"@,
            DetailKind::ComponentRenamed => "r"@,
            _ => "~"@,
        }
    }

    /// One-letter marker used by the text formatters.
    pub fn marker(&self) -> (s: &'static str)
        ensures
            s@ == self.marker_text(),
    {
        match self {
            DetailKind::ComponentAdded | DetailKind::NetAdded => "+",
            DetailKind::ComponentRemoved | DetailKind::NetRemoved => "-",
            DetailKind::ComponentRenamed => "r",
            DetailKind::ComponentModified | DetailKind::NetModified | DetailKind::Other => "~",
        }
    }
}

/// One change, readable: what changed and, for modifications, how.
#[derive(Debug)]
pub struct DetailEntry {
    pub kind: DetailKind,
    /// The element's name ("M3", "vbias", "vin → vin_diff", ...).
    pub element: String,
    /// Changed attributes, e.g. `W` ↦ `4u → 8u`.
    pub params: TextMap<String>,
}

pub struct DetailEntryView {
    pub kind: DetailKind,
    pub element: Seq<char>,
    pub params: Seq<(Seq<char>, Seq<char>)>,
}

impl View for DetailEntry {
    type V = DetailEntryView;

    open spec fn view(&self) -> DetailEntryView {
        DetailEntryView { kind: self.kind, element: self.element@, params: self.params@ }
    }
}

/// A file's summary, ready for one line of a list.
#[derive(Debug)]
pub struct FileSummary {
    pub path: String,
    pub format: FileFormat,
    pub category: SummaryCategory,
    /// Changes counted by key; canonical keys are in [`labels`].
    pub counts: TextMap<i64>,
    /// One entry per counted change (levels `Detalle` and `Completo`).
    pub details: Vec<DetailEntry>,
    /// The whole driver report (level `Completo`).
    pub full_report: Option<DriverDiffReport>,
    /// Error messages, when the category is `Error`.
    pub errors: Vec<String>,
}

pub struct FileSummaryView {
    pub path: Seq<char>,
    pub format: FileFormat,
    pub category: SummaryCategory,
    pub counts: Seq<(Seq<char>, i64)>,
    pub details: Seq<DetailEntryView>,
    pub full_report: Option<DriverDiffReportView>,
    pub errors: Seq<Seq<char>>,
}

pub open spec fn opt_report_view(r: Option<DriverDiffReport>) -> Option<DriverDiffReportView> {
    match r {
        Some(x) => Some(x@),
        None => None,
    }
}

impl View for FileSummary {
    type V = FileSummaryView;

    open spec fn view(&self) -> FileSummaryView {
        FileSummaryView {
            path: self.path@,
            format: self.format,
            category: self.category,
            counts: self.counts@,
            details: self.details@.map_values(|d: DetailEntry| d@),
            full_report: opt_report_view(self.full_report),
            errors: self.errors@.map_values(|e: String| e@),
        }
    }
}

/// The summary of a file that no driver handles.
pub open spec fn unknown_view(path: Seq<char>) -> FileSummaryView {
    FileSummaryView {
        path,
        format: FileFormat::Unknown,
        category: SummaryCategory::Unknown,
        counts: Seq::empty(),
        details: Seq::empty(),
        full_report: None,
        errors: Seq::empty(),
    }
}

/// The summary of a file whose analysis failed with `message`.
pub open spec fn error_view(path: Seq<char>, message: Seq<char>) -> FileSummaryView {
    FileSummaryView {
        path,
        format: FileFormat::Unknown,
        category: SummaryCategory::Error,
        counts: Seq::empty(),
        details: Seq::empty(),
        full_report: None,
        errors: seq![message],
    }
}

impl FileSummary {
    /// The summary of a file that no driver handles.
    pub fn unknown(path: &str) -> (s: FileSummary)
        ensures
            s@.path == path@,
            s@.format == FileFormat::Unknown,
            s@.category == SummaryCategory::Unknown,
            s@.counts.len() == 0,
            s@.details.len() == 0,
            s@.full_report is None,
            s@.errors.len() == 0,
            s@ == unknown_view(path@),
            counts_positive(s@.counts),
            s.counts.wf(),
    {
        let s = FileSummary {
            path: path.to_string(),
            format: FileFormat::Unknown,
            category: SummaryCategory::Unknown,
            counts: TextMap::new(),
            details: Vec::new(),
            full_report: None,
            errors: Vec::new(),
        };
        assert(s@.details =~= Seq::<DetailEntryView>::empty());
        assert(s@.errors =~= Seq::<Seq<char>>::empty());
        assert(s@.counts =~= Seq::<(Seq<char>, i64)>::empty());
        s
    }

    /// The summary of a file whose analysis failed with `message`.
    pub fn error(path: &str, message: String) -> (s: FileSummary)
        ensures
            s@.path == path@,
            s@.format == FileFormat::Unknown,
            s@.category == SummaryCategory::Error,
            s@.counts.len() == 0,
            s@.details.len() == 0,
            s@.full_report is None,
            s@.errors == seq![message@],
            s@ == error_view(path@, message@),
            counts_positive(s@.counts),
            s.counts.wf(),
    {
        let mut errors: Vec<String> = Vec::new();
        let ghost m = message@;
        errors.push(message);
        let s = FileSummary {
            path: path.to_string(),
            format: FileFormat::Unknown,
            category: SummaryCategory::Error,
            counts: TextMap::new(),
            details: Vec::new(),
            full_report: None,
            errors,
        };
        assert(s@.errors =~= seq![m]);
        assert(s@.details =~= Seq::<DetailEntryView>::empty());
        assert(s@.counts =~= Seq::<(Seq<char>, i64)>::empty());
        s
    }
}

// ───────────────────────── specification ─────────────────────────

/// Priority: semantic over cosmetic over unchanged.
pub open spec fn category_for(semantic: int, cosmetic: int) -> SummaryCategory {
    if semantic > 0 {
        SummaryCategory::Semantic
    } else if cosmetic > 0 {
        SummaryCategory::Cosmetic
    } else {
        SummaryCategory::Unchanged
    }
}

/// The category a file gets from its counts of semantic and cosmetic changes.
pub fn decide_category(semantic: i64, cosmetic: i64) -> (c: SummaryCategory)
    ensures
        c == category_for(semantic as int, cosmetic as int),
{
    if semantic > 0 {
        SummaryCategory::Semantic
    } else if cosmetic > 0 {
        SummaryCategory::Cosmetic
    } else {
        SummaryCategory::Unchanged
    }
}

/// A component modification whose name holds ` → ` is a rename.
pub open spec fn is_rename(element: Seq<char>) -> bool {
    contains_seq(element, " → "@)
}

/// The count key of a non-cosmetic change.
pub open spec fn count_key(net: bool, kind: ChangeKind, element: Seq<char>) -> Seq<char> {
    match (net, kind) {
        (true, ChangeKind::Added) => labels::NETS_ADDED@,
        (true, ChangeKind::Removed) => labels::NETS_REMOVED@,
        (true, ChangeKind::Modified) => labels::NETS_MODIFIED@,
        (false, ChangeKind::Added) => labels::COMPONENTS_ADDED@,
        (false, ChangeKind::Removed) => labels::COMPONENTS_REMOVED@,
        (false, ChangeKind::Modified) => if is_rename(element) {
            labels::COMPONENTS_RENAMED@
        } else {
            labels::COMPONENTS_MODIFIED@
        },
    }
}

/// The detail kind of a non-cosmetic change.
pub open spec fn detail_kind_of(net: bool, kind: ChangeKind, element: Seq<char>) -> DetailKind {
    match (net, kind) {
        (true, ChangeKind::Added) => DetailKind::NetAdded,
        (true, ChangeKind::Removed) => DetailKind::NetRemoved,
        (true, ChangeKind::Modified) => DetailKind::NetModified,
        (false, ChangeKind::Added) => DetailKind::ComponentAdded,
        (false, ChangeKind::Removed) => DetailKind::ComponentRemoved,
        (false, ChangeKind::Modified) => if is_rename(element) {
            DetailKind::ComponentRenamed
        } else {
            DetailKind::ComponentModified
        },
    }
}

/// A change that is counted: not cosmetic and not the layout entry.
pub open spec fn is_counted(c: DiffEntryView) -> bool {
    !c.cosmetic && !is_layout(c.element)
}

/// Number of cosmetic changes.
pub open spec fn cosmetic_count(changes: Seq<DiffEntryView>) -> nat
    decreases changes.len(),
{
    if changes.len() == 0 {
        0
    } else {
        cosmetic_count(changes.drop_last()) + if changes.last().cosmetic {
            1nat
        } else {
            0nat
        }
    }
}

/// Number of changes that are not cosmetic.
pub open spec fn semantic_count(changes: Seq<DiffEntryView>) -> nat
    decreases changes.len(),
{
    if changes.len() == 0 {
        0
    } else {
        semantic_count(changes.drop_last()) + if changes.last().cosmetic {
            0nat
        } else {
            1nat
        }
    }
}

/// How many counted changes map to `key`.
pub open spec fn count_of(changes: Seq<DiffEntryView>, key: Seq<char>) -> nat
    decreases changes.len(),
{
    if changes.len() == 0 {
        0
    } else {
        let c = changes.last();
        count_of(changes.drop_last(), key) + if is_counted(c) && count_key(
            is_net(c.element),
            c.kind,
            c.element,
        ) == key {
            1nat
        } else {
            0nat
        }
    }
}

/// The counts map: each key a counted change maps to, with its count.
pub open spec fn counts_of(changes: Seq<DiffEntryView>) -> Seq<(Seq<char>, i64)>
    decreases changes.len(),
{
    if changes.len() == 0 {
        Seq::empty()
    } else {
        let m = counts_of(changes.drop_last());
        let c = changes.last();
        if is_counted(c) {
            let k = count_key(is_net(c.element), c.kind, c.element);
            seq_insert(m, k, count_of(changes, k) as i64)
        } else {
            m
        }
    }
}

/// The placement keys, which a detail leaves out.
pub open spec fn is_placement_key(k: Seq<char>) -> bool {
    k == "x"@ || k == "y"@ || k == "rotation"@ || k == "mirror"@
}

/// How an attribute changed, as a detail shows it.
pub open spec fn param_change(k: Seq<char>, b: Option<Seq<char>>, a: Option<Seq<char>>) -> Option<Seq<char>> {
    if is_placement_key(k) {
        None
    } else {
        match (b, a) {
            (Some(bv), Some(av)) => if bv != av {
                Some(bv + " → "@ + av)
            } else {
                None
            },
            (None, Some(av)) => Some("(nuevo) → "@ + av),
            (Some(bv), None) => Some(bv + " → (eliminado)"@),
            (None, None) => None,
        }
    }
}

/// Records the change of each key of `keys`, in order.
pub open spec fn record_changes(
    out: Seq<(Seq<char>, Seq<char>)>,
    keys: Seq<Seq<char>>,
    before: Seq<(Seq<char>, Seq<char>)>,
    after: Seq<(Seq<char>, Seq<char>)>,
) -> Seq<(Seq<char>, Seq<char>)>
    decreases keys.len(),
{
    if keys.len() == 0 {
        out
    } else {
        let m = record_changes(out, keys.drop_last(), before, after);
        let k = keys.last();
        match param_change(k, lookup(before, k), lookup(after, k)) {
            Some(v) => seq_insert(m, k, v),
            None => m,
        }
    }
}

/// The changed attributes of an entry with both snapshots (none otherwise):
/// keys of the old snapshot, then of the new one.
pub open spec fn param_changes(c: DiffEntryView) -> Seq<(Seq<char>, Seq<char>)> {
    match (c.before, c.after) {
        (Some(b), Some(a)) => record_changes(
            record_changes(Seq::empty(), crate::textmap::keys_of(b), b, a),
            crate::textmap::keys_of(a),
            b,
            a,
        ),
        _ => Seq::empty(),
    }
}

/// One detail entry per counted change, in order.
pub open spec fn details_of(changes: Seq<DiffEntryView>) -> Seq<DetailEntryView>
    decreases changes.len(),
{
    if changes.len() == 0 {
        Seq::empty()
    } else {
        let d = details_of(changes.drop_last());
        let c = changes.last();
        if is_counted(c) {
            d.push(
                DetailEntryView {
                    kind: detail_kind_of(is_net(c.element), c.kind, c.element),
                    element: net_name_of(c.element),
                    params: param_changes(c),
                },
            )
        } else {
            d
        }
    }
}

/// The summary of a driver report at a detail level.
pub open spec fn summary_of(
    report: DriverDiffReportView,
    path: Seq<char>,
    level: DetailLevel,
) -> FileSummaryView {
    FileSummaryView {
        path,
        format: report.file_type,
        category: category_for(
            semantic_count(report.changes) as int,
            cosmetic_count(report.changes) as int,
        ),
        counts: counts_of(report.changes),
        details: if level == DetailLevel::Resumen {
            Seq::empty()
        } else {
            details_of(report.changes)
        },
        full_report: if level == DetailLevel::Completo {
            Some(report)
        } else {
            None
        },
        errors: Seq::empty(),
    }
}


// ───────────────────────── lemmas ─────────────────────────

pub proof fn lemma_count_of_bound(changes: Seq<DiffEntryView>, k: Seq<char>)
    ensures
        count_of(changes, k) <= changes.len(),
    decreases changes.len(),
{
    if changes.len() > 0 {
        lemma_count_of_bound(changes.drop_last(), k);
    }
}

/// Every count is at least one.
pub open spec fn counts_positive(counts: Seq<(Seq<char>, i64)>) -> bool {
    forall|i: int| 0 <= i < counts.len() ==> #[trigger] counts[i].1 >= 1
}

/// Every count of a summary is at least one: a key appears only for changes
/// that map to it.
pub proof fn lemma_counts_positive(changes: Seq<DiffEntryView>)
    requires
        changes.len() <= i64::MAX,
    ensures
        forall|i: int| 0 <= i < counts_of(changes).len() ==> #[trigger] counts_of(changes)[i].1 >= 1,
{
    lemma_counts_of(changes);
    let m = counts_of(changes);
    assert forall|i: int| 0 <= i < m.len() implies #[trigger] m[i].1 >= 1 by {
        crate::textmap::lemma_lookup_index(m, i);
        assert(lookup(m, m[i].0) == (if count_of(changes, m[i].0) > 0 {
            Some(count_of(changes, m[i].0) as i64)
        } else {
            None
        }));
        lemma_count_of_bound(changes, m[i].0);
    }
}

pub proof fn lemma_counts_of(changes: Seq<DiffEntryView>)
    requires
        changes.len() <= i64::MAX,
    ensures
        crate::textmap::keys_sorted(counts_of(changes)),
        forall|k: Seq<char>|
            #[trigger] lookup(counts_of(changes), k) == (if count_of(changes, k) > 0 {
                Some(count_of(changes, k) as i64)
            } else {
                None
            }),
    decreases changes.len(),
{
    if changes.len() > 0 {
        let prev = changes.drop_last();
        lemma_counts_of(prev);
        let m = counts_of(prev);
        let c = changes.last();
        if is_counted(c) {
            let kc = count_key(is_net(c.element), c.kind, c.element);
            lemma_count_of_bound(changes, kc);
            crate::textmap::lemma_seq_insert_sorted(m, kc, count_of(changes, kc) as i64);
            assert forall|k: Seq<char>|
                #[trigger] lookup(counts_of(changes), k) == (if count_of(changes, k) > 0 {
                    Some(count_of(changes, k) as i64)
                } else {
                    None
                }) by {
                crate::textmap::lemma_seq_insert_lookup(m, kc, count_of(changes, kc) as i64, k);
            }
        } else {
            assert forall|k: Seq<char>|
                #[trigger] lookup(counts_of(changes), k) == (if count_of(changes, k) > 0 {
                    Some(count_of(changes, k) as i64)
                } else {
                    None
                }) by {
                assert(count_of(changes, k) == count_of(prev, k));
            }
        }
    }
}

// ───────────────────────── laws ─────────────────────────

/// The sum of the counts of a counts map.
pub open spec fn counts_total(m: Seq<(Seq<char>, i64)>) -> int
    decreases m.len(),
{
    if m.len() == 0 {
        0
    } else {
        counts_total(m.drop_last()) + m.last().1
    }
}

proof fn lemma_total_update(m: Seq<(Seq<char>, i64)>, p: int, x: (Seq<char>, i64))
    requires
        0 <= p < m.len(),
    ensures
        counts_total(m.update(p, x)) == counts_total(m) - m[p].1 + x.1,
    decreases m.len(),
{
    let u = m.update(p, x);
    if p == m.len() - 1 {
        assert(u.drop_last() =~= m.drop_last());
    } else {
        assert(u.drop_last() =~= m.drop_last().update(p, x));
        lemma_total_update(m.drop_last(), p, x);
    }
}

proof fn lemma_total_insert(m: Seq<(Seq<char>, i64)>, p: int, x: (Seq<char>, i64))
    requires
        0 <= p <= m.len(),
    ensures
        counts_total(m.insert(p, x)) == counts_total(m) + x.1,
    decreases m.len(),
{
    let u = m.insert(p, x);
    if p == m.len() {
        assert(u.drop_last() =~= m);
    } else {
        assert(u.drop_last() =~= m.drop_last().insert(p, x));
        lemma_total_insert(m.drop_last(), p, x);
    }
}

/// Every change that is not cosmetic is counted once and detailed once, the
/// layout entry aside: the counts add up to the number of such changes, and
/// there is one detail for each of them; the changes that make a file
/// semantic are exactly those that are not cosmetic.
pub proof fn lemma_every_real_change_is_counted(changes: Seq<DiffEntryView>)
    requires
        changes.len() <= i64::MAX,
    ensures
        counts_total(counts_of(changes)) == changes.filter(
            |c: DiffEntryView| !c.cosmetic && !is_layout(c.element),
        ).len(),
        details_of(changes).len() == changes.filter(
            |c: DiffEntryView| !c.cosmetic && !is_layout(c.element),
        ).len(),
        semantic_count(changes) == changes.filter(|c: DiffEntryView| !c.cosmetic).len(),
        cosmetic_count(changes) == changes.filter(|c: DiffEntryView| c.cosmetic).len(),
    decreases changes.len(),
{
    reveal_with_fuel(Seq::filter, 2);
    if changes.len() > 0 {
        let prev = changes.drop_last();
        let c = changes.last();
        lemma_every_real_change_is_counted(prev);
        lemma_counts_of(prev);
        let m = counts_of(prev);
        if is_counted(c) {
            let k = count_key(is_net(c.element), c.kind, c.element);
            let v = count_of(changes, k);
            assert(v == count_of(prev, k) + 1);
            lemma_count_of_bound(changes, k);
            crate::textmap::lemma_insert_pos_split(m, k);
            let p = crate::textmap::insert_pos(m, k) as int;
            if p < m.len() && m[p].0 == k {
                crate::textmap::lemma_lookup_index(m, p);
                assert(lookup(m, k) == Some(m[p].1));
                lemma_total_update(m, p, (k, v as i64));
            } else {
                assert(!crate::textmap::has_key(m, k)) by {
                    if crate::textmap::has_key(m, k) {
                        let i = choose|i: int| 0 <= i < m.len() && #[trigger] m[i].0 == k;
                        if i < p {
                            crate::text::lemma_seq_lt_irreflexive(k);
                        } else if i > p {
                            assert(crate::text::seq_lt(m[p].0, m[i].0));
                        }
                    }
                }
                crate::textmap::lemma_lookup_absent(m, k);
                lemma_total_insert(m, p, (k, v as i64));
            }
        }
    }
}

proof fn lemma_keys_differ()
    ensures
        labels::COMPONENTS_ADDED@ != labels::COMPONENTS_REMOVED@,
        labels::COMPONENTS_ADDED@ != labels::COMPONENTS_MODIFIED@,
        labels::COMPONENTS_ADDED@ != labels::COMPONENTS_RENAMED@,
        labels::COMPONENTS_ADDED@ != labels::NETS_ADDED@,
        labels::COMPONENTS_ADDED@ != labels::NETS_REMOVED@,
        labels::COMPONENTS_ADDED@ != labels::NETS_MODIFIED@,
        labels::COMPONENTS_REMOVED@ != labels::COMPONENTS_MODIFIED@,
        labels::COMPONENTS_REMOVED@ != labels::COMPONENTS_RENAMED@,
        labels::COMPONENTS_REMOVED@ != labels::NETS_ADDED@,
        labels::COMPONENTS_REMOVED@ != labels::NETS_REMOVED@,
        labels::COMPONENTS_REMOVED@ != labels::NETS_MODIFIED@,
        labels::NETS_ADDED@ != labels::COMPONENTS_MODIFIED@,
        labels::NETS_ADDED@ != labels::COMPONENTS_RENAMED@,
        labels::NETS_ADDED@ != labels::NETS_REMOVED@,
        labels::NETS_ADDED@ != labels::NETS_MODIFIED@,
        labels::NETS_REMOVED@ != labels::COMPONENTS_MODIFIED@,
        labels::NETS_REMOVED@ != labels::COMPONENTS_RENAMED@,
        labels::NETS_REMOVED@ != labels::NETS_MODIFIED@,
{
    reveal_strlit("components_added");
    reveal_strlit("components_removed");
    reveal_strlit("components_modified");
    reveal_strlit("components_renamed");
    reveal_strlit("nets_added");
    reveal_strlit("nets_removed");
    reveal_strlit("nets_modified");
    assert(labels::COMPONENTS_REMOVED@[13] != labels::COMPONENTS_RENAMED@[13]);
    assert(labels::COMPONENTS_ADDED@.len() == 16);
    assert(labels::COMPONENTS_REMOVED@.len() == 18);
    assert(labels::COMPONENTS_MODIFIED@.len() == 19);
    assert(labels::COMPONENTS_RENAMED@.len() == 18);
    assert(labels::NETS_ADDED@.len() == 10);
    assert(labels::NETS_REMOVED@.len() == 12);
    assert(labels::NETS_MODIFIED@.len() == 13);
    assert(labels::COMPONENTS_ADDED@[0] == 'c');
    assert(labels::COMPONENTS_REMOVED@[0] == 'c');
    assert(labels::NETS_ADDED@[0] == 'n');
    assert(labels::NETS_REMOVED@[0] == 'n');
    assert(labels::NETS_MODIFIED@[0] == 'n');
}

/// Whether a change is a real (not cosmetic, not layout) change of the given
/// kind, of a net or of a component.
pub open spec fn real_change(c: DiffEntryView, net: bool, kind: ChangeKind) -> bool {
    !c.cosmetic && !is_layout(c.element) && is_net(c.element) == net && c.kind == kind
}

/// What a count holds: `Some(n)` for `n` changes, no entry for none.
pub open spec fn count_entry(n: nat) -> Option<i64> {
    if n > 0 {
        Some(n as i64)
    } else {
        None
    }
}

proof fn lemma_count_by_kind(changes: Seq<DiffEntryView>, key: Seq<char>, net: bool, kind: ChangeKind)
    requires
        kind != ChangeKind::Modified,
        key == count_key(net, kind, Seq::empty()),
    ensures
        count_of(changes, key) == changes.filter(|c: DiffEntryView| real_change(c, net, kind)).len(),
    decreases changes.len(),
{
    reveal_with_fuel(Seq::filter, 2);
    lemma_keys_differ();
    if changes.len() > 0 {
        lemma_count_by_kind(changes.drop_last(), key, net, kind);
        let c = changes.last();
        reveal_strlit("components_renamed");
        reveal_strlit("components_modified");
        assert(is_counted(c) && count_key(is_net(c.element), c.kind, c.element) == key <==> real_change(c, net, kind));
    }
}

/// The counts of additions and removals are the numbers of such changes:
/// components added and removed, nets added and removed, each counted over
/// the changes that are neither cosmetic nor the layout entry, and absent
/// from the counts when there is none.
pub proof fn lemma_counts_by_kind(changes: Seq<DiffEntryView>)
    requires
        changes.len() <= i64::MAX,
    ensures
        lookup(counts_of(changes), "components_added"@) == count_entry(
            changes.filter(|c: DiffEntryView| real_change(c, false, ChangeKind::Added)).len(),
        ),
        lookup(counts_of(changes), "components_removed"@) == count_entry(
            changes.filter(|c: DiffEntryView| real_change(c, false, ChangeKind::Removed)).len(),
        ),
        lookup(counts_of(changes), "nets_added"@) == count_entry(
            changes.filter(|c: DiffEntryView| real_change(c, true, ChangeKind::Added)).len(),
        ),
        lookup(counts_of(changes), "nets_removed"@) == count_entry(
            changes.filter(|c: DiffEntryView| real_change(c, true, ChangeKind::Removed)).len(),
        ),
{
    lemma_counts_of(changes);
    lemma_count_by_kind(changes, labels::COMPONENTS_ADDED@, false, ChangeKind::Added);
    lemma_count_by_kind(changes, labels::COMPONENTS_REMOVED@, false, ChangeKind::Removed);
    lemma_count_by_kind(changes, labels::NETS_ADDED@, true, ChangeKind::Added);
    lemma_count_by_kind(changes, labels::NETS_REMOVED@, true, ChangeKind::Removed);
    reveal_strlit("components_added");
    reveal_strlit("components_removed");
    reveal_strlit("nets_added");
    reveal_strlit("nets_removed");
}

// ───────────────────────── implementation ─────────────────────────

/// The count key and detail kind of a non-cosmetic change.
pub fn classify(is_net: bool, kind: ChangeKind, element: &str) -> (r: (&'static str, DetailKind))
    ensures
        r.0@ == count_key(is_net, kind, element@),
        r.1 == detail_kind_of(is_net, kind, element@),
{
    match (is_net, kind) {
        (true, ChangeKind::Added) => (labels::NETS_ADDED, DetailKind::NetAdded),
        (true, ChangeKind::Removed) => (labels::NETS_REMOVED, DetailKind::NetRemoved),
        (true, ChangeKind::Modified) => (labels::NETS_MODIFIED, DetailKind::NetModified),
        (false, ChangeKind::Added) => (labels::COMPONENTS_ADDED, DetailKind::ComponentAdded),
        (false, ChangeKind::Removed) => (labels::COMPONENTS_REMOVED, DetailKind::ComponentRemoved),
        (false, ChangeKind::Modified) => {
            if str_contains(element, " → ") {
                (labels::COMPONENTS_RENAMED, DetailKind::ComponentRenamed)
            } else {
                (labels::COMPONENTS_MODIFIED, DetailKind::ComponentModified)
            }
        },
    }
}

fn is_placement_key_exec(k: &str) -> (b: bool)
    ensures
        b == is_placement_key(k@),
{
    crate::text::str_eq(k, "x") || crate::text::str_eq(k, "y") || crate::text::str_eq(k, "rotation")
        || crate::text::str_eq(k, "mirror")
}

fn param_change_exec(k: &str, b: Option<&String>, a: Option<&String>) -> (r: Option<String>)
    ensures
        r matches Some(v) ==> param_change(
            k@,
            match b {
                Some(x) => Some(x@),
                None => None,
            },
            match a {
                Some(x) => Some(x@),
                None => None,
            },
        ) == Some(v@),
        r is None ==> param_change(
            k@,
            match b {
                Some(x) => Some(x@),
                None => None,
            },
            match a {
                Some(x) => Some(x@),
                None => None,
            },
        ) is None,
{
    if is_placement_key_exec(k) {
        return None;
    }
    match (b, a) {
        (Some(bv), Some(av)) => {
            if !crate::text::str_eq(bv.as_str(), av.as_str()) {
                let t = concat_str(bv.as_str(), " → ");
                Some(concat_str(t.as_str(), av.as_str()))
            } else {
                None
            }
        },
        (None, Some(av)) => Some(concat_str("(nuevo) → ", av.as_str())),
        (Some(bv), None) => Some(concat_str(bv.as_str(), " → (eliminado)")),
        (None, None) => None,
    }
}

fn record_keys(
    out: &mut TextMap<String>,
    keys_from: &TextMap<String>,
    before: &TextMap<String>,
    after: &TextMap<String>,
)
    ensures
        final(out)@ == record_changes(old(out)@, crate::textmap::keys_of(keys_from@), before@, after@),
{
    let ghost start = out@;
    let ghost ks = crate::textmap::keys_of(keys_from@);
    let mut i: usize = 0;
    while i < keys_from.len()
        invariant
            i <= keys_from@.len(),
            ks == crate::textmap::keys_of(keys_from@),
            out@ == record_changes(start, ks.take(i as int), before@, after@),
        decreases keys_from@.len() - i,
    {
        let k = keys_from.key_at(i);
        assert(ks.take(i + 1).drop_last() =~= ks.take(i as int));
        assert(ks.take(i + 1).last() == k@);
        let bv = before.get(k.as_str());
        let av = after.get(k.as_str());
        match param_change_exec(k.as_str(), bv, av) {
            Some(v) => {
                out.insert(k.clone(), v);
            },
            None => {},
        }
        i = i + 1;
    }
    assert(ks.take(keys_from@.len() as int) =~= ks);
}

/// The changed attributes of an entry, from its two snapshots.
pub fn extract_param_changes(entry: &DiffEntry) -> (m: TextMap<String>)
    ensures
        m@ == param_changes(entry@),
{
    match (&entry.before, &entry.after) {
        (Some(b), Some(a)) => {
            let mut out: TextMap<String> = TextMap::new();
            record_keys(&mut out, b, b, a);
            record_keys(&mut out, a, b, a);
            out
        },
        _ => TextMap::new(),
    }
}

fn clone_opt_map(m: &Option<TextMap<String>>) -> (r: Option<TextMap<String>>)
    ensures
        opt_map_view(r) == opt_map_view(*m),
{
    match m {
        Some(t) => Some(t.clone_map()),
        None => None,
    }
}

/// A copy of a driver report.
pub fn clone_report(r: &DriverDiffReport) -> (c: DriverDiffReport)
    ensures
        c@ == r@,
{
    let mut changes: Vec<DiffEntry> = Vec::new();
    let mut i: usize = 0;
    while i < r.changes.len()
        invariant
            i <= r.changes@.len(),
            changes@.map_values(|e: DiffEntry| e@) == r@.changes.take(i as int),
        decreases r.changes@.len() - i,
    {
        let e = &r.changes[i];
        let ghost before = changes@.map_values(|e: DiffEntry| e@);
        changes.push(
            DiffEntry {
                kind: e.kind,
                element: e.element.clone(),
                before: clone_opt_map(&e.before),
                after: clone_opt_map(&e.after),
                cosmetic: e.cosmetic,
                position_changed: e.position_changed,
            },
        );
        assert(changes@.map_values(|e: DiffEntry| e@) =~= before.push(e@));
        assert(r@.changes.take(i + 1) =~= r@.changes.take(i as int).push(r@.changes[i as int]));
        i = i + 1;
    }
    assert(r@.changes.take(r@.changes.len() as int) =~= r@.changes);
    let mut warnings: Vec<String> = Vec::new();
    let mut j: usize = 0;
    while j < r.warnings.len()
        invariant
            j <= r.warnings@.len(),
            warnings@.map_values(|w: String| w@) == r@.warnings.take(j as int),
        decreases r.warnings@.len() - j,
    {
        let ghost before = warnings@.map_values(|w: String| w@);
        warnings.push(r.warnings[j].clone());
        assert(warnings@.map_values(|w: String| w@) =~= before.push(r@.warnings[j as int]));
        assert(r@.warnings.take(j + 1) =~= r@.warnings.take(j as int).push(r@.warnings[j as int]));
        j = j + 1;
    }
    assert(r@.warnings.take(r@.warnings.len() as int) =~= r@.warnings);
    let c = DriverDiffReport { file_type: r.file_type, changes, warnings };
    assert(c@ =~= r@);
    c
}

impl FileSummary {
    /// The summary of a driver report at the `Resumen` level.
    pub fn from_report(report: &DriverDiffReport, path: &str) -> (s: FileSummary)
        requires
            report@.changes.len() <= i64::MAX,
        ensures
            s@ == summary_of(report@, path@, DetailLevel::Resumen),
            counts_positive(s@.counts),
    {
        Self::from_report_with(report, path, DetailLevel::Resumen)
    }

    /// The summary of a driver report at the given level.
    pub fn from_report_with(report: &DriverDiffReport, path: &str, level: DetailLevel) -> (s: FileSummary)
        requires
            report@.changes.len() <= i64::MAX,
        ensures
            s@ == summary_of(report@, path@, level),
            counts_positive(s@.counts),
            counts_total(s@.counts) == report@.changes.filter(
                |c: DiffEntryView| !c.cosmetic && !is_layout(c.element),
            ).len(),
            level != DetailLevel::Resumen ==> s@.details.len() == report@.changes.filter(
                |c: DiffEntryView| !c.cosmetic && !is_layout(c.element),
            ).len(),
            (s@.category == SummaryCategory::Semantic) == (report@.changes.filter(
                |c: DiffEntryView| !c.cosmetic,
            ).len() > 0),
            lookup(s@.counts, "components_added"@) == count_entry(
                report@.changes.filter(|c: DiffEntryView| real_change(c, false, ChangeKind::Added)).len(),
            ),
            lookup(s@.counts, "components_removed"@) == count_entry(
                report@.changes.filter(|c: DiffEntryView| real_change(c, false, ChangeKind::Removed)).len(),
            ),
            lookup(s@.counts, "nets_added"@) == count_entry(
                report@.changes.filter(|c: DiffEntryView| real_change(c, true, ChangeKind::Added)).len(),
            ),
            lookup(s@.counts, "nets_removed"@) == count_entry(
                report@.changes.filter(|c: DiffEntryView| real_change(c, true, ChangeKind::Removed)).len(),
            ),
    {
        proof {
            lemma_counts_positive(report@.changes);
            lemma_every_real_change_is_counted(report@.changes);
            lemma_counts_by_kind(report@.changes);
        }
        let ghost cv = report@.changes;
        let mut counts: TextMap<i64> = TextMap::new();
        let mut details: Vec<DetailEntry> = Vec::new();
        let mut semantic: i64 = 0;
        let mut cosmetic: i64 = 0;
        let want_details = match level {
            DetailLevel::Resumen => false,
            _ => true,
        };
        let mut i: usize = 0;
        assert(cv.take(0) =~= Seq::<DiffEntryView>::empty());
        assert(details@.map_values(|d: DetailEntry| d@) =~= Seq::<DetailEntryView>::empty());
        while i < report.changes.len()
            invariant
                i <= cv.len(),
                cv == report@.changes,
                cv.len() <= i64::MAX,
                want_details == (level != DetailLevel::Resumen),
                semantic == semantic_count(cv.take(i as int)),
                cosmetic == cosmetic_count(cv.take(i as int)),
                semantic + cosmetic == i,
                counts@ == counts_of(cv.take(i as int)),
                details@.map_values(|d: DetailEntry| d@) == (if want_details {
                    details_of(cv.take(i as int))
                } else {
                    Seq::empty()
                }),
            decreases cv.len() - i,
        {
            let c = &report.changes[i];
            let ghost pre = cv.take(i as int);
            let ghost cur = cv.take(i + 1);
            assert(cur.drop_last() =~= pre);
            assert(cur.last() == c@);
            if c.cosmetic {
                cosmetic = cosmetic + 1;
                i = i + 1;
                continue;
            }
            semantic = semantic + 1;
            if is_layout_element(c.element.as_str()) {
                i = i + 1;
                continue;
            }
            let net = is_net_element(c.element.as_str());
            let (key, kind) = classify(net, c.kind, c.element.as_str());
            proof {
                lemma_counts_of(pre);
                lemma_count_of_bound(pre, key@);
            }
            let current: i64 = match counts.get(key) {
                Some(v) => *v,
                None => 0,
            };
            counts.insert(key.to_string(), current + 1);
            if want_details {
                let ghost before = details@.map_values(|d: DetailEntry| d@);
                details.push(
                    DetailEntry {
                        kind,
                        element: net_name(c.element.as_str()),
                        params: extract_param_changes(c),
                    },
                );
                assert(details@.map_values(|d: DetailEntry| d@) =~= before.push(
                    DetailEntryView {
                        kind: detail_kind_of(is_net(c@.element), c@.kind, c@.element),
                        element: net_name_of(c@.element),
                        params: param_changes(c@),
                    },
                ));
            }
            i = i + 1;
        }
        assert(cv.take(cv.len() as int) =~= cv);
        let full_report = match level {
            DetailLevel::Completo => Some(clone_report(report)),
            _ => None,
        };
        let s = FileSummary {
            path: path.to_string(),
            format: report.file_type,
            category: decide_category(semantic, cosmetic),
            counts,
            details,
            full_report,
            errors: Vec::new(),
        };
        assert(s@.errors =~= Seq::<Seq<char>>::empty());
        assert(s@ =~= summary_of(report@, path@, level));
        s
    }
}

} // verus!
