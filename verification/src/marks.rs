//! What a visual diff marks on a render: which changed components get a box
//! (and from which version they are placed), and which wires get a line.
//! Where the marks land is the renderer's geometry, not decided here.

use vstd::prelude::*;
use crate::models::{ChangeKind, ComponentDiffView, DiffReport, Schematic, SchematicView, WireView};
use crate::text::str_eq;

verus! {

/// A box to draw for a changed component.
#[derive(Debug)]
pub struct ComponentMark {
    /// Index of the change in the report.
    pub change: usize,
    /// Placed from the earlier version (a removed component) rather than the
    /// later one.
    pub from_earlier: bool,
}

/// The marks of a visual diff.
#[derive(Debug)]
pub struct MarkPlan {
    pub components: Vec<ComponentMark>,
    /// Indices of the later version's wires on an added net.
    pub wires_added: Vec<usize>,
    /// Indices of the earlier version's wires on a removed net.
    pub wires_removed: Vec<usize>,
}

/// A removed component is placed from the earlier version when there is one.
pub open spec fn placed_from_earlier(c: ComponentDiffView, has_earlier: bool) -> bool {
    c.kind == ChangeKind::Removed && has_earlier
}

/// The changes, among the first `n`, whose component the schematic it is
/// placed from holds: each as its index and whether it comes from the
/// earlier version.
pub open spec fn component_marks(
    cs: Seq<ComponentDiffView>,
    later: SchematicView,
    earlier: Option<SchematicView>,
    n: int,
) -> Seq<(int, bool)>
    decreases n,
{
    if n <= 0 {
        Seq::empty()
    } else {
        let rest = component_marks(cs, later, earlier, n - 1);
        let c = cs[n - 1];
        let from_a = placed_from_earlier(c, earlier is Some);
        let source = if from_a {
            earlier->0
        } else {
            later
        };
        if crate::textmap::has_key(source.components, c.name) {
            rest.push((n - 1, from_a))
        } else {
            rest
        }
    }
}

/// Indices, among the first `n` wires, of those whose label is one of `nets`.
pub open spec fn wire_marks(ws: Seq<WireView>, nets: Seq<Seq<char>>, n: int) -> Seq<int>
    decreases n,
{
    if n <= 0 {
        Seq::empty()
    } else if nets.contains(ws[n - 1].label) {
        wire_marks(ws, nets, n - 1).push(n - 1)
    } else {
        wire_marks(ws, nets, n - 1)
    }
}

/// The indices as integers.
pub open spec fn ints(v: Seq<usize>) -> Seq<int> {
    v.map_values(|x: usize| x as int)
}

/// The marks as pairs of change index and origin.
pub open spec fn mark_pairs(v: Seq<ComponentMark>) -> Seq<(int, bool)> {
    v.map_values(|m: ComponentMark| (m.change as int, m.from_earlier))
}

fn text_in(t: &String, v: &Vec<String>) -> (b: bool)
    ensures
        b == v@.map_values(|s: String| s@).contains(t@),
{
    let ghost vs = v@.map_values(|s: String| s@);
    let mut i: usize = 0;
    while i < v.len()
        invariant
            i <= v@.len(),
            vs == v@.map_values(|s: String| s@),
            forall|j: int| 0 <= j < i ==> vs[j] != t@,
        decreases v@.len() - i,
    {
        if str_eq(v[i].as_str(), t.as_str()) {
            assert(vs[i as int] == t@);
            return true;
        }
        i = i + 1;
    }
    false
}

fn marked_wires(ws: &Vec<crate::models::Wire>, nets: &Vec<String>) -> (out: Vec<usize>)
    ensures
        ints(out@) == wire_marks(ws@.map_values(|w: crate::models::Wire| w@), nets@.map_values(|s: String| s@), ws@.len() as int),
{
    let ghost wv = ws@.map_values(|w: crate::models::Wire| w@);
    let ghost nv = nets@.map_values(|s: String| s@);
    let mut out: Vec<usize> = Vec::new();
    let mut i: usize = 0;
    while i < ws.len()
        invariant
            i <= ws@.len(),
            wv == ws@.map_values(|w: crate::models::Wire| w@),
            nv == nets@.map_values(|s: String| s@),
            ints(out@) == wire_marks(wv, nv, i as int),
        decreases ws@.len() - i,
    {
        assert(wv[i as int] == ws@[i as int]@);
        if text_in(&ws[i].label, nets) {
            let ghost before = out@;
            out.push(i);
            assert(ints(out@) =~= ints(before).push(i as int));
        }
        i = i + 1;
    }
    out
}

/// What to mark on the later version's render for a report: a box for each
/// changed component that the version it is placed from holds (a removed
/// component from the earlier version when there is one, any other from the
/// later), a line for each later wire on an added net, and, when there is an
/// earlier version, for each of its wires on a removed net.
pub fn mark_plan(later: &Schematic, report: &DiffReport, earlier: Option<&Schematic>) -> (p: MarkPlan)
    ensures
        mark_pairs(p.components@) == component_marks(
            report@.components,
            later@,
            match earlier {
                Some(s) => Some(s@),
                None => None,
            },
            report@.components.len() as int,
        ),
        ints(p.wires_added@) == wire_marks(
            later@.wires,
            report@.nets_added,
            later@.wires.len() as int,
        ),
        earlier matches Some(s) ==> ints(p.wires_removed@) == wire_marks(
            s@.wires,
            report@.nets_removed,
            s@.wires.len() as int,
        ),
        earlier is None ==> p.wires_removed@.len() == 0,
{
    let ghost ev: Option<SchematicView> = match earlier {
        Some(s) => Some(s@),
        None => None,
    };
    let ghost cs = report@.components;
    let mut components: Vec<ComponentMark> = Vec::new();
    let mut i: usize = 0;
    while i < report.components.len()
        invariant
            i <= cs.len(),
            cs == report@.components,
            ev == (match earlier {
                Some(s) => Some(s@),
                None => None,
            }),
            mark_pairs(components@) == component_marks(cs, later@, ev, i as int),
        decreases cs.len() - i,
    {
        let c = &report.components[i];
        assert(cs[i as int] == c@);
        let from_a = c.kind == ChangeKind::Removed && earlier.is_some();
        let held = if from_a {
            match earlier {
                Some(s) => s.components.contains_key(c.name.as_str()),
                None => false,
            }
        } else {
            later.components.contains_key(c.name.as_str())
        };
        if held {
            let ghost before = components@;
            components.push(ComponentMark { change: i, from_earlier: from_a });
            assert(mark_pairs(components@) =~= mark_pairs(before).push((i as int, from_a)));
        }
        i = i + 1;
    }
    let wires_added = marked_wires(&later.wires, &report.nets_added);
    let wires_removed = match earlier {
        Some(s) => marked_wires(&s.wires, &report.nets_removed),
        None => Vec::new(),
    };
    MarkPlan { components, wires_added, wires_removed }
}

} // verus!
