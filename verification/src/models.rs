//! The schematic model and the semantic diff report.
//!
//! Coordinates are held as the text that the file writes for them; the diff
//! compares them by decimal value (see `crate::semantic_diff`).

use vstd::prelude::*;
use crate::textmap::TextMap;

verus! {

/// File formats recognised by their header.
#[derive(Clone, Copy, Debug, PartialEq, Eq, Structural)]
pub enum FileFormat {
    Xschem,
    Qucs,
    KicadLegacy,
    Unknown,
}

/// What happened to an element between two versions.
#[derive(Clone, Copy, Debug, PartialEq, Eq, Structural)]
pub enum ChangeKind {
    Added,
    Removed,
    Modified,
}

/// A placed symbol instance (`C {symbol} x y rot mirror {attrs}`).
#[derive(Debug)]
pub struct Component {
    pub name: String,
    pub symbol: String,
    /// Attributes other than `name`.
    pub params: TextMap<String>,
    /// The x coordinate as written in the file.
    pub x: String,
    /// The y coordinate as written in the file.
    pub y: String,
    pub rotation: i32,
    pub mirror: i32,
}

/// Abstract value of a `Component`.
pub struct ComponentView {
    pub name: Seq<char>,
    pub symbol: Seq<char>,
    pub params: Seq<(Seq<char>, Seq<char>)>,
    pub x: Seq<char>,
    pub y: Seq<char>,
    pub rotation: i32,
    pub mirror: i32,
}

impl View for Component {
    type V = ComponentView;

    open spec fn view(&self) -> ComponentView {
        ComponentView {
            name: self.name@,
            symbol: self.symbol@,
            params: self.params@,
            x: self.x@,
            y: self.y@,
            rotation: self.rotation,
            mirror: self.mirror,
        }
    }
}

/// A wire segment (`N x1 y1 x2 y2 {attrs}`), with its net label if any.
#[derive(Debug)]
pub struct Wire {
    pub x1: String,
    pub y1: String,
    pub x2: String,
    pub y2: String,
    /// Value of the `lab` attribute, empty when absent.
    pub label: String,
}

/// Abstract value of a `Wire`.
pub struct WireView {
    pub x1: Seq<char>,
    pub y1: Seq<char>,
    pub x2: Seq<char>,
    pub y2: Seq<char>,
    pub label: Seq<char>,
}

impl View for Wire {
    type V = WireView;

    open spec fn view(&self) -> WireView {
        WireView { x1: self.x1@, y1: self.y1@, x2: self.x2@, y2: self.y2@, label: self.label@ }
    }
}

/// A parsed schematic: components by name, wires in file order, net names.
#[derive(Debug)]
pub struct Schematic {
    pub components: TextMap<Component>,
    pub wires: Vec<Wire>,
    /// Net names, as the keys of the map.
    pub nets: TextMap<()>,
}

/// Abstract value of a `Schematic`.
pub struct SchematicView {
    pub components: Seq<(Seq<char>, ComponentView)>,
    pub wires: Seq<WireView>,
    pub nets: Seq<(Seq<char>, ())>,
}

impl View for Schematic {
    type V = SchematicView;

    open spec fn view(&self) -> SchematicView {
        SchematicView {
            components: self.components@,
            wires: self.wires@.map_values(|w: Wire| w@),
            nets: self.nets@,
        }
    }
}

impl Schematic {
    /// Both maps keep their entries sorted.
    pub open spec fn wf(&self) -> bool {
        self.components.wf() && self.nets.wf()
    }

    /// A schematic with nothing in it.
    pub fn empty() -> (s: Schematic)
        ensures
            s.wf(),
            s@.components.len() == 0,
            s@.wires.len() == 0,
            s@.nets.len() == 0,
    {
        Schematic { components: TextMap::new(), wires: Vec::new(), nets: TextMap::new() }
    }
}

/// One component's change between two versions.
#[derive(Debug)]
pub struct ComponentDiff {
    pub name: String,
    pub kind: ChangeKind,
    /// Only the placement changed.
    pub cosmetic: bool,
    /// The placement (coordinates, rotation or mirror) changed.
    pub position_changed: bool,
    pub before: Option<TextMap<String>>,
    pub after: Option<TextMap<String>>,
}

/// Abstract value of a `ComponentDiff`.
pub struct ComponentDiffView {
    pub name: Seq<char>,
    pub kind: ChangeKind,
    pub cosmetic: bool,
    pub position_changed: bool,
    pub before: Option<Seq<(Seq<char>, Seq<char>)>>,
    pub after: Option<Seq<(Seq<char>, Seq<char>)>>,
}

/// Abstract value of an optional snapshot.
pub open spec fn opt_map_view(m: Option<TextMap<String>>) -> Option<Seq<(Seq<char>, Seq<char>)>> {
    match m {
        Some(t) => Some(t@),
        None => None,
    }
}

impl View for ComponentDiff {
    type V = ComponentDiffView;

    open spec fn view(&self) -> ComponentDiffView {
        ComponentDiffView {
            name: self.name@,
            kind: self.kind,
            cosmetic: self.cosmetic,
            position_changed: self.position_changed,
            before: opt_map_view(self.before),
            after: opt_map_view(self.after),
        }
    }
}

/// The semantic difference between two schematics.
#[derive(Debug)]
pub struct DiffReport {
    pub components: Vec<ComponentDiff>,
    pub nets_added: Vec<String>,
    pub nets_removed: Vec<String>,
    /// Most common components only moved: a layout reorganisation. The
    /// coordinate-only entries are then left out of `components`.
    pub is_move_all: bool,
}

/// Abstract value of a `DiffReport`.
pub struct DiffReportView {
    pub components: Seq<ComponentDiffView>,
    pub nets_added: Seq<Seq<char>>,
    pub nets_removed: Seq<Seq<char>>,
    pub is_move_all: bool,
}

impl View for DiffReport {
    type V = DiffReportView;

    open spec fn view(&self) -> DiffReportView {
        DiffReportView {
            components: self.components@.map_values(|c: ComponentDiff| c@),
            nets_added: self.nets_added@.map_values(|s: String| s@),
            nets_removed: self.nets_removed@.map_values(|s: String| s@),
            is_move_all: self.is_move_all,
        }
    }
}

impl DiffReport {
    /// A report with no change at all.
    pub fn new() -> (r: DiffReport)
        ensures
            r@.components.len() == 0,
            r@.nets_added.len() == 0,
            r@.nets_removed.len() == 0,
            !r@.is_move_all,
    {
        DiffReport {
            components: Vec::new(),
            nets_added: Vec::new(),
            nets_removed: Vec::new(),
            is_move_all: false,
        }
    }

    /// No component and no net changed.
    pub fn is_empty(&self) -> (b: bool)
        ensures
            b == (self@.components.len() == 0 && self@.nets_added.len() == 0
                && self@.nets_removed.len() == 0),
    {
        self.components.len() == 0 && self.nets_added.len() == 0 && self.nets_removed.len() == 0
    }
}

} // verus!
