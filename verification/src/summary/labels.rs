//! Canonical keys of the `counts` map and their human labels.
//!
//! Keys that are not canonical have no label: a formatter prints them as they
//! are.

use vstd::prelude::*;

verus! {

pub const COMPONENTS_ADDED: &'static str = "components_added";
pub const COMPONENTS_REMOVED: &'static str = "components_removed";
pub const COMPONENTS_MODIFIED: &'static str = "components_modified";
pub const COMPONENTS_RENAMED: &'static str = "components_renamed";
pub const NETS_ADDED: &'static str = "nets_added";
pub const NETS_REMOVED: &'static str = "nets_removed";
pub const NETS_MODIFIED: &'static str = "nets_modified";

/// The short label of a canonical key, singular or plural.
pub open spec fn label_text(key: Seq<char>, plural: bool) -> Option<Seq<char>> {
    if key == COMPONENTS_ADDED@ {
        Some(if plural { "componentes añadidos"@ } else { "componente añadido"@ })
    } else if key == COMPONENTS_REMOVED@ {
        Some(if plural { "componentes eliminados"@ } else { "componente eliminado"@ })
    } else if key == COMPONENTS_MODIFIED@ {
        Some(if plural { "componentes modificados"@ } else { "componente modificado"@ })
    } else if key == COMPONENTS_RENAMED@ {
        Some(if plural { "componentes renombrados"@ } else { "componente renombrado"@ })
    } else if key == NETS_ADDED@ {
        Some(if plural { "nets añadidas"@ } else { "net añadida"@ })
    } else if key == NETS_REMOVED@ {
        Some(if plural { "nets eliminadas"@ } else { "net eliminada"@ })
    } else if key == NETS_MODIFIED@ {
        Some(if plural { "nets modificadas"@ } else { "net modificada"@ })
    } else {
        None
    }
}

/// A count is plural unless its magnitude is one.
pub open spec fn is_plural(count: int) -> bool {
    count != 1 && count != -1
}

/// Translates a canonical key to its label for `count` items; `None` for a
/// key that is not canonical.
pub fn label_for(key: &str, count: i64) -> (r: Option<String>)
    requires
        count != i64::MIN,
    ensures
        match r {
            Some(s) => label_text(key@, is_plural(count as int)) == Some(s@),
            None => label_text(key@, is_plural(count as int)) is None,
        },
{
    let plural = !(count == 1 || count == -1);
    let eq = |a: &str| -> (b: bool)
        ensures
            b == (key@ == a@),
        { crate::text::str_eq(key, a) };
    let label: &str = if eq(COMPONENTS_ADDED) {
        if plural { "componentes añadidos" } else { "componente añadido" }
    } else if eq(COMPONENTS_REMOVED) {
        if plural { "componentes eliminados" } else { "componente eliminado" }
    } else if eq(COMPONENTS_MODIFIED) {
        if plural { "componentes modificados" } else { "componente modificado" }
    } else if eq(COMPONENTS_RENAMED) {
        if plural { "componentes renombrados" } else { "componente renombrado" }
    } else if eq(NETS_ADDED) {
        if plural { "nets añadidas" } else { "net añadida" }
    } else if eq(NETS_REMOVED) {
        if plural { "nets eliminadas" } else { "net eliminada" }
    } else if eq(NETS_MODIFIED) {
        if plural { "nets modificadas" } else { "net modificada" }
    } else {
        return None;
    };
    Some(label.to_string())
}

} // verus!
