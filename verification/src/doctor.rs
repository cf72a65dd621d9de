//! `riku doctor`: the report on the environment, from what was found in it.
//!
//! Looking around (environment variables, files, the repository, the
//! drivers) is the caller's part; this module decides what it amounts to.

use vstd::prelude::*;
use crate::format::{pad_right, pad_right_text};
use crate::text::{append_lines, concat_str, texts};
use crate::xschem_driver::{join_path, join_path_text};

verus! {

broadcast use crate::text::lemma_texts_push;

/// One driver as `riku doctor` lists it.
#[derive(Debug)]
pub struct DriverStatus {
    pub name: String,
    pub available: bool,
    pub version: String,
}

/// What was found in the environment.
#[derive(Debug)]
pub struct DoctorProbe {
    /// The repository's working tree, when one was found.
    pub repo_dir: Option<String>,
    /// The `.xschemrc` found, if any.
    pub xschemrc: Option<String>,
    /// The symbol directory under `$PDK_ROOT/$PDK` and whether it exists;
    /// `None` when either variable is unset.
    pub pdk_symbols: Option<(String, bool)>,
    /// The devices directory under `$TOOLS` and whether it exists; `None`
    /// when the variable is unset.
    pub tools_devices: Option<(String, bool)>,
    pub drivers: Vec<DriverStatus>,
    /// The cache directory and whether it is usable.
    pub cache_dir: String,
    pub cache_ok: bool,
}

/// Where the PDK keeps its Xschem symbols.
pub open spec fn pdk_symbols_path(root: Seq<char>, pdk: Seq<char>) -> Seq<char> {
    join_path(join_path(root, pdk), "libs.tech/xschem"@)
}

/// Where the tools keep Xschem's device library.
pub open spec fn tools_devices_path(tools: Seq<char>) -> Seq<char> {
    join_path(tools, "xschem/share/xschem/xschem_library/devices"@)
}

/// Where the PDK keeps its Xschem symbols.
pub fn pdk_symbols_dir(root: &str, pdk: &str) -> (p: String)
    ensures
        p@ == pdk_symbols_path(root@, pdk@),
{
    let a = join_path_text(root, pdk);
    join_path_text(a.as_str(), "libs.tech/xschem")
}

/// Where the tools keep Xschem's device library.
pub fn tools_devices_dir(tools: &str) -> (p: String)
    ensures
        p@ == tools_devices_path(tools@),
{
    join_path_text(tools, "xschem/share/xschem/xschem_library/devices")
}

/// Some source of symbols exists: an `.xschemrc`, the PDK's symbols or the
/// tools' devices.
pub open spec fn has_symbols(p: DoctorProbe) -> bool {
    p.xschemrc is Some || (p.pdk_symbols matches Some(s) && s.1) || (p.tools_devices matches Some(
        t,
    ) && t.1)
}

/// The line of one driver.
pub open spec fn driver_line(d: DriverStatus) -> Seq<char> {
    "  "@ + (if d.available { "[ok]"@ } else { "[x]"@ }) + "  "@ + pad_right(d.name@, 10) + " "@
        + d.version@
}

/// The lines of the drivers, in order.
pub open spec fn driver_lines(ds: Seq<DriverStatus>) -> Seq<Seq<char>>
    decreases ds.len(),
{
    if ds.len() == 0 {
        Seq::empty()
    } else {
        driver_lines(ds.drop_last()).push(driver_line(ds.last()))
    }
}

/// The lines on the repository and on the symbol sources.
pub open spec fn probe_lines(p: DoctorProbe) -> Seq<Seq<char>> {
    seq![
        "\nRiku Doctor — Diagnóstico del Entorno\n"@,
        "--- Repositorio Git ---"@,
        match p.repo_dir {
            Some(d) => "  [ok]  "@ + d@,
            None => "  [!]  No detectado — diff/log no funcionarán"@,
        },
        "\n--- PDK ---"@,
        match p.xschemrc {
            Some(x) => "  [ok]  .xschemrc: "@ + x@,
            None => "  [--]  .xschemrc: no encontrado"@,
        },
        match p.pdk_symbols {
            Some(s) => if s.1 {
                "  [ok]  $PDK_ROOT/$PDK → "@ + s.0@
            } else {
                "  [!]  $PDK_ROOT/$PDK configurado pero ruta no encontrada: "@ + s.0@
            },
            None => "  [--]  $PDK_ROOT / $PDK: no configurados"@,
        },
        match p.tools_devices {
            Some(t) => if t.1 {
                "  [ok]  $TOOLS → "@ + t.0@
            } else {
                "  [!]  $TOOLS configurado pero devices no encontrado: "@ + t.0@
            },
            None => "  [--]  $TOOLS: no configurado"@,
        },
    ] + if has_symbols(p) {
        Seq::empty()
    } else {
        seq!["  [!]  Sin fuente de símbolos — los componentes se renderizarán como cajas vacías"@]
    }
}

/// The lines on the cache, and the closing line when all is well.
pub open spec fn system_lines(p: DoctorProbe) -> Seq<Seq<char>> {
    seq![
        "\n--- Sistema ---"@,
        if p.cache_ok {
            "  [ok]  Caché: "@ + p.cache_dir@
        } else {
            "  [x]  Caché: no accesible en "@ + p.cache_dir@
        },
        Seq::empty(),
    ] + if p.cache_ok {
        seq!["Entorno listo.\n"@]
    } else {
        Seq::empty()
    }
}

/// The lines `riku doctor` prints, each printed as one line (some hold line
/// breaks of their own).
pub open spec fn doctor_lines(p: DoctorProbe) -> Seq<Seq<char>> {
    probe_lines(p) + seq!["\n--- Drivers ---"@] + driver_lines(p.drivers@) + system_lines(p)
}

/// The error `riku doctor` ends with when the environment is unusable.
pub open spec fn doctor_failure() -> Seq<char> {
    "Se detectaron problemas críticos en el entorno."@
}

fn probe_text(p: &DoctorProbe) -> (r: Vec<String>)
    ensures
        texts(r@) == probe_lines(*p),
{
    let mut lines: Vec<String> = Vec::new();
    lines.push("\nRiku Doctor — Diagnóstico del Entorno\n".to_string());
    lines.push("--- Repositorio Git ---".to_string());
    match &p.repo_dir {
        Some(d) => lines.push(concat_str("  [ok]  ", d.as_str())),
        None => lines.push("  [!]  No detectado — diff/log no funcionarán".to_string()),
    }
    lines.push("\n--- PDK ---".to_string());
    match &p.xschemrc {
        Some(x) => lines.push(concat_str("  [ok]  .xschemrc: ", x.as_str())),
        None => lines.push("  [--]  .xschemrc: no encontrado".to_string()),
    }
    let mut found = p.xschemrc.is_some();
    match &p.pdk_symbols {
        Some((path, exists)) => {
            if *exists {
                found = true;
                lines.push(concat_str("  [ok]  $PDK_ROOT/$PDK → ", path.as_str()));
            } else {
                lines.push(
                    concat_str(
                        "  [!]  $PDK_ROOT/$PDK configurado pero ruta no encontrada: ",
                        path.as_str(),
                    ),
                );
            }
        },
        None => lines.push("  [--]  $PDK_ROOT / $PDK: no configurados".to_string()),
    }
    match &p.tools_devices {
        Some((path, exists)) => {
            if *exists {
                found = true;
                lines.push(concat_str("  [ok]  $TOOLS → ", path.as_str()));
            } else {
                lines.push(
                    concat_str("  [!]  $TOOLS configurado pero devices no encontrado: ", path.as_str()),
                );
            }
        },
        None => lines.push("  [--]  $TOOLS: no configurado".to_string()),
    }
    assert(found == has_symbols(*p));
    let ghost seven = texts(lines@);
    if !found {
        lines.push(
            "  [!]  Sin fuente de símbolos — los componentes se renderizarán como cajas vacías".to_string(),
        );
    } else {
        assert(texts(lines@) =~= seven + Seq::<Seq<char>>::empty());
    }
    assert(texts(lines@) =~= probe_lines(*p));
    lines
}

fn drivers_text(ds: &Vec<DriverStatus>) -> (r: Vec<String>)
    ensures
        texts(r@) == driver_lines(ds@),
{
    let mut lines: Vec<String> = Vec::new();
    let mut i: usize = 0;
    assert(texts(lines@) =~= driver_lines(ds@.take(0)));
    while i < ds.len()
        invariant
            i <= ds@.len(),
            texts(lines@) == driver_lines(ds@.take(i as int)),
        decreases ds@.len() - i,
    {
        let d = &ds[i];
        let status = if d.available {
            "[ok]"
        } else {
            "[x]"
        };
        let a = concat_str("  ", status);
        let b = concat_str(a.as_str(), "  ");
        let c = concat_str(b.as_str(), pad_right_text(d.name.as_str(), 10).as_str());
        let e = concat_str(c.as_str(), " ");
        let line = concat_str(e.as_str(), d.version.as_str());
        assert(ds@.take(i + 1).drop_last() =~= ds@.take(i as int));
        lines.push(line);
        i = i + 1;
    }
    assert(ds@.take(ds@.len() as int) =~= ds@);
    lines
}

fn system_text(p: &DoctorProbe) -> (r: Vec<String>)
    ensures
        texts(r@) == system_lines(*p),
{
    let mut lines: Vec<String> = Vec::new();
    lines.push("\n--- Sistema ---".to_string());
    if p.cache_ok {
        lines.push(concat_str("  [ok]  Caché: ", p.cache_dir.as_str()));
    } else {
        lines.push(concat_str("  [x]  Caché: no accesible en ", p.cache_dir.as_str()));
    }
    lines.push(String::new());
    if p.cache_ok {
        lines.push("Entorno listo.\n".to_string());
    }
    assert(texts(lines@) =~= system_lines(*p));
    lines
}

/// The lines of `riku doctor`, and how it ends: an error exactly when the
/// cache directory is unusable.
pub fn doctor_report(p: &DoctorProbe) -> (r: (Vec<String>, Result<(), String>))
    ensures
        texts(r.0@) == doctor_lines(*p),
        match r.1 {
            Ok(()) => p.cache_ok,
            Err(m) => !p.cache_ok && m@ == doctor_failure(),
        },
{
    let mut lines = probe_text(p);
    lines.push("\n--- Drivers ---".to_string());
    append_lines(&mut lines, drivers_text(&p.drivers));
    append_lines(&mut lines, system_text(p));
    if p.cache_ok {
        (lines, Ok(()))
    } else {
        (lines, Err("Se detectaron problemas críticos en el entorno.".to_string()))
    }
}

} // verus!
