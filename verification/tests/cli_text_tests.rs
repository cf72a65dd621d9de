use riku::diff_view::DiffViewError;
use riku::git_types::git_error_message;
use riku::status::StatusError;
use riku::doctor::{doctor_report, pdk_symbols_dir, tools_devices_dir, DoctorProbe, DriverStatus};
use riku::driver::DiffEntry;
use riku::format::{format_log_line, format_log_note, pad_right_text, summarize_changes};
use riku::git_types::{classify_status, large_blob_error, short_oid, ChangeStatus, GitError};
use riku::models::ChangeKind;
use riku::shell::{file_name, has_sch_extension, ls_listing, prompt, shell_status_line, LsEntry};
use riku::xschem_driver::xschem_version;

fn probe(cache_ok: bool) -> DoctorProbe {
    DoctorProbe {
        repo_dir: Some("/w".to_string()),
        xschemrc: None,
        pdk_symbols: Some(("/pdk/sky130A/libs.tech/xschem".to_string(), false)),
        tools_devices: None,
        drivers: vec![DriverStatus { name: "xschem".into(), available: true, version: "XSCHEM V3.4.7".into() }],
        cache_dir: "/c/riku".to_string(),
        cache_ok,
    }
}

#[test]
fn doctor_lines_and_outcome() {
    let (lines, outcome) = doctor_report(&probe(true));
    assert_eq!(
        lines,
        vec![
            "\nRiku Doctor — Diagnóstico del Entorno\n",
            "--- Repositorio Git ---",
            "  [ok]  /w",
            "\n--- PDK ---",
            "  [--]  .xschemrc: no encontrado",
            "  [!]  $PDK_ROOT/$PDK configurado pero ruta no encontrada: /pdk/sky130A/libs.tech/xschem",
            "  [--]  $TOOLS: no configurado",
            "  [!]  Sin fuente de símbolos — los componentes se renderizarán como cajas vacías",
            "\n--- Drivers ---",
            "  [ok]  xschem     XSCHEM V3.4.7",
            "\n--- Sistema ---",
            "  [ok]  Caché: /c/riku",
            "",
            "Entorno listo.\n",
        ]
    );
    assert!(outcome.is_ok());
}

#[test]
fn doctor_fails_without_a_cache() {
    let mut p = probe(false);
    p.xschemrc = Some("/home/u/.xschemrc".into());
    p.repo_dir = None;
    let (lines, outcome) = doctor_report(&p);
    assert_eq!(outcome, Err("Se detectaron problemas críticos en el entorno.".to_string()));
    assert_eq!(lines[2], "  [!]  No detectado — diff/log no funcionarán");
    assert!(!lines.iter().any(|l| l.contains("Sin fuente de símbolos")));
    assert_eq!(lines[lines.len() - 2], "  [x]  Caché: no accesible en /c/riku");
    assert_eq!(lines[lines.len() - 1], "");
}

#[test]
fn symbol_directories() {
    assert_eq!(pdk_symbols_dir("/opt/pdk", "sky130A"), "/opt/pdk/sky130A/libs.tech/xschem");
    assert_eq!(pdk_symbols_dir("/opt/pdk/", "/abs"), "/abs/libs.tech/xschem");
    assert_eq!(tools_devices_dir("/tools"), "/tools/xschem/share/xschem/xschem_library/devices");
}

#[test]
fn log_lines() {
    assert_eq!(pad_right_text("ab", 4), "ab  ");
    assert_eq!(pad_right_text("abcdef", 4), "abcdef");
    assert_eq!(
        format_log_line("abc1234", "Ana", "fix"),
        "abc1234  Ana                   fix"
    );
    let long = "x".repeat(70);
    let line = format_log_line("a", "b", &long);
    assert!(line.ends_with(&"x".repeat(60)));
    assert_eq!(line.chars().count(), 1 + 2 + 20 + 2 + 60);
    assert_eq!(format_log_note(0, 0, 0), None);
    assert_eq!(format_log_note(2, 0, 1), Some("           +2  ~1".to_string()));
    assert_eq!(format_log_note(0, 3, 0), Some("           -3".to_string()));
}

#[test]
fn summarize_changes_counts_by_kind() {
    let e = |kind| DiffEntry { kind, element: "x".into(), before: None, after: None, cosmetic: false, position_changed: false };
    let changes = vec![e(ChangeKind::Added), e(ChangeKind::Modified), e(ChangeKind::Added), e(ChangeKind::Removed)];
    assert_eq!(summarize_changes(&changes), (2, 1, 1));
    assert_eq!(summarize_changes(&[]), (0, 0, 0));
}

#[test]
fn version_of_the_tool() {
    assert_eq!(xschem_version(b"foo\n  XSCHEM V3.4.7 \nbar\n"), "XSCHEM V3.4.7");
    assert_eq!(xschem_version(b"nothing here"), "unknown");
    assert_eq!(xschem_version(b""), "unknown");
}

#[test]
fn git_adapter_rules() {
    assert_eq!(short_oid("0123456789abcdef"), "0123456");
    assert_eq!(short_oid("abc"), "abc");
    assert_eq!(classify_status(true, true, true, Some("old".into())), (ChangeStatus::Renamed, Some("old".to_string())));
    assert_eq!(classify_status(false, true, true, Some("old".into())), (ChangeStatus::Removed, None));
    assert_eq!(classify_status(false, true, false, None), (ChangeStatus::Added, None));
    assert_eq!(classify_status(false, false, false, None), (ChangeStatus::Modified, None));
    assert!(large_blob_error("a", 52428800).is_none());
    assert!(matches!(
        large_blob_error("a", 52428801),
        Some(GitError::LargeBlob { size: 52428801, .. })
    ));
}

#[test]
fn listing_sorts_and_tags() {
    let e = |name: &str, is_dir: bool, in_git: bool| LsEntry { name: name.into(), is_dir, in_git };
    let lines = ls_listing(vec![
        e("z.sch", false, true),
        e("notes.txt", false, true),
        e("sub", true, true),
        e("a.sch", false, false),
        e(".sch", false, true),
    ]);
    assert_eq!(lines, vec!["", "      sub/", "         a.sch", "  [git]  z.sch", ""]);
    assert_eq!(ls_listing(vec![e("readme", false, false)]), vec!["", "  (sin archivos .sch ni subdirectorios)", ""]);
    assert!(has_sch_extension("a.sch"));
    assert!(!has_sch_extension(".sch"));
    assert!(!has_sch_extension("a.sym"));
}

#[test]
fn prompt_and_banner() {
    assert_eq!(prompt("/home/u/proj", true), "riku proj (git)> ");
    assert_eq!(prompt("/home/u/proj/", false), "riku proj> ");
    assert_eq!(prompt("/", false), "riku /> ");
    assert_eq!(file_name("/a/b"), Some("b".to_string()));
    assert_eq!(file_name("/a/.."), None);
    assert_eq!(file_name("rel"), Some("rel".to_string()));
    assert_eq!(
        shell_status_line("0.1.0", Some("sky130A"), None),
        "  v0.1.0  ·  PDK: sky130A [ok]  ·  repo: no encontrado"
    );
    assert_eq!(
        shell_status_line("0.1.0", None, Some("/w")),
        "  v0.1.0  ·  PDK: no detectado  ·  /w"
    );
}

#[test]
fn invalid_utf8_reads_as_replacement_characters() {
    assert_eq!(xschem_version(b"\xff XSCHEM V1\n"), "\u{FFFD} XSCHEM V1");
    let s = riku::parser::parse(b"v {xschem version=3.4.7}\nC {r.sym} 0 0 0 0 {name=R\xff1}\n");
    assert!(s.components.contains_key("R\u{FFFD}1"));
}

#[test]
fn error_messages() {
    assert_eq!(
        git_error_message(&GitError::RepositoryNotFound("/x".into())),
        "no se encontro un repo Git desde /x"
    );
    assert_eq!(
        DiffViewError::Git(GitError::CommitNotFound("abc".into())).message(),
        "commit no encontrado: abc"
    );
    assert_eq!(StatusError::Git(GitError::CommitNotFound("HEAD".into())).message(), "commit no encontrado: HEAD");
}
