use std::collections::HashMap;

use riku::git_types::{
    BranchInfo, ChangeStatus, ChangedFile, CommitInfo, GitError, GitRepository, WorkingChange,
};
use riku::status::{
    analyze_with_repo, get_driver_for, report_from_branch, report_from_changes, status_outcome, summarize_change, NoWorkingTree,
    StatusOutcome, WorkingTreeFiles,
};
use riku::summary::{DetailLevel, SummaryCategory};

/// A repository that only gives working tree changes and `HEAD` blobs.
struct MockRepo {
    changes: Vec<WorkingChange>,
    head_blobs: HashMap<String, Vec<u8>>,
    branch: Option<BranchInfo>,
}

impl GitRepository for MockRepo {
    fn get_blob(&self, _commit_ish: &str, file_path: &str) -> Result<Vec<u8>, GitError> {
        self.head_blobs.get(file_path).cloned().ok_or_else(|| GitError::BlobNotFound {
            commit: "HEAD".to_string(),
            path: file_path.to_string(),
        })
    }
    fn get_commits(&self, _file_path: Option<&str>) -> Result<Vec<CommitInfo>, GitError> {
        Ok(Vec::new())
    }
    fn get_changed_files(&self, _: &str, _: &str) -> Result<Vec<ChangedFile>, GitError> {
        Ok(Vec::new())
    }
    fn working_tree_changes(&self) -> Result<Vec<WorkingChange>, GitError> {
        Ok(self.changes.clone())
    }
    fn current_branch(&self) -> Result<Option<BranchInfo>, GitError> {
        Ok(self.branch.clone())
    }
}

#[test]
fn archivo_sin_driver_se_marca_unknown() {
    let repo = MockRepo {
        changes: vec![WorkingChange {
            path: "Makefile".to_string(),
            status: ChangeStatus::Modified,
            old_path: None,
        }],
        head_blobs: Default::default(),
        branch: None,
    };
    let report = analyze_with_repo(&repo, &NoWorkingTree {}).unwrap();
    assert_eq!(report.files.len(), 1);
    assert_eq!(report.files[0].category, SummaryCategory::Unknown);
    assert!(!report.has_semantic_changes());
}

#[test]
fn lista_se_ordena_por_path() {
    let repo = MockRepo {
        changes: vec![
            WorkingChange { path: "z.txt".into(), status: ChangeStatus::Modified, old_path: None },
            WorkingChange { path: "a.txt".into(), status: ChangeStatus::Modified, old_path: None },
        ],
        head_blobs: Default::default(),
        branch: None,
    };
    let report = analyze_with_repo(&repo, &NoWorkingTree {}).unwrap();
    assert_eq!(report.files[0].path, "a.txt");
    assert_eq!(report.files[1].path, "z.txt");
}

#[test]
fn rama_se_propaga_al_reporte() {
    let repo = MockRepo {
        changes: vec![],
        head_blobs: Default::default(),
        branch: Some(BranchInfo {
            name: "feature-amp".into(),
            head_oid: "0".repeat(40),
            head_short: "0000000".into(),
            upstream: None,
            ahead: 0,
            behind: 0,
        }),
    };
    let report = analyze_with_repo(&repo, &NoWorkingTree {}).unwrap();
    assert_eq!(report.branch.as_ref().map(|b| b.name.as_str()), Some("feature-amp"));
}

// ── more cases ──

struct Disk(HashMap<String, Result<Vec<u8>, String>>);

impl WorkingTreeFiles for Disk {
    fn read_file(&self, rel_path: &str) -> Result<Vec<u8>, String> {
        match self.0.get(rel_path) {
            Some(r) => r.clone(),
            None => Err(format!("no se pudo leer {rel_path}")),
        }
    }
}

const V1: &str = "v {xschem version=3.4.7 file_version=1.2}\nC {res.sym} 0 0 0 0 {name=R1 value=1k}\n";
const V2: &str = "v {xschem version=3.4.7 file_version=1.2}\nC {res.sym} 0 0 0 0 {name=R1 value=2k}\n";

#[test]
fn drivers_by_extension() {
    assert!(get_driver_for("a/b/top.sch").is_some());
    assert!(get_driver_for("top.sym").is_none());
    assert!(get_driver_for("sch").is_none());
}

#[test]
fn status_reads_head_and_disk() {
    let mut head = HashMap::new();
    head.insert("top.sch".to_string(), V1.as_bytes().to_vec());
    head.insert("same.sch".to_string(), V1.as_bytes().to_vec());
    let repo = MockRepo {
        changes: vec![
            WorkingChange { path: "top.sch".into(), status: ChangeStatus::Modified, old_path: None },
            WorkingChange { path: "same.sch".into(), status: ChangeStatus::Modified, old_path: None },
            WorkingChange { path: "gone.sch".into(), status: ChangeStatus::Modified, old_path: None },
        ],
        head_blobs: head,
        branch: None,
    };
    let mut disk = HashMap::new();
    disk.insert("top.sch".to_string(), Ok(V2.as_bytes().to_vec()));
    disk.insert("same.sch".to_string(), Ok(V1.as_bytes().to_vec()));
    let report = analyze_with_repo(&repo, &Disk(disk)).unwrap();
    assert_eq!(report.files.len(), 3);
    assert_eq!(report.files[0].path, "gone.sch");
    // Not in HEAD (empty, not Xschem) and unreadable on disk.
    assert_eq!(report.files[0].category, SummaryCategory::Unchanged);
    assert_eq!(report.files[1].path, "same.sch");
    assert_eq!(report.files[1].category, SummaryCategory::Unchanged);
    assert_eq!(report.files[2].path, "top.sch");
    assert_eq!(report.files[2].category, SummaryCategory::Semantic);
    assert_eq!(report.warnings, vec!["gone.sch: no se pudo leer gone.sch".to_string()]);
    assert!(report.has_semantic_changes());
    assert_eq!(status_outcome(&report), StatusOutcome::Dirty);
    assert_eq!(report.count_by_category(SummaryCategory::Unchanged), 2);
}

struct Failing;

impl GitRepository for Failing {
    fn get_blob(&self, _: &str, path: &str) -> Result<Vec<u8>, GitError> {
        if path == "big.sch" {
            Err(GitError::LargeBlob { path: path.to_string(), size: 60000000 })
        } else {
            Err(GitError::CommitNotFound("HEAD".to_string()))
        }
    }
    fn get_commits(&self, _: Option<&str>) -> Result<Vec<CommitInfo>, GitError> {
        Ok(Vec::new())
    }
    fn get_changed_files(&self, _: &str, _: &str) -> Result<Vec<ChangedFile>, GitError> {
        Ok(Vec::new())
    }
}

#[test]
fn head_errors_become_an_error_summary_or_a_warning() {
    let mut warnings = Vec::new();
    let change = WorkingChange { path: "x.sch".into(), status: ChangeStatus::Modified, old_path: None };
    let s = summarize_change(&Failing, &NoWorkingTree {}, &change, DetailLevel::Resumen, &mut warnings);
    assert_eq!(s.category, SummaryCategory::Error);
    assert_eq!(s.errors, vec!["commit no encontrado: HEAD".to_string()]);
    assert!(warnings.is_empty());

    let big = WorkingChange { path: "big.sch".into(), status: ChangeStatus::Modified, old_path: None };
    let s = summarize_change(&Failing, &NoWorkingTree {}, &big, DetailLevel::Resumen, &mut warnings);
    assert_eq!(s.category, SummaryCategory::Unchanged);
    assert_eq!(
        warnings,
        vec!["big.sch (60000000 bytes) demasiado grande en HEAD; se asume vacío.".to_string()]
    );

    // An added file is not looked up at HEAD.
    let added = WorkingChange { path: "x.sch".into(), status: ChangeStatus::Added, old_path: None };
    let s = summarize_change(&Failing, &NoWorkingTree {}, &added, DetailLevel::Resumen, &mut warnings);
    assert_eq!(s.category, SummaryCategory::Unchanged);
}

#[test]
fn clean_when_nothing_semantic() {
    let repo = MockRepo { changes: vec![], head_blobs: Default::default(), branch: None };
    let report = analyze_with_repo(&repo, &NoWorkingTree {}).unwrap();
    assert_eq!(status_outcome(&report), StatusOutcome::Clean);
    assert!(report.files.is_empty() && report.warnings.is_empty());
}

#[test]
fn report_from_listed_changes() {
    let repo = MockRepo { changes: vec![], head_blobs: Default::default(), branch: None };
    let err = report_from_changes(&repo, &NoWorkingTree {}, None, Err(GitError::CommitNotFound("HEAD".into())), DetailLevel::Resumen);
    assert!(matches!(err, Err(riku::status::StatusError::Git(GitError::CommitNotFound(_)))));
    let changes = vec![
        WorkingChange { path: "b.txt".into(), status: ChangeStatus::Added, old_path: None },
        WorkingChange { path: "a.sch".into(), status: ChangeStatus::Added, old_path: None },
    ];
    let rep = report_from_changes(&repo, &NoWorkingTree {}, None, Ok(changes), DetailLevel::Resumen).unwrap();
    assert_eq!(rep.files.len(), 2);
    assert_eq!(rep.files[0].path, "a.sch");
    assert_eq!(rep.files[1].path, "b.txt");
}

#[test]
fn a_failed_branch_read_is_the_git_error() {
    let repo = MockRepo {
        changes: vec![WorkingChange { path: "a.sch".to_string(), status: ChangeStatus::Added, old_path: None }],
        head_blobs: Default::default(),
        branch: None,
    };
    let r = report_from_branch(&repo, &NoWorkingTree {}, Err(GitError::CommitNotFound("HEAD".to_string())), DetailLevel::Resumen);
    match r {
        Err(riku::status::StatusError::Git(GitError::CommitNotFound(c))) => assert_eq!(c, "HEAD"),
        _ => panic!("expected the Git error"),
    }
    let ok = report_from_branch(&repo, &NoWorkingTree {}, Ok(None), DetailLevel::Resumen).unwrap();
    assert!(ok.branch.is_none());
    assert_eq!(ok.files.len(), 1);
}
