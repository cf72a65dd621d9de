use std::collections::HashMap;

use riku::git_types::{
    read_blob_lenient, read_blob_silent, ChangedFile, CommitInfo, GitError, GitRepository,
};

struct MockRepo {
    responses: HashMap<(String, String), Result<Vec<u8>, GitError>>,
}

impl MockRepo {
    fn new() -> Self {
        Self { responses: HashMap::new() }
    }
    fn set(&mut self, commit: &str, path: &str, result: Result<Vec<u8>, GitError>) {
        self.responses.insert((commit.to_string(), path.to_string()), result);
    }
}

impl GitRepository for MockRepo {
    fn get_blob(&self, commit: &str, path: &str) -> Result<Vec<u8>, GitError> {
        match self.responses.get(&(commit.to_string(), path.to_string())) {
            Some(Ok(bytes)) => Ok(bytes.clone()),
            Some(Err(GitError::BlobNotFound { commit, path })) => Err(GitError::BlobNotFound {
                commit: commit.clone(),
                path: path.clone(),
            }),
            Some(Err(GitError::LargeBlob { path, size })) => Err(GitError::LargeBlob {
                path: path.clone(),
                size: *size,
            }),
            Some(Err(GitError::CommitNotFound(s))) => Err(GitError::CommitNotFound(s.clone())),
            Some(Err(_)) | None => Err(GitError::CommitNotFound("mock-default".to_string())),
        }
    }
    fn get_commits(&self, _: Option<&str>) -> Result<Vec<CommitInfo>, GitError> {
        Ok(Vec::new())
    }
    fn get_changed_files(&self, _: &str, _: &str) -> Result<Vec<ChangedFile>, GitError> {
        Ok(Vec::new())
    }
}

#[test]
fn lenient_ok_devuelve_some_sin_warning() {
    let mut repo = MockRepo::new();
    repo.set("HEAD", "a.sch", Ok(b"hello".to_vec()));
    let mut warnings = Vec::new();
    let out = read_blob_lenient(&repo, "HEAD", "a.sch", &mut warnings).unwrap();
    assert_eq!(out.as_deref(), Some(&b"hello"[..]));
    assert!(warnings.is_empty());
}

#[test]
fn lenient_blob_not_found_devuelve_none_sin_warning() {
    let mut repo = MockRepo::new();
    repo.set(
        "HEAD",
        "a.sch",
        Err(GitError::BlobNotFound { commit: "HEAD".into(), path: "a.sch".into() }),
    );
    let mut warnings = Vec::new();
    let out = read_blob_lenient(&repo, "HEAD", "a.sch", &mut warnings).unwrap();
    assert!(out.is_none());
    assert!(warnings.is_empty());
}

#[test]
fn lenient_large_blob_devuelve_none_con_warning() {
    let mut repo = MockRepo::new();
    repo.set("HEAD", "big.gds", Err(GitError::LargeBlob { path: "big.gds".into(), size: 99_000_000 }));
    let mut warnings = Vec::new();
    let out = read_blob_lenient(&repo, "HEAD", "big.gds", &mut warnings).unwrap();
    assert!(out.is_none());
    assert_eq!(warnings.len(), 1);
    assert!(warnings[0].contains("99000000"));
    assert!(warnings[0].contains("big.gds"));
}

#[test]
fn lenient_otro_error_se_propaga() {
    let mut repo = MockRepo::new();
    repo.set("HEAD", "x.sch", Err(GitError::CommitNotFound("HEAD".into())));
    let mut warnings = Vec::new();
    let result = read_blob_lenient(&repo, "HEAD", "x.sch", &mut warnings);
    assert!(matches!(result, Err(GitError::CommitNotFound(_))));
    assert!(warnings.is_empty());
}

#[test]
fn silent_ok_devuelve_bytes_sin_warning() {
    let mut repo = MockRepo::new();
    repo.set("HEAD", "a.sch", Ok(b"data".to_vec()));
    let mut warnings = Vec::new();
    let out = read_blob_silent(&repo, "HEAD", "a.sch", &mut warnings);
    assert_eq!(out, b"data".to_vec());
    assert!(warnings.is_empty());
}

#[test]
fn silent_blob_not_found_devuelve_vacio_sin_warning() {
    let mut repo = MockRepo::new();
    repo.set(
        "HEAD",
        "a.sch",
        Err(GitError::BlobNotFound { commit: "HEAD".into(), path: "a.sch".into() }),
    );
    let mut warnings = Vec::new();
    let out = read_blob_silent(&repo, "HEAD", "a.sch", &mut warnings);
    assert!(out.is_empty());
    assert!(warnings.is_empty());
}

#[test]
fn silent_otro_error_devuelve_vacio_con_warning() {
    let mut repo = MockRepo::new();
    repo.set("HEAD", "a.sch", Err(GitError::CommitNotFound("HEAD".into())));
    let mut warnings = Vec::new();
    let out = read_blob_silent(&repo, "HEAD", "a.sch", &mut warnings);
    assert!(out.is_empty());
    assert_eq!(warnings.len(), 1);
    assert!(warnings[0].contains("a.sch"));
    assert!(warnings[0].contains("HEAD"));
}

#[test]
fn lenient_large_blob_warning_text() {
    let mut repo = MockRepo::new();
    repo.set("c1", "big.gds", Err(GitError::LargeBlob { path: "big.gds".into(), size: 7 }));
    let mut warnings = vec!["antes".to_string()];
    let out = read_blob_lenient(&repo, "c1", "big.gds", &mut warnings).unwrap();
    assert!(out.is_none());
    assert_eq!(warnings, vec!["antes".to_string(), "big.gds (7 bytes) demasiado grande; omitiendo.".to_string()]);
}

#[test]
fn silent_warning_text_and_error_messages() {
    let mut repo = MockRepo::new();
    repo.set("HEAD", "a.sch", Err(GitError::CommitNotFound("HEAD".into())));
    let mut warnings = Vec::new();
    let _ = read_blob_silent(&repo, "HEAD", "a.sch", &mut warnings);
    assert_eq!(warnings, vec!["a.sch en HEAD: commit no encontrado: HEAD".to_string()]);
    assert_eq!(
        riku::git_types::git_error_message(&GitError::BlobNotFound { commit: "c".into(), path: "p".into() }),
        "archivo no encontrado en commit c: p"
    );
    assert_eq!(
        riku::git_types::git_error_message(&GitError::LargeBlob { path: "p".into(), size: 12 }),
        "blob demasiado grande (12 bytes) en p"
    );
}
