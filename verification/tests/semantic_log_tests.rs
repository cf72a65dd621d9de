use std::collections::HashMap;

use riku::format::format_log_line;
use riku::git_types::{ChangedFile, CommitInfo, GitError, GitRepository};
use riku::semantic_log::{log_lines, note_for};

struct Blobs(HashMap<(String, String), Vec<u8>>);

impl GitRepository for Blobs {
    fn get_blob(&self, commit_ish: &str, file_path: &str) -> Result<Vec<u8>, GitError> {
        self.0
            .get(&(commit_ish.to_string(), file_path.to_string()))
            .cloned()
            .ok_or_else(|| GitError::BlobNotFound { commit: commit_ish.to_string(), path: file_path.to_string() })
    }
    fn get_commits(&self, _: Option<&str>) -> Result<Vec<CommitInfo>, GitError> {
        Ok(Vec::new())
    }
    fn get_changed_files(&self, _: &str, _: &str) -> Result<Vec<ChangedFile>, GitError> {
        Ok(Vec::new())
    }
}

fn commit(oid: &str, message: &str) -> CommitInfo {
    CommitInfo {
        oid: oid.to_string(),
        short_id: oid.to_string(),
        message: message.to_string(),
        author: "ana".to_string(),
        timestamp: 0,
    }
}

const V1: &str = "v {xschem version=3.4.7 file_version=1.2}\nC {res.sym} 0 0 0 0 {name=R1 value=1k}\n";
const V2: &str = "v {xschem version=3.4.7 file_version=1.2}\nC {res.sym} 0 0 0 0 {name=R1 value=2k}\nC {cap.sym} 10 0 0 0 {name=C1}\n";

fn repo() -> Blobs {
    let mut m = HashMap::new();
    m.insert(("c1".to_string(), "top.sch".to_string()), V1.as_bytes().to_vec());
    m.insert(("c2".to_string(), "top.sch".to_string()), V2.as_bytes().to_vec());
    Blobs(m)
}

#[test]
fn log_pairs_each_commit_with_its_predecessor() {
    // Newest first: c2 follows c1.
    let commits = vec![commit("c2", "second"), commit("c1", "first")];
    let lines = log_lines(&repo(), &commits, Some("top.sch"), 10, true);
    let note = note_for(V1.as_bytes(), V2.as_bytes(), "top.sch").unwrap();
    assert_eq!(
        lines,
        vec![
            format_log_line("c2", "ana", "second"),
            note,
            format_log_line("c1", "ana", "first"),
        ]
    );
}

#[test]
fn log_without_semantic_or_over_the_limit() {
    let commits = vec![commit("c2", "second"), commit("c1", "first")];
    let plain = log_lines(&repo(), &commits, Some("top.sch"), 10, false);
    assert_eq!(plain.len(), 2);
    let one = log_lines(&repo(), &commits, Some("top.sch"), 1, true);
    assert_eq!(one.len(), 2);
    assert_eq!(one[0], format_log_line("c2", "ana", "second"));
    let no_file = log_lines(&repo(), &commits, None, 10, true);
    assert_eq!(no_file.len(), 2);
    assert_eq!(log_lines(&repo(), &Vec::new(), None, 10, true), vec!["Sin commits encontrados.".to_string()]);
}

#[test]
fn a_note_counts_the_changes() {
    assert_eq!(note_for(V1.as_bytes(), V1.as_bytes(), "top.sch"), None);
    let n = note_for(V1.as_bytes(), V2.as_bytes(), "top.sch").unwrap();
    assert!(n.contains("+1") && n.contains("~1"));
}
