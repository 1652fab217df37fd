use slopwrap::overlay::{
    apply_entry, categorize_changes, opaque_from_xattr, overlay_dirs, sort_by_path,
    whiteout_from_stat, Change, FsOp, LinkStat, TargetState, UpperEntry,
};

fn file(rel: &str, in_repo: bool) -> UpperEntry {
    UpperEntry { rel: rel.to_string(), whiteout: false, is_dir: false, opaque: false, in_repo }
}

fn dir(rel: &str, opaque: bool, in_repo: bool) -> UpperEntry {
    UpperEntry { rel: rel.to_string(), whiteout: false, is_dir: true, opaque, in_repo }
}

fn whiteout(rel: &str) -> UpperEntry {
    UpperEntry { rel: rel.to_string(), whiteout: true, is_dir: false, opaque: false, in_repo: true }
}

#[test]
fn overlay_dirs_layout() {
    let dirs = overlay_dirs("/tmp/base");
    assert_eq!(dirs.upperdir, "/tmp/base/upper");
    assert_eq!(dirs.workdir, "/tmp/base/work");
    let dirs = overlay_dirs("/tmp/base/");
    assert_eq!(dirs.upperdir, "/tmp/base/upper");
}

#[test]
fn categorize_empty_upperdir_no_changes() {
    let changes = categorize_changes(&vec![]);
    assert!(changes.is_empty());
}

#[test]
fn categorize_added_file() {
    let changes = categorize_changes(&vec![file("newfile.txt", false)]);
    assert_eq!(changes, vec![Change::Added("newfile.txt".to_string())]);
}

#[test]
fn categorize_modified_file() {
    let changes = categorize_changes(&vec![file("existing.txt", true)]);
    assert_eq!(changes, vec![Change::Modified("existing.txt".to_string())]);
}

#[test]
fn categorize_whiteout_and_dirs() {
    let entries = vec![
        dir("a", false, true),
        file("a/x.txt", false),
        whiteout("gone.txt"),
        dir("fresh", true, false),
        dir("replaced", true, true),
    ];
    let changes = categorize_changes(&entries);
    assert_eq!(
        changes,
        vec![
            Change::Added("a/x.txt".to_string()),
            Change::Deleted("gone.txt".to_string()),
            Change::Deleted("replaced".to_string()),
            Change::Added("replaced".to_string()),
        ]
    );
}

#[test]
fn categorize_sorts_by_components() {
    // "a/b" sorts before "a.txt" as paths, though not as strings.
    let entries = vec![file("a.txt", false), file("a/b", true), file("B", false)];
    let changes = categorize_changes(&entries);
    assert_eq!(
        changes,
        vec![
            Change::Added("B".to_string()),
            Change::Modified("a/b".to_string()),
            Change::Added("a.txt".to_string()),
        ]
    );
}

#[test]
fn sort_keeps_order_of_same_path() {
    let v = vec![
        Change::Deleted("z".to_string()),
        Change::Added("z/".to_string()),
        Change::Modified("a".to_string()),
    ];
    let sorted = sort_by_path(v);
    assert_eq!(
        sorted,
        vec![
            Change::Modified("a".to_string()),
            Change::Deleted("z".to_string()),
            Change::Added("z/".to_string()),
        ]
    );
}

#[test]
fn whiteout_detection() {
    let chr = |rdev| Some(LinkStat { is_char_device: true, rdev });
    assert!(whiteout_from_stat(chr(0)));
    assert!(!whiteout_from_stat(chr(1)));
    // A device number whose only set bits belong to the major number.
    assert!(!whiteout_from_stat(chr(1 << 8)));
    assert!(!whiteout_from_stat(chr(1 << 40)));
    assert!(!whiteout_from_stat(None));
    // Not a character device itself: a regular file, or a link to one.
    assert!(!whiteout_from_stat(Some(LinkStat { is_char_device: false, rdev: 0 })));
}

#[test]
fn opaque_detection() {
    assert!(opaque_from_xattr(1, b'y'));
    assert!(!opaque_from_xattr(1, b'n'));
    assert!(!opaque_from_xattr(-1, b'y'));
    assert!(!opaque_from_xattr(2, b'y'));
}

#[test]
fn apply_new_file() {
    let ops = apply_entry("/up", "/repo", &file("new.txt", false), TargetState::Missing);
    assert_eq!(
        ops,
        vec![FsOp::CopyFile { from: "/up/new.txt".to_string(), to: "/repo/new.txt".to_string() }]
    );
}

#[test]
fn apply_modified_file() {
    let ops = apply_entry("/up", "/repo", &file("f.txt", true), TargetState::NotDir);
    assert_eq!(
        ops,
        vec![FsOp::CopyFile { from: "/up/f.txt".to_string(), to: "/repo/f.txt".to_string() }]
    );
}

#[test]
fn apply_nested_file() {
    let ops = apply_entry("/up", "/repo", &dir("a/b", false, false), TargetState::Missing);
    assert_eq!(ops, vec![FsOp::CreateDirAll("/repo/a/b".to_string())]);
    let ops = apply_entry("/up", "/repo", &file("a/b/c.txt", false), TargetState::Missing);
    assert_eq!(
        ops,
        vec![FsOp::CopyFile {
            from: "/up/a/b/c.txt".to_string(),
            to: "/repo/a/b/c.txt".to_string()
        }]
    );
}

#[test]
fn apply_whiteouts_and_opaque_dirs() {
    let w = whiteout("old");
    assert_eq!(apply_entry("/up", "/repo", &w, TargetState::Dir), vec![FsOp::RemoveDirAll(
        "/repo/old".to_string()
    )]);
    assert_eq!(apply_entry("/up", "/repo", &w, TargetState::NotDir), vec![FsOp::RemoveFile(
        "/repo/old".to_string()
    )]);
    assert!(apply_entry("/up", "/repo", &w, TargetState::Missing).is_empty());
    let o = dir("d", true, true);
    assert_eq!(
        apply_entry("/up", "/repo", &o, TargetState::Dir),
        vec![FsOp::RemoveDirAll("/repo/d".to_string()), FsOp::CreateDirAll("/repo/d".to_string())]
    );
    assert_eq!(apply_entry("/up", "/repo", &o, TargetState::Missing), vec![FsOp::CreateDirAll(
        "/repo/d".to_string()
    )]);
}

#[test]
fn apply_preserves_untouched_files() {
    let ops = apply_entry("/up", "/repo", &file("other.txt", false), TargetState::Missing);
    for op in &ops {
        let target = match op {
            FsOp::RemoveDirAll(p) | FsOp::RemoveFile(p) | FsOp::CreateDirAll(p) => p,
            FsOp::CopyFile { to, .. } => to,
        };
        assert_ne!(target, "/repo/untouched.txt");
        assert_eq!(target, "/repo/other.txt");
    }
}

// --- Property-based tests ---

fn arb_filename(u: &mut arbtest::arbitrary::Unstructured) -> arbtest::arbitrary::Result<String> {
    let len: usize = u.int_in_range(1..=12)?;
    let mut name = String::with_capacity(len);
    for _ in 0..len {
        let c = u.int_in_range(b'a'..=b'z')?;
        name.push(c as char);
    }
    name.push_str(".txt");
    Ok(name)
}

fn arb_file_tree(
    u: &mut arbtest::arbitrary::Unstructured,
) -> arbtest::arbitrary::Result<Vec<(String, String)>> {
    let count: usize = u.int_in_range(0..=8)?;
    let mut files = Vec::new();
    let mut seen = std::collections::HashSet::new();
    for _ in 0..count {
        let depth: usize = u.int_in_range(0..=2)?;
        let mut path_parts = Vec::new();
        for _ in 0..depth {
            let len: usize = u.int_in_range(1..=4)?;
            let mut dir = String::from("d_");
            for _ in 0..len {
                let c = u.int_in_range(b'a'..=b'z')?;
                dir.push(c as char);
            }
            path_parts.push(dir);
        }
        path_parts.push(arb_filename(u)?);
        let path = path_parts.join("/");
        if !seen.insert(path.clone()) {
            continue;
        }
        let content_len: usize = u.int_in_range(0..=32)?;
        let mut content = String::with_capacity(content_len);
        for _ in 0..content_len {
            let c = u.int_in_range(b'a'..=b'z')?;
            content.push(c as char);
        }
        files.push((path, content));
    }
    Ok(files)
}

type Files = std::collections::BTreeMap<String, String>;

/// Carry out operations on a model of the repository's files (path to
/// contents), reading copied files from a model of the upper directory.
fn perform(repo: &mut Files, upper: &Files, ops: Vec<FsOp>) {
    for op in ops {
        match op {
            FsOp::CopyFile { from, to } => {
                let rel = from.strip_prefix("/up/").unwrap();
                let content = upper[rel].clone();
                repo.insert(to.strip_prefix("/repo/").unwrap().to_string(), content);
            }
            FsOp::CreateDirAll(_) => {}
            FsOp::RemoveFile(p) => {
                repo.remove(p.strip_prefix("/repo/").unwrap());
            }
            FsOp::RemoveDirAll(p) => {
                let rel = p.strip_prefix("/repo/").unwrap().to_string();
                repo.retain(|k, _| k != &rel && !k.starts_with(&format!("{rel}/")));
            }
        }
    }
}

/// Apply an upper directory of plain files to the repository model.
fn apply_model(repo: &mut Files, upper: &Files) {
    for rel in upper.keys() {
        let state = if repo.contains_key(rel) { TargetState::NotDir } else { TargetState::Missing };
        let ops = apply_entry("/up", "/repo", &file(rel, repo.contains_key(rel)), state);
        perform(repo, upper, ops);
    }
}

fn files(v: &[(String, String)]) -> Files {
    v.iter().cloned().collect()
}

#[test]
fn prop_apply_produces_merged_state() {
    arbtest::arbtest(|u| {
        let repo_files = arb_file_tree(u)?;
        let upper_files = arb_file_tree(u)?;
        let mut repo = files(&repo_files);
        apply_model(&mut repo, &files(&upper_files));
        let mut expected = files(&repo_files);
        for (p, c) in &upper_files {
            expected.insert(p.clone(), c.clone());
        }
        assert_eq!(repo, expected);
        Ok(())
    });
}

#[test]
fn prop_apply_then_no_changes() {
    arbtest::arbtest(|u| {
        let repo_files = arb_file_tree(u)?;
        let upper_files = arb_file_tree(u)?;
        let mut repo = files(&repo_files);
        apply_model(&mut repo, &files(&upper_files));
        let entries: Vec<UpperEntry> =
            upper_files.iter().map(|(p, _)| file(p, repo.contains_key(p))).collect();
        let changes = categorize_changes(&entries);
        for c in &changes {
            match c {
                Change::Added(p) => panic!("file {p:?} should exist in repo after apply"),
                Change::Deleted(_) => panic!("no whiteouts were created"),
                Change::Modified(_) => {}
            }
        }
        Ok(())
    });
}

#[test]
fn prop_untouched_files_preserved() {
    arbtest::arbtest(|u| {
        let repo_files = arb_file_tree(u)?;
        let upper_files = arb_file_tree(u)?;
        let before = files(&repo_files);
        let upper = files(&upper_files);
        let mut after = before.clone();
        apply_model(&mut after, &upper);
        for (path, content) in &before {
            if !upper.contains_key(path) {
                assert_eq!(after.get(path), Some(content), "untouched file {path:?} was modified");
            }
        }
        Ok(())
    });
}

#[test]
fn apply_contents_in_model() {
    let upper = files(&[
        ("new.txt".to_string(), "content".to_string()),
        ("f.txt".to_string(), "new".to_string()),
        ("a/b/c.txt".to_string(), "deep".to_string()),
    ]);
    let mut repo = files(&[
        ("f.txt".to_string(), "old".to_string()),
        ("untouched.txt".to_string(), "original".to_string()),
    ]);
    perform(&mut repo, &upper, apply_entry("/up", "/repo", &dir("a/b", false, false), TargetState::Missing));
    apply_model(&mut repo, &upper);
    assert_eq!(repo["new.txt"], "content");
    assert_eq!(repo["f.txt"], "new");
    assert_eq!(repo["a/b/c.txt"], "deep");
    assert_eq!(repo["untouched.txt"], "original");
    let mut gone = repo.clone();
    perform(&mut gone, &upper, apply_entry("/up", "/repo", &whiteout("a"), TargetState::Dir));
    assert!(!gone.contains_key("a/b/c.txt"));
    assert_eq!(gone["f.txt"], "new");
}
