use slopwrap::diff::{decimal_text, diff_jobs, summarize, ChangeKind};
use slopwrap::overlay::{categorize_changes, Change, UpperEntry};

fn file(rel: &str, in_repo: bool) -> UpperEntry {
    UpperEntry { rel: rel.to_string(), whiteout: false, is_dir: false, opaque: false, in_repo }
}

fn whiteout(rel: &str) -> UpperEntry {
    UpperEntry { rel: rel.to_string(), whiteout: true, is_dir: false, opaque: false, in_repo: true }
}

#[test]
fn empty_upperdir_empty_summary() {
    let summary = summarize(&vec![]);
    assert!(summary.is_empty());
    assert!(summary.added().is_empty());
    assert!(summary.modified().is_empty());
    assert!(summary.deleted().is_empty());
}

#[test]
fn added_file_categorized() {
    let summary = summarize(&vec![file("new.txt", false)]);
    assert_eq!(summary.added(), vec!["new.txt".to_string()]);
    assert!(summary.modified().is_empty());
    assert!(summary.deleted().is_empty());
}

#[test]
fn modified_file_categorized() {
    let summary = summarize(&vec![file("f.txt", true)]);
    assert!(summary.added().is_empty());
    assert_eq!(summary.modified(), vec!["f.txt".to_string()]);
    assert!(summary.deleted().is_empty());
}

#[test]
fn mixed_changes_all_categorized() {
    let summary = summarize(&vec![file("added.txt", false), file("mod.txt", true)]);
    assert_eq!(summary.added(), vec!["added.txt".to_string()]);
    assert_eq!(summary.modified(), vec!["mod.txt".to_string()]);
}

#[test]
fn counts_are_correct() {
    let summary = summarize(&vec![file("a.txt", false), file("b.txt", false), file("c.txt", true)]);
    assert_eq!(summary.added().len(), 2);
    assert_eq!(summary.modified().len(), 1);
    assert_eq!(summary.deleted().len(), 0);
    assert_eq!(summary.changes.len(), 3);
}

#[test]
fn render_lists_changes_and_counts() {
    let summary = summarize(&vec![file("b.txt", false), file("a.txt", true), whiteout("c.txt")]);
    assert_eq!(
        summary.render(),
        "  M  a.txt\n  A  b.txt\n  D  c.txt\n\n1 added, 1 modified, 1 deleted\n"
    );
    assert_eq!(summarize(&vec![]).render(), "No changes.\n");
}

#[test]
fn decimal_text_values() {
    assert_eq!(decimal_text(0), "0");
    assert_eq!(decimal_text(7), "7");
    assert_eq!(decimal_text(10), "10");
    assert_eq!(decimal_text(1203), "1203");
}

#[test]
fn diff_jobs_per_kind() {
    let summary = summarize(&vec![file("m.txt", true), file("n.txt", false), whiteout("d.txt")]);
    let jobs = diff_jobs("/up", "/repo", &summary);
    assert_eq!(jobs.len(), 3);
    assert_eq!(jobs[0].args, vec!["-u", "--color=auto", "/repo/d.txt", "/dev/null"]);
    assert_eq!(jobs[0].only_if_file, Some("/repo/d.txt".to_string()));
    assert_eq!(jobs[1].args, vec!["-u", "--color=auto", "/repo/m.txt", "/up/m.txt"]);
    assert_eq!(jobs[1].only_if_file, None);
    assert_eq!(jobs[2].args, vec!["-u", "--color=auto", "/dev/null", "/up/n.txt"]);
    assert_eq!(jobs[2].only_if_file, None);
}

#[test]
fn change_kinds() {
    assert_eq!(Change::Added("x".to_string()).kind(), ChangeKind::Added);
    assert_eq!(Change::Deleted("x".to_string()).kind(), ChangeKind::Deleted);
    assert_eq!(Change::Modified("x".to_string()).path(), "x");
}

// --- Property-based tests ---

fn arb_filename(u: &mut arbtest::arbitrary::Unstructured) -> arbtest::arbitrary::Result<String> {
    let len: usize = u.int_in_range(1..=8)?;
    let mut name = String::with_capacity(len);
    for _ in 0..len {
        let c = u.int_in_range(b'a'..=b'z')?;
        name.push(c as char);
    }
    name.push_str(".txt");
    Ok(name)
}

fn arb_file_tree(
    u: &mut arbtest::arbitrary::Unstructured,
) -> arbtest::arbitrary::Result<Vec<String>> {
    let count: usize = u.int_in_range(0..=6)?;
    let mut files = Vec::new();
    for _ in 0..count {
        let name = arb_filename(u)?;
        if !files.contains(&name) {
            files.push(name);
        }
    }
    Ok(files)
}

/// What a walk of the upper directory finds, given the repository's files.
fn walk(upper: &[String], repo: &[String]) -> Vec<UpperEntry> {
    upper.iter().map(|n| file(n, repo.contains(n))).collect()
}

#[test]
fn prop_every_upper_file_categorized_exactly_once() {
    arbtest::arbtest(|u| {
        let repo_files = arb_file_tree(u)?;
        let upper_files = arb_file_tree(u)?;
        let summary = summarize(&walk(&upper_files, &repo_files));
        for name in &upper_files {
            let count = summary.changes.iter().filter(|c| c.path() == name).count();
            assert_eq!(count, 1, "file {name} should appear exactly once, got {count}");
        }
        Ok(())
    });
}

#[test]
fn prop_repo_only_files_never_reported() {
    arbtest::arbtest(|u| {
        let repo_files = arb_file_tree(u)?;
        let upper_files = arb_file_tree(u)?;
        let summary = summarize(&walk(&upper_files, &repo_files));
        for change in &summary.changes {
            let p = change.path();
            assert!(upper_files.contains(p), "repo-only file {:?} should not appear in changes", p);
        }
        Ok(())
    });
}

#[test]
fn prop_counts_sum_to_total() {
    arbtest::arbtest(|u| {
        let repo_files = arb_file_tree(u)?;
        let upper_files = arb_file_tree(u)?;
        let summary = summarize(&walk(&upper_files, &repo_files));
        let total = summary.added().len() + summary.modified().len() + summary.deleted().len();
        assert_eq!(total, summary.changes.len());
        Ok(())
    });
}

#[test]
fn summary_is_categorization() {
    let entries = vec![file("z/b.txt", false), whiteout("a"), file("m.txt", true), file("a/c", false)];
    let summary = summarize(&entries);
    assert_eq!(summary.changes, categorize_changes(&entries));
}
