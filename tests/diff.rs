use agpod::diff::processor::{
    parse_git_diff_counted, format_deleted_file_summary, format_large_file_summary, format_regular_file_diff,
    minimize_diff, parse_git_diff, remove_excessive_empty_lines,
};
use agpod::diff::save::{
    compute_file_hash, generate_chunk_suffix, hash_text, parse_existing_review,
    plan_diff_chunks, project_identifier, resolve_output_dir, ReviewLedger, ReviewStatus,
};
use agpod::diff::types::{ChangeType, FileChange};

fn lines(v: &[&str]) -> Vec<String> {
    v.iter().map(|s| s.to_string()).collect()
}

const SCENARIO: &str = "diff --git a/old.txt b/old.txt
deleted file mode 100644
index 1234567..0000000
--- a/old.txt
+++ /dev/null
@@ -1,3 +0,0 @@
-Line 1
-Line 2
-Line 3
diff --git a/new.txt b/new.txt
new file mode 100644
index 0000000..1234567
--- /dev/null
+++ b/new.txt
@@ -0,0 +1,3 @@
+New line 1
+New line 2
+New line 3
";

#[test]
fn deleted_and_added_files_in_print_mode() {
    let out = minimize_diff(SCENARIO);
    assert!(out.lines().any(|l| l == "Deleted file: old.txt"));
    assert!(!out.contains("Line 1\n") || !out.contains("-Line 1"));
    assert!(!out.contains("-Line 1"));
    assert!(out.contains("+New line 1"));
}

#[test]
fn parse_classifies_and_keeps_order() {
    let changes = parse_git_diff(SCENARIO);
    assert_eq!(changes.len(), 2);
    assert_eq!(changes[0].old_path.as_deref(), Some("old.txt"));
    assert_eq!(changes[0].new_path, None);
    assert!(matches!(changes[0].change_type, ChangeType::Deleted));
    assert!(matches!(changes[1].change_type, ChangeType::Added));
    assert_eq!(changes[1].old_path, None);
    assert_eq!(changes[1].new_path.as_deref(), Some("new.txt"));
    assert_eq!(changes[1].content_lines.len(), 8);
    assert!(!changes[1].is_large);
}

#[test]
fn parse_skips_preamble_and_detects_renames() {
    let text = "preamble\nmore\ndiff --git a/x.rs b/y.rs\nsimilarity index 90%\nrename from x.rs\nrename to y.rs\n";
    let changes = parse_git_diff(text);
    assert_eq!(changes.len(), 1);
    assert_eq!(changes[0].old_path.as_deref(), Some("x.rs"));
    assert_eq!(changes[0].new_path.as_deref(), Some("y.rs"));
    assert!(matches!(changes[0].change_type, ChangeType::Renamed));
    assert_eq!(changes[0].content_lines.len(), 3);
}

#[test]
fn header_path_splits_at_first_separator() {
    let changes = parse_git_diff("diff --git a/dir b/file b/other\n+x\n");
    assert_eq!(changes[0].old_path.as_deref(), Some("dir"));
    assert_eq!(changes[0].new_path.as_deref(), Some("file b/other"));
    assert!(matches!(changes[0].change_type, ChangeType::Modified));
}

#[test]
fn empty_input_gives_no_records() {
    assert!(parse_git_diff("").is_empty());
    assert_eq!(minimize_diff(""), "");
}

#[test]
fn large_by_change_count_and_by_length() {
    let mut text = String::from("diff --git a/a b/a\n--- a/a\n+++ b/a\n");
    for i in 0..101 {
        text.push_str(&format!("+added {}\n", i));
    }
    let changes = parse_git_diff(&text);
    assert!(changes[0].is_large);

    let mut text = String::from("diff --git a/a b/a\n");
    for i in 0..100 {
        text.push_str(&format!("+added {}\n", i));
    }
    assert!(!parse_git_diff(&text)[0].is_large);

    let mut text = String::from("diff --git a/b b/b\n");
    for i in 0..501 {
        text.push_str(&format!(" context {}\n", i));
    }
    assert!(parse_git_diff(&text)[0].is_large);
}

#[test]
fn large_file_summary_hides_content() {
    let mut text = String::from("diff --git a/big.rs b/big.rs\n");
    for i in 0..150 {
        text.push_str(&format!("+secret line {}\n", i));
    }
    let out = minimize_diff(&text);
    assert_eq!(
        out,
        "Large file change: big.rs\nChange type: modified\nContent lines: 150\n\n"
    );
    assert!(!out.contains("secret"));
}

#[test]
fn format_summaries() {
    let fc = FileChange {
        old_path: None,
        new_path: Some("n.txt".to_string()),
        change_type: ChangeType::Added,
        content_lines: lines(&["+a", "+b"]),
        is_large: true,
    };
    assert_eq!(
        format_large_file_summary(&fc),
        "Large file change: n.txt\nChange type: added\nContent lines: 2\n"
    );
    assert_eq!(format_deleted_file_summary(&fc), "Deleted file: n.txt\n");
    assert_eq!(format_regular_file_diff(&fc), "diff --git a/n.txt b/n.txt\n+a\n+b\n");
    let none = FileChange {
        old_path: None,
        new_path: None,
        change_type: ChangeType::Renamed,
        content_lines: vec![],
        is_large: false,
    };
    assert_eq!(format_deleted_file_summary(&none), "Deleted file: unknown\n");
    assert_eq!(ChangeType::Renamed.as_str(), "renamed");
}

#[test]
fn blank_runs_are_cut_to_two() {
    let input = lines(&["a", "", " ", "\t", "", "b", "", "c"]);
    let out = remove_excessive_empty_lines(&input);
    assert_eq!(out, lines(&["a", "", " ", "b", "", "c"]));
    assert!(remove_excessive_empty_lines(&[]).is_empty());
}

#[test]
fn regular_diff_compacts_blank_lines() {
    let text = "diff --git a/f b/f\n+x\n\n\n\n\n+y\n";
    assert_eq!(minimize_diff(text), "diff --git a/f b/f\n+x\n\n\n+y\n\n");
}

#[test]
fn chunk_suffix_sequence() {
    assert_eq!(generate_chunk_suffix(0), "aa");
    assert_eq!(generate_chunk_suffix(1), "ab");
    assert_eq!(generate_chunk_suffix(25), "az");
    assert_eq!(generate_chunk_suffix(26), "ba");
    assert_eq!(generate_chunk_suffix(675), "zz");
    assert_eq!(generate_chunk_suffix(676), "0000");
    assert_eq!(generate_chunk_suffix(677), "0001");
    assert_eq!(generate_chunk_suffix(676 + 12345), "12345");
}

#[test]
fn chunks_follow_file_order_past_zz() {
    let mut text = String::new();
    for i in 0..680 {
        text.push_str(&format!("diff --git a/f{} b/f{}\n+x\n", i, i));
    }
    let plan = plan_diff_chunks(&text, "out", &ReviewLedger::new());
    assert_eq!(plan.chunks.len(), 680);
    assert_eq!(plan.chunks[0].filename, "chunk_aa.diff");
    assert_eq!(plan.chunks[675].filename, "chunk_zz.diff");
    assert_eq!(plan.chunks[676].filename, "chunk_0000.diff");
    assert_eq!(plan.chunks[679].filename, "chunk_0003.diff");
    let mut names: Vec<&String> = plan.chunks.iter().map(|c| &c.filename).collect();
    names.sort();
    names.dedup();
    assert_eq!(names.len(), 680);
}

#[test]
fn hash_is_hex_of_digest() {
    assert_eq!(hash_text(255), "ff");
    assert_eq!(hash_text(0), "0");
    let h = compute_file_hash("abc");
    assert_eq!(h, compute_file_hash("abc"));
    assert_ne!(h, compute_file_hash("abd"));
    assert!(h.chars().all(|c| c.is_ascii_hexdigit()));
}

#[test]
fn chunk_body_is_uncompacted() {
    let text = "diff --git a/f b/f\n+x\n\n\n\n+y\n";
    let plan = plan_diff_chunks(text, "out", &ReviewLedger::new());
    assert_eq!(plan.chunks[0].content, "diff --git a/f b/f\n+x\n\n\n\n+y\n");
    assert!(plan.review.starts_with("# Code Review Tracking\n"));
    assert!(plan.review.contains("- Diff chunks are stored in: out/\n"));
    assert!(plan.review.contains("## f\n- meta:hash: "));
    assert!(plan.review.contains("- meta:diff_chunk: chunk_aa.diff\n- meta:status: pending\n\n<!-- Review comments go here -->\n\n---\n\n"));
}

#[test]
fn rerun_with_same_input_is_idempotent() {
    let first = plan_diff_chunks(SCENARIO, "out", &ReviewLedger::new());
    let ledger = parse_existing_review(&first.review);
    let second = plan_diff_chunks(SCENARIO, "out", &ledger);
    assert_eq!(first.review, second.review);
    assert_eq!(first.chunks.len(), second.chunks.len());
    for (a, b) in first.chunks.iter().zip(second.chunks.iter()) {
        assert_eq!(a.filename, b.filename);
        assert_eq!(a.content, b.content);
    }
}

#[test]
fn changed_file_becomes_outdated_with_comments_kept() {
    let first = plan_diff_chunks(SCENARIO, "out", &ReviewLedger::new());
    let edited = first
        .review
        .replace(
            "- meta:status: pending\n\n<!-- Review comments go here -->\n\n---\n\n## new.txt",
            "- meta:status: reviewed@2024-01-01\n\nlooks fine\nsecond note\n\n---\n\n## new.txt",
        );
    let ledger = parse_existing_review(&edited);
    let old = ledger.get("old.txt").unwrap();
    assert_eq!(old.status, "reviewed@2024-01-01");
    assert_eq!(old.comments, "looks fine\nsecond note");

    let changed = SCENARIO.replace("-Line 3", "-Line 3 changed");
    let second = plan_diff_chunks(&changed, "out", &ledger);
    let after = parse_existing_review(&second.review);
    let old = after.get("old.txt").unwrap();
    assert_eq!(old.status, "outdated");
    assert_eq!(old.comments, "looks fine\nsecond note");
    assert_eq!(after.get("new.txt").unwrap().status, "pending");
}

#[test]
fn removed_file_leaves_the_ledger() {
    let first = plan_diff_chunks(SCENARIO, "out", &ReviewLedger::new());
    let ledger = parse_existing_review(&first.review);
    assert!(ledger.get("old.txt").is_some());
    assert!(ledger.get("new.txt").is_some());
    let only_new = &SCENARIO[SCENARIO.find("diff --git a/new.txt").unwrap()..];
    let second = plan_diff_chunks(only_new, "out", &ledger);
    let after = parse_existing_review(&second.review);
    assert!(after.get("new.txt").is_some());
    assert!(after.get("old.txt").is_none());
    assert!(!second.review.contains("old.txt"));
}

#[test]
fn unparseable_ledgers_give_no_prior_state() {
    assert!(parse_existing_review("").entries.is_empty());
    let guidelines_only = "# Code Review Tracking\n\n## Guidelines\n- a\n\n---\n\n";
    assert!(parse_existing_review(guidelines_only).entries.is_empty());
    assert!(parse_existing_review("## a.txt\nno metadata\n").entries.is_empty());
}

#[test]
fn output_dir_and_project_name() {
    assert_eq!(resolve_output_dir("llm/diff", "proj"), "llm/diff");
    assert_eq!(resolve_output_dir("/tmp/out", "proj"), "/tmp/out/proj");
    assert_eq!(project_identifier(Some("repo".to_string()), Some("cwd".to_string())), "repo");
    assert_eq!(project_identifier(None, Some("cwd".to_string())), "cwd");
    assert_eq!(project_identifier(None, None), "default-project");
}

#[test]
fn skipped_lines_are_counted() {
    let text = "preamble\nmore\ndiff --git a/x b/x\n+1\n";
    let (changes, skipped) = parse_git_diff_counted(text);
    assert_eq!(changes.len(), 1);
    assert_eq!(skipped, 2);
    assert_eq!(parse_git_diff_counted(SCENARIO).1, 0);
    assert_eq!(parse_git_diff_counted("diff --git nothing\n").1, 1);
}

#[test]
fn review_status_shapes() {
    assert!(matches!(ReviewStatus::classify("pending"), ReviewStatus::Pending));
    assert!(matches!(ReviewStatus::classify("outdated"), ReviewStatus::Outdated));
    match ReviewStatus::classify("reviewed@2024-05-01") {
        ReviewStatus::Reviewed(d) => assert_eq!(d, "2024-05-01"),
        other => panic!("unexpected {:?}", other),
    }
    match ReviewStatus::classify("needs another look") {
        ReviewStatus::Other(t) => assert_eq!(t, "needs another look"),
        other => panic!("unexpected {:?}", other),
    }
    assert_eq!(ReviewStatus::classify("reviewed@2024-05-01").as_text(), "reviewed@2024-05-01");
}

#[test]
fn guidelines_named_files_keep_their_entries() {
    let text = "diff --git a/p.rs b/p.rs\n+a\ndiff --git a/Guidelines.md b/Guidelines.md\n+b\ndiff --git a/Guidelines b/Guidelines\n+c\n";
    let first = plan_diff_chunks(text, "out", &ReviewLedger::new());
    let ledger = parse_existing_review(&first.review);
    assert_eq!(ledger.get("Guidelines.md").unwrap().status, "pending");
    assert_eq!(ledger.get("Guidelines.md").unwrap().comments, "");
    assert_eq!(ledger.get("Guidelines").unwrap().status, "pending");

    let edited = first.review.replacen("- meta:status: pending", "- meta:status: reviewed@2024-01-01", 1);
    let ledger = parse_existing_review(&edited);
    assert_eq!(ledger.get("p.rs").unwrap().status, "reviewed@2024-01-01");
    let changed = text.replace("+a", "+a2");
    let second = plan_diff_chunks(&changed, "out", &ledger);
    let after = parse_existing_review(&second.review);
    assert_eq!(after.get("p.rs").unwrap().status, "outdated");
    assert_eq!(after.get("Guidelines.md").unwrap().status, "pending");
}
