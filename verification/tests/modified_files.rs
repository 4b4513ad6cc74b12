use codex_sidebar::modified_files::{
    add_untracked_paths, git_output_accepted, is_inside_work_tree, modified_files_from_git_output,
    parse_numstat_into_totals, parse_usize, ModifiedFileTotals, SidebarModifiedFile, TotalsOverflow,
};
use codex_sidebar::text::{chars_of, truncate_text};
use codex_sidebar::version::{codex_cli_version, set_codex_cli_version_override, VersionOverride};

fn file(path: &str, additions: usize, deletions: usize) -> SidebarModifiedFile {
    SidebarModifiedFile { path: path.to_string(), additions, deletions }
}

#[test]
fn numstat_totals_add_up_per_path() {
    let mut totals = ModifiedFileTotals::new();
    parse_numstat_into_totals("3\t1\tsrc/b.rs\n2\t0\tsrc/a.rs\n", &mut totals).unwrap();
    parse_numstat_into_totals("1\t4\tsrc/b.rs\n-\t-\timage.png\nbad line\n", &mut totals).unwrap();
    assert_eq!(
        totals.into_files(),
        vec![file("image.png", 0, 0), file("src/a.rs", 2, 0), file("src/b.rs", 4, 5)]
    );
}

#[test]
fn numstat_path_is_last_field_and_crlf_is_stripped() {
    let mut totals = ModifiedFileTotals::new();
    parse_numstat_into_totals("5\t6\told.rs\tnew.rs\r\n+7\t x\tz.rs", &mut totals).unwrap();
    assert_eq!(totals.into_files(), vec![file("new.rs", 5, 6), file("z.rs", 7, 0)]);
}

#[test]
fn untracked_paths_keep_existing_counts() {
    let mut totals = ModifiedFileTotals::new();
    parse_numstat_into_totals("1\t1\tkept.rs\n", &mut totals).unwrap();
    add_untracked_paths("  new.txt \n\nkept.rs\n", &mut totals);
    assert_eq!(totals.into_files(), vec![file("kept.rs", 1, 1), file("new.txt", 0, 0)]);
}

#[test]
fn modified_files_combine_all_outputs_in_path_order() {
    let files = modified_files_from_git_output(
        Some("1\t2\tz.rs\n"),
        Some("3\t4\tz.rs\n5\t0\tA.rs\n"),
        Some("b.txt\na.txt\n"),
    )
    .unwrap();
    assert_eq!(
        files,
        vec![
            file("A.rs", 5, 0),
            file("a.txt", 0, 0),
            file("b.txt", 0, 0),
            file("z.rs", 4, 6),
        ]
    );
    assert!(modified_files_from_git_output(None, None, None).unwrap().is_empty());
}

#[test]
fn path_order_is_by_character_code() {
    let files = modified_files_from_git_output(None, None, Some("é\nz\nab\na\n")).unwrap();
    let paths: Vec<&str> = files.iter().map(|f| f.path.as_str()).collect();
    assert_eq!(paths, vec!["a", "ab", "z", "é"]);
}

#[test]
fn totals_that_overflow_are_refused() {
    let max = usize::MAX.to_string();
    let big = format!("{max}\t0\ta.rs\n");
    let mut totals = ModifiedFileTotals::new();
    parse_numstat_into_totals(&big, &mut totals).unwrap();
    assert_eq!(
        parse_numstat_into_totals("1\t0\ta.rs\n", &mut totals),
        Err(TotalsOverflow)
    );
    assert_eq!(
        modified_files_from_git_output(Some(&big), Some("0\t0\ta.rs\n1\t0\ta.rs"), None),
        Err(TotalsOverflow)
    );
    assert_eq!(
        modified_files_from_git_output(Some(&big), None, Some("a.rs\n")),
        Ok(vec![file("a.rs", usize::MAX, 0)])
    );
}

#[test]
fn parse_usize_follows_std() {
    for s in ["0", "+5", "12345", "007", "-1", "+", "", " 1", "1a", "99999999999999999999999"] {
        let v = chars_of(s);
        assert_eq!(parse_usize(&v), s.parse::<usize>().ok(), "input {s:?}");
    }
}

#[test]
fn work_tree_and_exit_status_checks() {
    assert!(is_inside_work_tree(Some("true\n")));
    assert!(!is_inside_work_tree(Some("false\n")));
    assert!(!is_inside_work_tree(None));
    assert!(git_output_accepted(true, Some(0), false));
    assert!(git_output_accepted(false, Some(1), true));
    assert!(!git_output_accepted(false, Some(1), false));
    assert!(!git_output_accepted(false, Some(128), true));
    assert!(!git_output_accepted(false, None, true));
}

#[test]
fn truncate_text_marks_cuts() {
    assert_eq!(truncate_text("short", 10), "short");
    assert_eq!(truncate_text("abcdefgh", 6), "abc...");
    assert_eq!(truncate_text("abcdefgh", 2), "ab");
    assert_eq!(truncate_text("abc", 3), "abc");
}

#[test]
fn version_override_first_non_blank_wins() {
    let mut slot = VersionOverride::new();
    assert_eq!(codex_cli_version(&slot, "0.1.0"), "0.1.0");
    set_codex_cli_version_override(&mut slot, "   ".to_string());
    assert_eq!(slot.recorded(), None);
    set_codex_cli_version_override(&mut slot, " 1.2.3\n".to_string());
    assert_eq!(codex_cli_version(&slot, "0.1.0"), "1.2.3");
    set_codex_cli_version_override(&mut slot, "9.9.9".to_string());
    assert_eq!(slot.recorded(), Some("1.2.3"));
}

#[test]
fn recorded_version_is_never_blank() {
    let mut slot = VersionOverride::new();
    assert_eq!(codex_cli_version(&slot, ""), "");
    set_codex_cli_version_override(&mut slot, "\t2.0\t".to_string());
    assert_eq!(codex_cli_version(&slot, ""), "2.0");
}

#[test]
fn numstat_text_parts_add_up_in_any_order() {
    let a = "1\t2\tx.rs\n3\t0\ty.rs\n";
    let b = "4\t5\tx.rs\n-\t-\tbin\n";
    let mut whole = ModifiedFileTotals::new();
    parse_numstat_into_totals(&format!("{a}{b}"), &mut whole).unwrap();
    let mut ab = ModifiedFileTotals::new();
    parse_numstat_into_totals(a, &mut ab).unwrap();
    parse_numstat_into_totals(b, &mut ab).unwrap();
    let mut ba = ModifiedFileTotals::new();
    parse_numstat_into_totals(b, &mut ba).unwrap();
    parse_numstat_into_totals(a, &mut ba).unwrap();
    let whole = whole.into_files();
    assert_eq!(whole, ab.into_files());
    assert_eq!(whole, ba.into_files());
    assert_eq!(whole, vec![file("bin", 0, 0), file("x.rs", 5, 7), file("y.rs", 3, 0)]);
}

#[test]
fn first_non_blank_of_many_overrides_is_shown() {
    let mut slot = VersionOverride::new();
    for v in [" ", "\n", " 3.1.4 ", "", "2.7.1"] {
        set_codex_cli_version_override(&mut slot, v.to_string());
    }
    assert_eq!(codex_cli_version(&slot, "0.0.1"), "3.1.4");
    let mut blank = VersionOverride::new();
    for v in [" ", "\t"] {
        set_codex_cli_version_override(&mut blank, v.to_string());
    }
    assert_eq!(codex_cli_version(&blank, "0.0.1"), "0.0.1");
}
