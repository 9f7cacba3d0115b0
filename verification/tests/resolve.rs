use alpm_cleaner::resolve::{
    latest_for_generation, parse_breakage, parse_stderr, parse_stdout, preview_args,
    preview_from_output, preview_from_text, spawn_failure_preview, Preview,
};

#[test]
fn stdout_parses_bare_names() {
    let (removed, brk, hold) = parse_stdout("zed\napple\nmango\n");
    assert_eq!(removed, vec!["apple", "mango", "zed"]);
    assert!(brk.is_empty());
    assert!(!hold);
}

#[test]
fn stdout_parses_breakages_not_packages() {
    // These lines go to stdout, and are not removal entries.
    let out = ":: removing bash breaks dependency 'sh' required by shell-user\n\
               :: removing bash breaks dependency 'bash' required by alsa-utils\n";
    let (removed, brk, hold) = parse_stdout(out);
    assert!(removed.is_empty(), "breakage lines are not packages");
    assert!(brk.contains(&("shell-user".to_string(), "bash".to_string())));
    assert!(brk.contains(&("alsa-utils".to_string(), "bash".to_string())));
    assert!(!hold);
}

#[test]
fn stdout_detects_holdpkg() {
    let (removed, _, hold) =
        parse_stdout(":: HoldPkg was found in target list. Do you want to continue? [y/N]\n");
    assert!(hold);
    assert!(removed.is_empty());
}

#[test]
fn stderr_parses_breakages_and_missing() {
    let err = "error: failed to prepare transaction (could not satisfy dependencies)\n\
               :: removing bash breaks dependency 'sh' required by shell-user\n\
               :: removing bash breaks dependency 'bash' required by alsa-utils\n\
               error: target not found: nosuchpkg123\n";
    let (brk, missing, hold, other) = parse_stderr(err);
    assert!(brk.contains(&("shell-user".to_string(), "bash".to_string())));
    assert!(brk.contains(&("alsa-utils".to_string(), "bash".to_string())));
    assert_eq!(missing, vec!["nosuchpkg123".to_string()]);
    assert!(!hold);
    assert!(other.contains(
        &"error: failed to prepare transaction (could not satisfy dependencies)".to_string()
    ));
}

#[test]
fn stderr_detects_holdpkg() {
    let (_, _, hold, _) =
        parse_stderr(":: HoldPkg was found in target list. Do you want to continue? [y/N]");
    assert!(hold);
}

#[test]
fn stderr_keeps_real_errors() {
    let (_, _, _, other) = parse_stderr("error: failed to lock database: File exists\n");
    assert!(other.join("\n").contains("lock"));
}

#[test]
fn split_selected_vs_pulled() {
    let p = Preview {
        removed: vec!["main".into(), "dep-a".into(), "dep-b".into()],
        ..Default::default()
    };
    let checked: Vec<String> = vec!["main".into()];
    assert_eq!(p.selected(&checked), vec!["main"]);
    assert_eq!(p.pulled(&checked), vec!["dep-a", "dep-b"]);
}

#[test]
fn selected_and_pulled_are_sorted_and_split() {
    let p = Preview {
        removed: vec!["zz".into(), "b".into(), "a".into(), "y".into()],
        ..Default::default()
    };
    let checked: Vec<String> = vec!["zz".into(), "a".into(), "not-removed".into()];
    assert_eq!(p.selected(&checked), vec!["a", "zz"]);
    assert_eq!(p.pulled(&checked), vec!["b", "y"]);
}

#[test]
fn breakage_line_gives_dependent_and_target() {
    assert_eq!(
        parse_breakage(":: removing bash breaks dependency 'sh' required by shell-user"),
        Some(("shell-user".to_string(), "bash".to_string()))
    );
    assert_eq!(parse_breakage("removing bash breaks dependency"), None);
    assert_eq!(
        parse_breakage(":: removing bash breaks dependency 'sh' required by "),
        None
    );
}

#[test]
fn stdout_sorts_and_dedups_and_skips_chatter() {
    let (removed, brk, hold) =
        parse_stdout("  b  \n\n:: Processing package changes...\na\nb\nchecking dependencies...\n");
    assert_eq!(removed, vec!["a", "b"]);
    assert!(brk.is_empty());
    assert!(!hold);
}

#[test]
fn stderr_missing_takes_first_word_and_dedups() {
    let (_, missing, _, other) =
        parse_stderr("error: target not found: zz extra\nerror: target not found: aa\nerror: target not found: zz\n");
    assert_eq!(missing, vec!["aa", "zz"]);
    assert!(other.is_empty());
}

#[test]
fn preview_hides_prepare_failure_when_breakages_explain_it() {
    let out = ":: removing bash breaks dependency 'sh' required by shell-user\n";
    let err = "error: failed to prepare transaction (could not satisfy dependencies)\n";
    let p = preview_from_text(out, err, false);
    assert!(p.removed.is_empty());
    assert_eq!(p.breakages, vec![("shell-user".to_string(), "bash".to_string())]);
    assert_eq!(p.error, None);
    assert!(!p.hold_pkg);
}

#[test]
fn preview_keeps_other_errors_joined() {
    let p = preview_from_text("", "error: one\nwarning: two\n", false);
    assert_eq!(p.error, Some("error: one\nwarning: two".to_string()));
}

#[test]
fn preview_in_cascade_mode_reports_no_breakages() {
    let out = ":: removing bash breaks dependency 'sh' required by shell-user\n";
    let p = preview_from_text(out, "", true);
    assert!(p.breakages.is_empty());
}

#[test]
fn preview_merges_breakages_of_both_streams() {
    let out = ":: removing b breaks dependency 'b' required by y\n";
    let err = ":: removing a breaks dependency 'a' required by x\n:: removing b breaks dependency 'b' required by y\n";
    let p = preview_from_text(out, err, false);
    assert_eq!(
        p.breakages,
        vec![("x".to_string(), "a".to_string()), ("y".to_string(), "b".to_string())]
    );
}

#[test]
fn preview_hold_from_either_stream() {
    let hold = ":: HoldPkg was found in target list. Do you want to continue? [y/N]\n";
    assert!(preview_from_text(hold, "", true).hold_pkg);
    assert!(preview_from_text("", hold, true).hold_pkg);
    assert!(!preview_from_text("pkg\n", "", true).hold_pkg);
}

#[test]
fn preview_from_output_decodes_bytes() {
    let p = preview_from_output(b"zed\napple\n", b"error: target not found: nope\n", true);
    assert_eq!(p.removed, vec!["apple", "zed"]);
    assert_eq!(p.missing, vec!["nope"]);
    let q = preview_from_output(b"caf\xc3\xa9\n", b"", true);
    assert_eq!(q.removed, vec!["café"]);
}

#[test]
fn preview_args_shape() {
    let t = vec!["a".to_string(), "b".to_string()];
    assert_eq!(
        preview_args(&t, false),
        vec!["-Rs", "--print", "--noconfirm", "--print-format", "%n", "a", "b"]
    );
    assert_eq!(
        preview_args(&t, true),
        vec!["-Rs", "-c", "--print", "--noconfirm", "--print-format", "%n", "a", "b"]
    );
}

#[test]
fn latest_result_of_wanted_generation_wins() {
    let mk = |n: &str| Preview { removed: vec![n.to_string()], ..Default::default() };
    let got = latest_for_generation(vec![(1, mk("old")), (2, mk("first")), (3, mk("other")), (2, mk("second"))], 2);
    assert_eq!(got.unwrap().removed, vec!["second"]);
    assert!(latest_for_generation(vec![(1, mk("old"))], 2).is_none());
    assert!(latest_for_generation(vec![], 2).is_none());
}

#[test]
fn spawn_failure_is_only_an_error() {
    let p = spawn_failure_preview("No such file or directory (os error 2)");
    assert_eq!(
        p.error,
        Some("failed to run pacman: No such file or directory (os error 2)".to_string())
    );
    assert!(p.removed.is_empty() && p.missing.is_empty() && p.breakages.is_empty());
    assert!(!p.hold_pkg);
}
