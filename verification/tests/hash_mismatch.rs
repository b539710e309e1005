use srcbot::fix_hash::{
    answered_store_path, attr_path_expr, choose_fix_build, commit_message, fix_needs_check,
    generate_pr_text, make_commit_steps, make_diff_args, make_fix_build_args, make_head_args,
    make_push_args, mismatch_from, next_fix_step, note_store_path, parse_hash_mismatch,
    phase_log_name, phase_source_name, pick_branch, plan_diff, plan_old_source, position_expr,
    preserved_note, should_fetch, update_hash, worktree_prefix, DiffPlan, FixBuild, FixHashResult,
    FixOptions, FixPhase, FixStep, OldSource,
};

#[test]
fn test_parse_hash_mismatch() {
    let output = r#"
error: hash mismatch in fixed-output derivation '/nix/store/abc123.drv':
  specified: sha256-AAAAAAAAAAAAAAAAAAAAAAAAAAAAAAAAAAAAAAAAAAA=
  got:       sha256-BBBBBBBBBBBBBBBBBBBBBBBBBBBBBBBBBBBBBBBBBBB=
"#;

    let mismatch = parse_hash_mismatch(output).unwrap();
    assert_eq!(mismatch.specified, "sha256-AAAAAAAAAAAAAAAAAAAAAAAAAAAAAAAAAAAAAAAAAAA=");
    assert_eq!(mismatch.got, "sha256-BBBBBBBBBBBBBBBBBBBBBBBBBBBBBBBBBBBBBBBBBBB=");
}

#[test]
fn test_parse_hash_mismatch_real_example() {
    let output = r#"
building '/nix/store/xyz.drv'...

error: hash mismatch in fixed-output derivation '/nix/store/abc-source.drv':
         specified: sha256-rN5fIBnCEcTT+8UYsSOmPKT8SLXWD/c9nAo0MxrqKPw=
               got: sha256-kGfmBEWEn1a/y8gxEUxUJqWl94FkGq/5wZTdGkz8V8M=
"#;

    let mismatch = parse_hash_mismatch(output).unwrap();
    assert!(mismatch.specified.starts_with("sha256-"));
    assert!(mismatch.got.starts_with("sha256-"));
}

#[test]
fn searches_are_tried_in_turn() {
    // anything between the hashes
    let loose = "specified: sha256-AAA=\nnoise\ngot: sha256-BBB=";
    assert_eq!(parse_hash_mismatch(loose).unwrap().got, "sha256-BBB=");
    // hashes of another length
    let other = parse_hash_mismatch("specified: sha512-AA\n got: sha512-BB").unwrap();
    assert_eq!(other.specified, "sha512-AA");
    assert_eq!(other.got, "sha512-BB");
    assert!(parse_hash_mismatch("error: 404").is_none());
    let pair = |a: &str, b: &str| Some(Some((Some(a.to_string()), Some(b.to_string()))));
    assert_eq!(mismatch_from(Some(None), pair("a", "b"), pair("c", "d")).unwrap().specified, "a");
    assert_eq!(mismatch_from(Some(None), Some(None), pair("c", "d")).unwrap().got, "d");
    assert!(mismatch_from(None, pair("a", "b"), pair("c", "d")).is_none());
    assert!(mismatch_from(Some(Some((None, None))), pair("a", "b"), Some(None)).is_none());
    assert!(mismatch_from(Some(None), Some(None), Some(None)).is_none());
}

#[test]
fn hashes_are_updated_where_they_are() {
    assert_eq!(update_hash("a = \"old\"; b = \"old\";", "old", "new"), Some("a = \"new\"; b = \"new\";".to_string()));
    assert_eq!(update_hash("nothing", "old", "new"), None);
    assert_eq!(update_hash("x old", "old", "old"), Some("x old".to_string()));
}

#[test]
fn builds_before_and_after() {
    assert_eq!(choose_fix_build(true, FixPhase::Before), FixBuild::Check);
    assert_eq!(choose_fix_build(false, FixPhase::Before), FixBuild::Fresh);
    assert_eq!(choose_fix_build(false, FixPhase::After), FixBuild::Cached);
    assert_eq!(
        make_fix_build_args(FixBuild::Fresh, "E"),
        vec!["--no-out-link", "--substituters", "", "--expr", "E"]
    );
    assert_eq!(make_fix_build_args(FixBuild::Cached, "E"), vec!["--no-out-link", "--expr", "E"]);
    assert_eq!(make_fix_build_args(FixBuild::Check, "E"), vec!["--no-out-link", "--check", "--expr", "E"]);
    assert!(fix_needs_check(FixBuild::Cached, true, true, false));
    assert!(!fix_needs_check(FixBuild::Cached, true, true, true));
    assert!(!fix_needs_check(FixBuild::Cached, true, false, false));
    assert!(!fix_needs_check(FixBuild::Check, true, true, false));
    assert_eq!(phase_log_name("src", FixPhase::Before), "src.before.log");
    assert_eq!(phase_source_name("src", FixPhase::After), "src.src.after");
    assert_eq!(note_store_path(None, "/nix/store/x"), Some("/nix/store/x".to_string()));
    assert_eq!(note_store_path(Some("p".to_string()), "else"), Some("p".to_string()));
    assert_eq!(answered_store_path(Some("\"/nix/store/a\"\n")), Some("/nix/store/a".to_string()));
    assert_eq!(answered_store_path(Some("/tmp/a")), None);
    assert_eq!(answered_store_path(None), None);
    assert_eq!(plan_old_source(false, true), OldSource::Unknown);
    assert_eq!(plan_old_source(true, true), OldSource::Local);
    assert_eq!(plan_old_source(true, false), OldSource::Fetch);
}

fn fixed() -> FixHashResult {
    FixHashResult {
        attribute: "py.x".to_string(),
        intermediate: "src".to_string(),
        before_commit: "0123456789".to_string(),
        after_commit: "abcdef".to_string(),
        has_diff: true,
        diff_failed_reason: None,
        has_old_source: true,
        has_new_source: false,
        before_log: Some("b1\nb2\n".to_string()),
        after_log: None,
        diff_content: Some("d".to_string()),
    }
}

#[test]
fn the_pull_request_is_described() {
    let text = generate_pr_text(&fixed(), "https://h");
    assert!(text.starts_with("# py.x: fix src hash\n\nFixes hash mismatch for `py.x.src`.\n\nBuild logs:\n- [before (0123456)](https://h/logs/py_x/src.before.log)\n- [after (abcdef)](https://h/logs/py_x/src.after.log)\n- [source diff](https://h/logs/py_x/src.diff.log)\n\nSource directories:\n- [old source](https://h/logs/py_x/src.src.before/)\n\n<details>\n<summary>Source diff</summary>\n\n```\nd\n```\n</details>\n\n<details>\n<summary>Build before</summary>\n\n```\nb1\nb2\n```\n</details>\n\nPartially addresses #471498\n"));
    assert!(text.contains("\n## Things done\n\n- Built on platform:\n  - [x] x86_64-linux\n"));
    assert!(text.ends_with("pulls?q=is%3Aopen+sort%3Areactions-%2B1-desc\n"));
    let mut other = fixed();
    other.has_diff = false;
    other.diff_failed_reason = Some("--dont-diff was specified".to_string());
    other.has_old_source = false;
    other.diff_content = Some((0..120).map(|i| format!("d{}\n", i)).collect());
    other.after_log = Some((0..120).map(|i| format!("a{}\n", i)).collect());
    let text = generate_pr_text(&other, "https://h");
    assert!(text.contains("\n\n*Source diff not available: --dont-diff was specified*"));
    assert!(!text.contains("Source directories:"));
    assert!(text.contains("<summary>Source diff (first 100 lines)</summary>\n\n```\nd0\n"));
    assert!(text.contains("d99\n```"));
    assert!(text.contains("<summary>Build after (last 100 lines)</summary>\n\n```\na20\n"));
}

#[test]
fn the_commit_is_put_together() {
    assert_eq!(commit_message("a", "src", "o", "n"), "a: fix src hash\n\no -> n");
    assert_eq!(pick_branch(None, "hello"), "fix/hello");
    assert_eq!(pick_branch(Some("mine"), "hello"), "mine");
    let steps = make_commit_steps("/w", "fix/a", "pkgs/a.nix", "msg");
    assert_eq!(steps.len(), 4);
    assert_eq!(steps[0].args, vec!["-C", "/w", "branch", "-D", "fix/a"]);
    assert!(steps[0].failure.is_none());
    assert_eq!(steps[2].args, vec!["-C", "/w", "add", "pkgs/a.nix"]);
    assert_eq!(steps[3].failure, Some("Failed to commit".to_string()));
    assert_eq!(make_head_args("/w"), vec!["-C", "/w", "rev-parse", "HEAD"]);
    assert_eq!(make_push_args("/w", "origin", "b"), vec!["-C", "/w", "push", "-f", "origin", "b:b"]);
    assert_eq!(make_diff_args("/o", "/n"), vec!["--color", "never", "--skip-unchanged", "/o", "/n"]);
    assert_eq!(worktree_prefix("a.b", "src"), "fix-hash-a_b-src-");
    assert!(preserved_note("/t/nixpkgs", "/np", "/t").contains("  git -C /np worktree remove -f /t/nixpkgs\n  rm -rf /t\n"));
    assert_eq!(
        attr_path_expr("/np", "s", "a.src"),
        "with import /np { system = \"s\"; config = { allowUnfree = true; }; }; a.src.outPath"
    );
    assert!(position_expr("/np", "s", "a").starts_with("let pkgs = import /np { system = \"s\"; }; in (builtins.unsafeGetAttrPos \"version\" pkgs.a).file or"));
}

#[test]
fn the_remote_is_fetched_after_a_week() {
    assert!(should_fetch(None, 0));
    assert!(should_fetch(Some("not a time"), 0));
    assert!(!should_fetch(Some("1000\n"), 1000 + 604800));
    assert!(should_fetch(Some("1000"), 1001 + 604800));
    assert!(should_fetch(Some("-9223372036854775808"), i64::MAX));
}

#[test]
fn the_sources_are_compared_where_both_are_there() {
    assert_eq!(plan_diff(false, true, true), DiffPlan::Compare);
    assert_eq!(plan_diff(true, true, true), DiffPlan::NotAsked);
    assert_eq!(plan_diff(false, false, false), DiffPlan::NoOldSource);
    assert_eq!(plan_diff(false, true, false), DiffPlan::OldSourceGone);
    assert_eq!(DiffPlan::Compare.reason(), None);
    assert_eq!(DiffPlan::NotAsked.reason(), Some("--dont-diff was specified".to_string()));
    assert_eq!(
        DiffPlan::NoOldSource.reason(),
        Some("could not fetch old source from substituters".to_string())
    );
    assert_eq!(
        DiffPlan::OldSourceGone.reason(),
        Some("old store path exists in database but not on disk".to_string())
    );
}

#[test]
fn a_hash_is_fixed_step_by_step() {
    let options = FixOptions { push: true, describe: true };
    let mut step = FixStep::SeekAttr;
    let mut seen = vec![];
    // attribute there, build fails, mismatch read, no old source, file found, hash not
    // in it, found elsewhere, build succeeds
    for yes in
        [true, true, false, true, false, true, false, true, true, true, true, true, true, true]
    {
        seen.push(step);
        step = next_fix_step(options, step, yes);
    }
    assert_eq!(
        seen,
        vec![
            FixStep::SeekAttr,
            FixStep::Prune,
            FixStep::BuildBefore,
            FixStep::ReadMismatch,
            FixStep::FetchOld,
            FixStep::FindFile,
            FixStep::UpdateFile,
            FixStep::SearchFiles,
            FixStep::BuildAfter,
            FixStep::ReadStorePath,
            FixStep::CopyNew,
            FixStep::Diff,
            FixStep::Push,
            FixStep::Describe,
        ]
    );
    assert_eq!(step, FixStep::Done { success: true });
    let quiet = FixOptions { push: false, describe: false };
    assert_eq!(next_fix_step(quiet, FixStep::Diff, true), FixStep::Done { success: true });
    assert_eq!(next_fix_step(quiet, FixStep::SeekAttr, false), FixStep::Done { success: false });
    assert_eq!(next_fix_step(quiet, FixStep::BuildBefore, true), FixStep::Done { success: true });
    assert_eq!(next_fix_step(quiet, FixStep::ReadMismatch, false), FixStep::NoMismatch);
    assert_eq!(next_fix_step(quiet, FixStep::FindFile, false), FixStep::NoFile);
    assert_eq!(next_fix_step(quiet, FixStep::SearchFiles, false), FixStep::Done { success: false });
    assert_eq!(next_fix_step(quiet, FixStep::BuildAfter, false), FixStep::Done { success: false });
    assert_eq!(next_fix_step(quiet, FixStep::ReadStorePath, false), FixStep::NoStorePath);
    assert_eq!(next_fix_step(quiet, FixStep::NoStorePath, true), FixStep::NoStorePath);
    assert_eq!(next_fix_step(quiet, FixStep::NoFile, true), FixStep::NoFile);
}
