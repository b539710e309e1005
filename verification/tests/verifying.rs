use srcbot::cli::{remote_config, still_passing, HalfRemote};
use srcbot::simple::{
    after_package, after_rebuild, after_tiers, first_failed_attr, format_log, format_status, needs_rebuild,
    next_tier, package_build, pick_attr, pick_merge_commit, verification_message,
    tests_build, verification_passed, PackageBuild, SimpleStep,
};
use srcbot::types::{AttrBuildResult, PrRef, PullRequest};

fn attr(name: &str, exists: bool, code: Option<i32>) -> AttrBuildResult {
    AttrBuildResult {
        name: name.to_string(),
        exists,
        code,
        logs: "log".to_string(),
        cmd: "cmd".to_string(),
    }
}

#[test]
fn the_attribute_is_read_from_the_title() {
    assert_eq!(pick_attr(None, "hello: 1.0 -> 2.0"), Ok("hello".to_string()));
    assert_eq!(pick_attr(None, " python3Packages.x : a: b"), Ok("python3Packages.x".to_string()));
    assert_eq!(pick_attr(Some("asked"), "hello: x"), Ok("asked".to_string()));
    assert_eq!(
        pick_attr(None, "treewide cleanup"),
        Err("Could not parse attribute from PR title 'treewide cleanup'. Expected format 'attribute: description'. Please provide --attr manually.".to_string())
    );
}

#[test]
fn the_merge_commit_is_needed() {
    let side = || PrRef { sha: "s".to_string(), ref_name: "r".to_string() };
    let mut pr = PullRequest {
        title: "t".to_string(),
        head: side(),
        base: side(),
        merge_commit_sha: Some("m".to_string()),
    };
    assert_eq!(pick_merge_commit(&pr), Ok("m".to_string()));
    pr.merge_commit_sha = None;
    assert_eq!(
        pick_merge_commit(&pr),
        Err("PR has no merge commit (might not be mergeable)".to_string())
    );
}

#[test]
fn tiers_are_built_until_one_fails() {
    let mut results = vec![];
    assert_eq!(next_tier(&results), Some(0));
    results.push(attr("src", true, Some(0)));
    results.push(attr("goModules", false, None));
    assert_eq!(next_tier(&results), Some(2));
    assert_eq!(after_tiers(&results, false), SimpleStep::BuildTier { tier: 2 });
    assert_eq!(first_failed_attr(&results), None);
    results.push(attr("cargoDeps", true, Some(1)));
    assert_eq!(next_tier(&results), None);
    assert_eq!(after_tiers(&results, false), SimpleStep::Report);
    assert_eq!(first_failed_attr(&results), Some("cargoDeps".to_string()));
    let all: Vec<AttrBuildResult> = (0..15).map(|_| attr("x", false, None)).collect();
    assert_eq!(after_tiers(&all, false), SimpleStep::BuildPackage);
    assert_eq!(after_tiers(&all, true), SimpleStep::PrunePackage);
}

#[test]
fn a_fetched_package_is_built_again() {
    assert!(needs_rebuild(Some(0), "copying path '/nix/store/x'\nbuilding '/nix/store/y.drv'"));
    assert!(needs_rebuild(Some(0), "these paths will be fetched\nbuilding '/nix/store/y.drv'"));
    assert!(needs_rebuild(Some(0), ""));
    assert!(!needs_rebuild(Some(0), "building '/nix/store/y.drv'"));
    assert!(!needs_rebuild(Some(1), ""));
    assert!(!needs_rebuild(None, ""));
    assert_eq!(after_package(Some(0), "", false), SimpleStep::RebuildPackage);
    assert_eq!(after_package(Some(2), "", false), SimpleStep::Report);
    let fresh = "building '/nix/store/x.drv'";
    assert_eq!(after_package(Some(0), fresh, false), SimpleStep::BuildTests);
    assert_eq!(after_package(Some(0), fresh, true), SimpleStep::Report);
    assert_eq!(after_rebuild(Some(0), false), SimpleStep::BuildTests);
    assert_eq!(after_rebuild(Some(0), true), SimpleStep::Report);
    assert_eq!(after_rebuild(None, false), SimpleStep::Report);
    let once = package_build("/w", "s", "a", false, Some(0), "one".to_string(), None);
    assert_eq!(once.logs, "one");
    assert_eq!(
        once.cmd,
        "nix build --print-build-logs --no-link --impure --expr '(import /w { system = \"s\"; config = { allowUnfree = true; }; }).a' (+ --rebuild if cached)"
    );
    let again = Some((Some(3), "two".to_string()));
    let twice = package_build("/w", "s", "a", false, Some(0), "one".to_string(), again.clone());
    assert_eq!(twice.code, Some(3));
    assert_eq!(twice.logs, "one\n--- Running --rebuild to verify cached package ---\ntwo");
    let anew = package_build("/w", "s", "a", true, Some(0), "one".to_string(), again);
    assert_eq!(anew.logs, "two");
    assert!(anew.cmd.starts_with("nix build --print-build-logs --no-link --rebuild --impure"));
}

#[test]
fn logs_and_codes_are_shown() {
    assert_eq!(
        format_log(" \n", "src Build"),
        "\n**src Build**: No build logs available. That is suspicious."
    );
    assert_eq!(
        format_log("a\nb", "T"),
        "\n<details><summary>T Logs</summary>\n\n```\na\nb\n```\n</details>"
    );
    let long: String = (0..150).map(|i| format!("l{}\n", i)).collect();
    let shown = format_log(&long, "T");
    assert!(shown.starts_with("\n<details><summary>T Logs (Last 100 lines)</summary>\n\n```\n...\nl50\n"));
    assert!(shown.ends_with("l149\n```\n</details>"));
    assert_eq!(format_status(Some(-2)), "Exit Code: -2");
    assert_eq!(format_status(None), "Exit Code: None (Signal/Unknown)");
}

#[test]
fn the_message_in_full() {
    let results = vec![attr("src", true, Some(0)), attr("goModules", false, None)];
    let package = Some(PackageBuild { code: Some(0), logs: "p".to_string(), cmd: "c".to_string() });
    assert!(verification_passed(&results, &package, &None));
    assert_eq!(
        verification_message(4, "hello", "s", &results, &package, &None),
        "## srcbot: Source verification passed\n\n- PR: #4\n- Attribute: `hello`\n- System: `s`\n\n### Step 1: Build `.src`\n\n- **Command**: `cmd`\n- **Status**: Exit Code: 0\n\n<details><summary>src Build Logs</summary>\n\n```\nlog\n```\n</details>\n\n### Step 2: Build Package\n\n- **Command**: `c`\n- **Status**: Exit Code: 0\n\n<details><summary>Package Build Logs</summary>\n\n```\np\n```\n</details>"
    );
    let failed = vec![attr("src", true, Some(1))];
    assert!(!verification_passed(&failed, &None, &None));
    let text = verification_message(4, "hello", "s", &failed, &None, &None);
    assert!(text.starts_with("## srcbot: Source verification FAILED\n"));
    assert!(text.ends_with("### Step 2: Build Package\n\n_Skipped because src build failed._"));
}

#[test]
fn a_remote_builder_is_given_whole_or_not_at_all() {
    let s = |t: &str| Some(t.to_string());
    assert!(remote_config(None, None, 4, None, None).unwrap().is_none());
    let config = remote_config(s("root@h"), s("aarch64-linux"), 2, s("50G"), Some(1)).unwrap().unwrap();
    assert_eq!(config.ssh_target, "root@h");
    assert_eq!(config.gc_keep_days, Some(1));
    assert_eq!(remote_config(s("root@h"), None, 4, None, None).unwrap_err(), HalfRemote);
    assert_eq!(remote_config(None, s("x"), 4, None, None).unwrap_err(), HalfRemote);
    assert!(still_passing(true, Ok(true)));
    assert!(!still_passing(true, Ok(false)));
    assert!(!still_passing(true, Err("e".to_string())));
    assert!(!still_passing(false, Ok(true)));
}

#[test]
fn failed_tests_fail_the_verification() {
    let results = vec![attr("src", true, Some(0))];
    let package = Some(PackageBuild {
        code: Some(0),
        logs: "log".to_string(),
        cmd: "cmd".to_string(),
    });
    let tests = tests_build("/n", "s", "hello", Some(1), "broke".to_string());
    assert_eq!(
        tests.cmd,
        "nix-build --no-out-link --expr 'with import /n { system = \"s\"; config = { allowUnfree = true; }; }; builtins.attrValues hello.passthru.tests'"
    );
    let tests = Some(tests);
    assert!(verification_passed(&results, &package, &None));
    assert!(!verification_passed(&results, &package, &tests));
    let plain = verification_message(4, "hello", "s", &results, &package, &None);
    let text = verification_message(4, "hello", "s", &results, &package, &tests);
    assert!(text.starts_with("## srcbot: Source verification FAILED"));
    assert!(text.contains("\n\n### Step 3: Build Tests\n\n- **Command**: `nix-build"));
    assert!(text.contains("<summary>Tests Build Logs</summary>\n\n```\nbroke\n```"));
    assert!(!plain.contains("Build Tests"));
}
