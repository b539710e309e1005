use srcbot::summary::{
    build_steps_with_links, build_summary_comment, count_results, format_cli_command, list_systems,
    Tally,
};
use srcbot::types::{FullEvalBuildResult, RemoteBuilderConfig};

#[test]
fn test_build_summary_comment_all_passed() {
    let results = vec![FullEvalBuildResult {
        attr: "hello".to_string(),
        system: "x86_64-linux".to_string(),
        intermediate_results: vec![("src".to_string(), true, "ok".to_string())],
        package_success: true,
        package_logs: "".to_string(),
        is_false_positive: false,
        is_non_deterministic: false,
        exists_on_base: true,
    }];
    let summary = build_summary_comment(123, &results, None, None, None, None, None, None);
    assert!(summary.contains("1/1 packages passed"));
    assert!(summary.contains("0 failed"));
    assert!(!summary.contains("pre-existing"));
}

#[test]
fn test_build_summary_comment_real_failure() {
    let results = vec![FullEvalBuildResult {
        attr: "broken".to_string(),
        system: "x86_64-linux".to_string(),
        intermediate_results: vec![("src".to_string(), false, "error".to_string())],
        package_success: false,
        package_logs: "".to_string(),
        is_false_positive: false,
        is_non_deterministic: false,
        exists_on_base: true,
    }];
    let summary = build_summary_comment(123, &results, None, None, None, None, None, None);
    assert!(summary.contains("0/1 packages passed"));
    assert!(summary.contains("1 failed"));
    assert!(summary.contains("introduced by this PR"));
    assert!(summary.contains("broken"));
    assert!(!summary.contains("pre-existing"));
}

#[test]
fn test_build_summary_comment_false_positive() {
    let results = vec![FullEvalBuildResult {
        attr: "prebroken".to_string(),
        system: "x86_64-linux".to_string(),
        intermediate_results: vec![("src".to_string(), false, "error".to_string())],
        package_success: false,
        package_logs: "".to_string(),
        is_false_positive: true,
        is_non_deterministic: false,
        exists_on_base: true,
    }];
    let summary = build_summary_comment(123, &results, None, Some("abc123def456"), None, None, None, None);
    assert!(summary.contains("0/1 packages passed"));
    assert!(summary.contains("1 failed"));
    assert!(summary.contains("1 pre-existing"));
    assert!(summary.contains("Pre-existing Failures"));
    assert!(summary.contains("prebroken"));
    assert!(summary.contains("base commit: `abc123de`")); // Short commit on separate line
    // When there are only false positives, we shouldn't show the "introduced by this PR" section
    assert!(!summary.contains("introduced by this PR"));
}

#[test]
fn test_build_summary_comment_mixed() {
    let results = vec![
        FullEvalBuildResult {
            attr: "passed".to_string(),
            system: "x86_64-linux".to_string(),
            intermediate_results: vec![("src".to_string(), true, "ok".to_string())],
            package_success: true,
            package_logs: "".to_string(),
            is_false_positive: false,
            is_non_deterministic: false,
            exists_on_base: true,
        },
        FullEvalBuildResult {
            attr: "real-fail".to_string(),
            system: "x86_64-linux".to_string(),
            intermediate_results: vec![("src".to_string(), false, "error".to_string())],
            package_success: false,
            package_logs: "".to_string(),
            is_false_positive: false,
            is_non_deterministic: false,
            exists_on_base: true,
        },
        FullEvalBuildResult {
            attr: "false-positive".to_string(),
            system: "x86_64-linux".to_string(),
            intermediate_results: vec![("src".to_string(), false, "error".to_string())],
            package_success: false,
            package_logs: "".to_string(),
            is_false_positive: true,
            is_non_deterministic: false,
            exists_on_base: true,
        },
    ];
    let summary = build_summary_comment(123, &results, None, None, None, None, None, None);
    assert!(summary.contains("1/3 packages passed"));
    assert!(summary.contains("2 failed"));
    assert!(summary.contains("1 pre-existing"));
    assert!(summary.contains("introduced by this PR"));
    assert!(summary.contains("real-fail"));
    assert!(summary.contains("Pre-existing Failures"));
    assert!(summary.contains("false-positive"));
}

#[test]
fn test_build_summary_comment_with_log_urls() {
    let results = vec![FullEvalBuildResult {
        attr: "python3Packages.broken".to_string(),
        system: "x86_64-linux".to_string(),
        intermediate_results: vec![("src".to_string(), false, "error".to_string())],
        package_success: false,
        package_logs: "".to_string(),
        is_false_positive: false,
        is_non_deterministic: false,
        exists_on_base: true,
    }];
    // With log_url_base and base_commit_short, we get labeled before/after links
    let summary = build_summary_comment(
        123,
        &results,
        Some("https://example.com/logs/123"),
        None,
        None,
        Some("abc12345"),
        None,
        None,
    );
    // Check for the labeled format with before/after links for failed steps
    assert!(summary.contains("src (failed): [before](https://example.com/logs/123/x86_64-linux.python3Packages_broken.src.base-abc12345.log), [after](https://example.com/logs/123/x86_64-linux.python3Packages_broken.src.log)"));
    assert!(summary.contains("package (failed): [before](https://example.com/logs/123/x86_64-linux.python3Packages_broken.package.base-abc12345.log), [after](https://example.com/logs/123/x86_64-linux.python3Packages_broken.package.log)"));
}

#[test]
fn test_build_summary_comment_passed_with_log_urls() {
    let results = vec![FullEvalBuildResult {
        attr: "hello".to_string(),
        system: "x86_64-linux".to_string(),
        intermediate_results: vec![("src".to_string(), true, "ok".to_string())],
        package_success: true,
        package_logs: "".to_string(),
        is_false_positive: false,
        is_non_deterministic: false,
        exists_on_base: true,
    }];
    // Passed packages get simple step links (no before/after) with system prefix
    let summary = build_summary_comment(
        123,
        &results,
        Some("https://example.com/logs/123"),
        None,
        None,
        Some("abc12345"),
        None,
        None,
    );
    assert!(summary.contains("[src](https://example.com/logs/123/x86_64-linux.hello.src.log)"));
    assert!(summary.contains("[package](https://example.com/logs/123/x86_64-linux.hello.package.log)"));
}

#[test]
fn test_build_summary_comment_with_cli_command() {
    let results = vec![FullEvalBuildResult {
        attr: "hello".to_string(),
        system: "x86_64-linux".to_string(),
        intermediate_results: vec![("src".to_string(), true, "ok".to_string())],
        package_success: true,
        package_logs: "".to_string(),
        is_false_positive: false,
        is_non_deterministic: false,
        exists_on_base: true,
    }];
    let cli_cmd = "srcbot verify --full-eval --prs 12345 --remote-builder root@host --remote-system aarch64-linux";
    let summary = build_summary_comment(123, &results, None, None, None, None, Some(cli_cmd), None);
    // CLI command should be in a collapsible section
    assert!(summary.contains("<details>"));
    assert!(summary.contains("<summary>Command</summary>"));
    assert!(summary.contains("```bash"));
    // Command is now formatted with line breaks
    assert!(summary.contains("srcbot verify"));
    assert!(summary.contains("--full-eval"));
    assert!(summary.contains("--prs 12345"));
    assert!(summary.contains("--remote-builder root@host"));
    assert!(summary.contains("--remote-system aarch64-linux"));
    assert!(summary.contains("\\\n")); // Line continuation
    assert!(summary.contains("</details>"));
}

#[test]
fn test_build_summary_comment_multi_arch() {
    let remote_config = RemoteBuilderConfig {
        ssh_target: "user@arm-server".to_string(),
        system: "aarch64-linux".to_string(),
        max_jobs: 4,
        gc_threshold: None,
        gc_keep_days: None,
    };
    let results = vec![
        FullEvalBuildResult {
            attr: "hello".to_string(),
            system: "x86_64-linux".to_string(),
            intermediate_results: vec![("src".to_string(), true, "ok".to_string())],
            package_success: true,
            package_logs: "".to_string(),
            is_false_positive: false,
            is_non_deterministic: false,
            exists_on_base: true,
        },
        FullEvalBuildResult {
            attr: "hello".to_string(),
            system: "aarch64-linux".to_string(),
            intermediate_results: vec![("src".to_string(), true, "ok".to_string())],
            package_success: true,
            package_logs: "".to_string(),
            is_false_positive: false,
            is_non_deterministic: false,
            exists_on_base: true,
        },
    ];
    let summary = build_summary_comment(123, &results, None, None, None, None, None, Some(&remote_config));
    // Should have system headers
    assert!(summary.contains("### x86_64-linux"));
    assert!(summary.contains("### aarch64-linux"));
    // Should mention multiple architectures
    assert!(summary.contains("across 2 architectures"));
}

fn result(attr: &str, system: &str, success: bool) -> FullEvalBuildResult {
    FullEvalBuildResult {
        attr: attr.to_string(),
        system: system.to_string(),
        intermediate_results: vec![("src".to_string(), success, "log".to_string())],
        package_success: success,
        package_logs: "".to_string(),
        is_false_positive: false,
        is_non_deterministic: false,
        exists_on_base: true,
    }
}

#[test]
fn summary_of_one_package_in_full() {
    let results = vec![result("hello", "", true)];
    assert_eq!(
        build_summary_comment(7, &results, None, Some("abc123def456"), Some("0123456789"), None, Some("srcbot verify --prs 7"), None),
        "## srcbot: Full Evaluation Results for PR #7\n\ncompared base commit `abc123de` against head of PR commit `01234567`\n\n<details>\n<summary>Command</summary>\n\n```bash\nsrcbot verify \\\n  --prs 7\n```\n</details>\n\n**Status**: 1/1 packages passed, 0 failed\n\n<details>\n<summary>1 packages passed</summary>\n\n| Package | Steps Built |\n|---------|-------------|\n| hello | src, package |\n\n</details>"
    );
}

#[test]
fn summary_of_failures_in_full() {
    let mut pre = result("b", "x86_64-linux", false);
    pre.is_false_positive = true;
    let mut odd = result("c", "x86_64-linux", true);
    odd.is_non_deterministic = true;
    let results = vec![odd, pre, result("a", "x86_64-linux", false)];
    assert_eq!(
        build_summary_comment(7, &results, None, None, Some("ab"), None, None, None),
        "## srcbot: Full Evaluation Results for PR #7\n\nhead of PR commit: `ab`\n\n**Status**: 1/3 packages passed, 2 failed (1 pre-existing), 1 non-deterministic\n\n<details>\n<summary>Failed Packages (introduced by this PR) - 1 packages</summary>\n\n| Package | Steps |\n|---------|-------|\n| a | src, package |\n\n</details>\n\n<details>\n<summary>Pre-existing Failures (false positives) - 1 packages</summary>\n\nThese packages also fail on the base branch.\n\n| Package | Steps |\n|---------|-------|\n| b | src, package |\n\n</details>\n\n<details>\n<summary>1 packages passed</summary>\n\n| Package | Steps Built |\n|---------|-------------|\n| c (non-deterministic) | src, package |\n\n</details>"
    );
}

#[test]
fn rows_are_sorted_and_the_local_system_is_first() {
    let results = vec![
        result("z", "aarch64-linux", true),
        result("m", "x86_64-linux", true),
        result("a", "x86_64-linux", true),
        result("q", "aarch64-darwin", true),
    ];
    assert_eq!(list_systems(&results), vec!["x86_64-linux", "aarch64-darwin", "aarch64-linux"]);
    let text = build_summary_comment(1, &results, None, None, None, None, None, None);
    assert!(text.find("| a |").unwrap() < text.find("| m |").unwrap());
    assert!(text.find("### x86_64-linux").unwrap() < text.find("### aarch64-darwin").unwrap());
    assert!(text.contains(" across 3 architectures"));
}

#[test]
fn steps_are_shown_in_four_ways() {
    let mut r = result("p.q", "s", false);
    assert_eq!(build_steps_with_links(&r, None, Some("c"), true), "src, package");
    assert_eq!(
        build_steps_with_links(&r, Some("u"), None, true),
        "[src](u/s.p_q.src.log) (failed) · [package](u/s.p_q.package.log) (failed)"
    );
    assert_eq!(
        build_steps_with_links(&r, Some("u"), Some("c"), false),
        "[src](u/s.p_q.src.log), [package](u/s.p_q.package.log)"
    );
    r.intermediate_results[0].1 = true;
    assert_eq!(
        build_steps_with_links(&r, Some("u"), Some("c"), true),
        "[src](u/s.p_q.src.log) (passed) · package (failed): [before](u/s.p_q.package.base-c.log), [after](u/s.p_q.package.log)"
    );
    r.exists_on_base = false;
    assert_eq!(
        build_steps_with_links(&r, Some("u"), Some("c"), true),
        "[src](u/s.p_q.src.log) (passed) · [package](u/s.p_q.package.log) (failed)"
    );
}

#[test]
fn flags_stand_on_their_own_lines() {
    assert_eq!(format_cli_command("srcbot verify"), "srcbot verify");
    assert_eq!(format_cli_command("srcbot verify --a 1 --b"), "srcbot verify \\\n  --a 1 \\\n  --b");
}

#[test]
fn passed_and_failed_add_up() {
    let results = vec![result("a", "", true), result("b", "", false), result("c", "", false)];
    assert_eq!(count_results(Tally::Passed, &results), 1);
    assert_eq!(count_results(Tally::Failed, &results), 2);
    assert_eq!(count_results(Tally::PreExisting, &results), 0);
    assert_eq!(count_results(Tally::NonDeterministic, &results), 0);
}

#[test]
fn the_order_of_the_results_makes_no_difference() {
    let list = || {
        vec![
            result("b", "", false),
            result("a", "aarch64-linux", true),
            result("a", "", true),
            result("c", "", true),
        ]
    };
    let mut turned = list();
    turned.reverse();
    let show = |results: &[FullEvalBuildResult]| {
        build_summary_comment(7, results, Some("u"), Some("abc"), None, Some("abc"), None, None)
    };
    assert_eq!(show(&list()), show(&turned));
    turned.swap(0, 2);
    assert_eq!(show(&list()), show(&turned));
}
