use srcbot::nix::{
    advance_build, answer_is_true, make_tests_expr, delete_command, eval_jobs_args, eval_lines, get_apply_expr,
    is_local, make_attr_command, make_attr_expr, make_check_args, make_delete_args, make_full_attr,
    make_has_attr_expr, make_import_expr, make_nix_build_args, make_out_path_expr,
    make_package_build_args, make_package_expr, make_path_info_args, make_pkgset_expr,
    missing_attr, needs_check, parse_path_info, read_path_info, start_build, store_path_of,
    tells_mismatch, tried_attr, with_builders, with_check_log, BuildStep, PathInfo,
};
use srcbot::types::{AttrBuildResult, INTERMEDIATE_ATTRS};

#[test]
fn test_get_apply_expr_contains_all_intermediate_attrs() {
    let expr = get_apply_expr();
    // Verify the expression contains all INTERMEDIATE_ATTRS
    for attr in INTERMEDIATE_ATTRS {
        assert!(
            expr.contains(&format!("\"{}\"", attr)),
            "Apply expression should contain intermediate attr: {}",
            attr
        );
    }
}

#[test]
fn test_get_apply_expr_valid_nix_structure() {
    let expr = get_apply_expr();
    // Verify it has basic Nix structure
    assert!(expr.contains("drv:"), "Expression should start with drv:");
    assert!(
        expr.contains("let"),
        "Expression should have let binding"
    );
    assert!(
        expr.contains("intermediateAttrNames"),
        "Expression should define intermediateAttrNames"
    );
    assert!(
        expr.contains("builtins.tryEval"),
        "Expression should use builtins.tryEval for safety"
    );
    assert!(
        expr.contains("builtins.listToAttrs"),
        "Expression should return an attrset"
    );
}

#[test]
fn test_intermediate_attrs_src_comes_first() {
    // This is critical for the ordering dependency documented in types.rs
    assert_eq!(
        INTERMEDIATE_ATTRS[0], "src",
        "src must be the first intermediate attr because other attrs depend on it"
    );
}

#[test]
fn test_intermediate_attrs_no_duplicates() {
    let mut seen = std::collections::HashSet::new();
    for attr in INTERMEDIATE_ATTRS {
        assert!(
            seen.insert(attr),
            "INTERMEDIATE_ATTRS contains duplicate: {}",
            attr
        );
    }
}

#[test]
fn test_attr_build_result_success() {
    let result = AttrBuildResult {
        name: "src".to_string(),
        exists: true,
        code: Some(0),
        logs: "built successfully".to_string(),
        cmd: "nix-build ...".to_string(),
    };
    assert!(result.success());
    assert!(result.attempted());
}

#[test]
fn test_attr_build_result_nonexistent_is_success() {
    // Non-existent attrs are considered "success" (nothing to do)
    let result = AttrBuildResult {
        name: "goModules".to_string(),
        exists: false,
        code: None,
        logs: String::new(),
        cmd: String::new(),
    };
    assert!(result.success());
    assert!(!result.attempted());
}

#[test]
fn test_attr_build_result_failure() {
    let result = AttrBuildResult {
        name: "src".to_string(),
        exists: true,
        code: Some(1),
        logs: "hash mismatch".to_string(),
        cmd: "nix-build ...".to_string(),
    };
    assert!(!result.success());
    assert!(result.attempted());
}

#[test]
fn test_attr_build_result_no_exit_code_is_failure() {
    // If exists but no exit code, it's a failure (e.g., signal termination)
    let result = AttrBuildResult {
        name: "src".to_string(),
        exists: true,
        code: None,
        logs: "killed by signal".to_string(),
        cmd: "nix-build ...".to_string(),
    };
    assert!(!result.success());
    assert!(result.attempted());
}

#[test]
fn test_parse_path_info_locally_built() {
    // When a path is built locally, ultimate is true
    let json = r#"{"/nix/store/abc123-hello-src":{"signatures":[],"ultimate":true}}"#;
    let info = parse_path_info(json);
    assert_eq!(info, PathInfo::Told { ultimate: true });
    assert!(is_local(info), "Locally built path should have ultimate=true");
}

#[test]
fn test_parse_path_info_from_cache() {
    // When a path comes from cache, ultimate is false and has signatures
    let json = r#"{"/nix/store/abc123-hello-src":{"signatures":["cache.nixos.org-1:xyz"],"ultimate":false}}"#;
    let info = parse_path_info(json);
    assert_eq!(info, PathInfo::Told { ultimate: false });
    assert!(!is_local(info), "Cached path should have ultimate=false");
}

#[test]
fn test_parse_path_info_missing_ultimate_defaults_false() {
    // If ultimate field is missing, we default to false (assume cached, safer to run --check)
    let json = r#"{"/nix/store/abc123":{"signatures":[]}}"#;
    let info = parse_path_info(json);
    assert_eq!(info, PathInfo::Untold);
    assert!(!is_local(info), "Missing ultimate should default to false");
}

#[test]
fn test_parse_path_info_empty_object() {
    // If path-info returns empty object, we should handle gracefully
    let json = r#"{}"#;
    assert_eq!(
        parse_path_info(json),
        PathInfo::NoPath,
        "Empty object should return None for info"
    );
}

#[test]
fn test_parse_path_info_with_multiple_paths() {
    // path-info might return multiple paths, we check the first one
    let json = r#"{
            "/nix/store/abc123-hello-src":{"signatures":[],"ultimate":true},
            "/nix/store/def456-world-src":{"signatures":["cache.nixos.org-1:xyz"],"ultimate":false}
        }"#;
    // Just verify we can parse it - the actual value depends on iteration order
    assert!(matches!(parse_path_info(json), PathInfo::Told { .. }));
}

#[test]
fn test_parse_path_info_ultimate_not_bool() {
    // If ultimate is somehow not a bool, we should handle gracefully
    let json = r#"{"/nix/store/abc123":{"signatures":[],"ultimate":"yes"}}"#;
    let info = parse_path_info(json);
    assert_eq!(info, PathInfo::Untold);
    assert!(!is_local(info), "Non-bool ultimate should default to false");
}

#[test]
fn test_parse_path_info_with_narsize_and_other_fields() {
    // Real nix path-info output has more fields
    let json = r#"{
            "/nix/store/abc123-hello-2.10":
            {
                "deriver":"/nix/store/xyz-hello.drv",
                "narHash":"sha256:abc123...",
                "narSize":1234,
                "references":["/nix/store/ref1","/nix/store/ref2"],
                "signatures":["cache.nixos.org-1:sig..."],
                "ultimate":false
            }
        }"#;
    let info = parse_path_info(json);
    assert_eq!(info, PathInfo::Told { ultimate: false });
    assert!(!is_local(info), "Path with cache signature should have ultimate=false");
    // The other fields are there, too
    let parsed: serde_json::Value = serde_json::from_str(json).unwrap();
    let fields = parsed.as_object().unwrap().values().next().unwrap();
    assert!(fields.get("narSize").is_some());
    assert!(fields.get("signatures").is_some());
}

#[test]
fn test_needs_check_when_path_existed_before_build() {
    // Scenario 1: Path existed before build → must run --check
    // This catches the bug where a FOD already exists from a previous build
    let existed_before = true;
    let built_locally = true; // doesn't matter when existed_before is true
    assert!(
        needs_check(existed_before, built_locally),
        "Must run --check when path existed before build (could be from different nixpkgs)"
    );
}

#[test]
fn test_needs_check_when_pulled_from_cache() {
    // Scenario 2: Path didn't exist, pulled from cache → must run --check
    let existed_before = false;
    let built_locally = false; // from cache
    assert!(
        needs_check(existed_before, built_locally),
        "Must run --check when path was pulled from cache"
    );
}

#[test]
fn test_needs_check_when_built_fresh() {
    // Scenario 3: Path didn't exist, built fresh → skip --check
    let existed_before = false;
    let built_locally = true; // built locally just now
    assert!(
        !needs_check(existed_before, built_locally),
        "Skip --check when path was built fresh (already verified)"
    );
}

#[test]
fn test_needs_check_logic_complete() {
    // existed_before | built_locally | needs_check
    //     false      |    false      |    true  (from cache)
    //     false      |    true       |    false (built fresh)
    //     true       |    false      |    true  (existed + from cache somehow)
    //     true       |    true       |    true  (existed before)
    assert!(needs_check(false, false), "case 1: didn't exist, from cache -> check");
    assert!(!needs_check(false, true), "case 2: didn't exist, built fresh -> no check");
    assert!(needs_check(true, false), "case 3: existed, from cache -> check");
    assert!(needs_check(true, true), "case 4: existed, built locally -> check");
}

#[test]
fn unreadable_path_info_counts_as_fetched() {
    let info = parse_path_info("not json");
    assert_eq!(info, PathInfo::Unreadable);
    assert!(!is_local(info));
    assert_eq!(read_path_info(Some(Some(Some(true)))), PathInfo::Told { ultimate: true });
    assert_eq!(parse_path_info("[1, 2]"), PathInfo::NoPath);
}

#[test]
fn apply_expression_is_the_nix_function() {
    let expr = get_apply_expr();
    assert!(expr.starts_with("drv: let\n  intermediateAttrNames = [ \"src\" \"goModules\" \"cargoDeps\""));
    assert!(expr.contains("\"mitmCache\" \"mixFodDeps\" ];\n  tryGetDrvPath = name:\n    let\n"));
    assert!(expr.contains("        if drv ? ${name} then\n          let attr = drv.${name}; in\n"));
    assert!(expr.ends_with(
        "    map (name: { inherit name; value = tryGetDrvPath name; }) intermediateAttrNames\n  )\n)"
    ));
}

#[test]
fn expressions_are_written_out() {
    assert_eq!(
        make_import_expr("/np", "x86_64-linux"),
        "import /np { system = \"x86_64-linux\"; config = { allowUnfree = true; }; }"
    );
    assert_eq!(
        make_pkgset_expr("/np", "", "s"),
        "import /np { system = \"s\"; config = { allowUnfree = true; }; }"
    );
    assert_eq!(
        make_pkgset_expr("/np", "python3Packages", "s"),
        "let pkgs = import /np { system = \"s\"; config = { allowUnfree = true; }; }; in pkgs.python3Packages // { recurseForDerivations = true; }"
    );
    assert_eq!(
        make_attr_expr("/np", "s", "hello.src"),
        "with import /np { system = \"s\"; config = { allowUnfree = true; }; }; hello.src"
    );
    assert_eq!(
        make_package_expr("/np", "s", "hello"),
        "(import /np { system = \"s\"; config = { allowUnfree = true; }; }).hello"
    );
    assert_eq!(
        make_has_attr_expr("/np", "s", "hello", "src"),
        "with import /np { system = \"s\"; }; hello ? src"
    );
    assert_eq!(
        make_out_path_expr("/np", "s", "hello", ""),
        "with import /np { system = \"s\"; }; hello.outPath"
    );
    assert_eq!(
        make_out_path_expr("/np", "s", "hello", "src"),
        "with import /np { system = \"s\"; }; hello.src.outPath"
    );
    assert_eq!(make_full_attr("hello", ""), "hello");
    assert_eq!(make_full_attr("hello", "src"), "hello.src");
}

#[test]
fn arguments_are_written_out() {
    assert_eq!(make_nix_build_args("E", true), vec!["--no-out-link", "--expr", "E"]);
    assert_eq!(
        make_nix_build_args("E", false),
        vec!["--no-out-link", "--substituters", "", "--expr", "E"]
    );
    assert_eq!(make_check_args("E"), vec!["--no-out-link", "--check", "--expr", "E"]);
    assert_eq!(
        make_package_build_args("E", false),
        vec![
            "--extra-experimental-features",
            "nix-command",
            "build",
            "--print-build-logs",
            "--no-link",
            "--impure",
            "--expr",
            "E"
        ]
    );
    let rebuild = make_package_build_args("E", true);
    assert_eq!(rebuild[5], "--rebuild");
    assert_eq!(rebuild.len(), 9);
    let eval = eval_jobs_args("E", 7);
    assert_eq!(eval[0], "--expr");
    assert_eq!(eval[1], "E");
    assert_eq!(eval[3], get_apply_expr());
    assert_eq!(eval[5], "7");
    assert_eq!(make_path_info_args("/nix/store/x")[2], "path-info");
    let paths = vec!["/nix/store/a".to_string(), "/nix/store/b".to_string()];
    assert_eq!(
        delete_command(&paths),
        "sudo nix-store --delete --ignore-liveness /nix/store/a /nix/store/b"
    );
    assert_eq!(make_delete_args(&paths).len(), 5);
    assert_eq!(
        make_attr_command("/np", "s", "hello.src", false),
        "nix-build --no-out-link --substituters '' --expr 'with import /np { system = \"s\"; config = { allowUnfree = true; }; }; hello.src'"
    );
    assert!(make_attr_command("/np", "s", "hello.src", true).ends_with("' (+ --check if cached)"));
}

#[test]
fn answers_are_read() {
    assert!(answer_is_true(" true\n"));
    assert!(!answer_is_true("false"));
    assert_eq!(store_path_of("\"/nix/store/abc-x\"\n"), "/nix/store/abc-x");
    assert_eq!(eval_lines("{\"a\":1}\n\n   \n{\"b\":2}\r\n"), vec!["{\"a\":1}", "{\"b\":2}"]);
}

#[test]
fn cached_build_is_checked_unless_built_here() {
    // not there before, built here: no check
    let mut run = start_build(true);
    assert_eq!(run.step, BuildStep::SeekPath);
    run = advance_build(run, false);
    assert_eq!(run.step, BuildStep::Build);
    run = advance_build(run, true);
    assert_eq!(run.step, BuildStep::SeekPathAgain);
    run = advance_build(run, true);
    assert_eq!(run.step, BuildStep::AskOrigin);
    run = advance_build(run, true);
    assert_eq!(run.step, BuildStep::Done { success: true, non_deterministic: false });
    // there before: checked, and the check fails
    let mut again = advance_build(advance_build(start_build(true), true), true);
    again = advance_build(again, true);
    assert_eq!(again.step, BuildStep::Check);
    let compared = advance_build(again, true);
    assert_eq!(compared.step, BuildStep::Done { success: true, non_deterministic: false });
    again = advance_build(again, false);
    assert_eq!(again.step, BuildStep::ReadCheck);
    let broken = advance_build(again, tells_mismatch("Failed to spawn nix-build: not found"));
    assert_eq!(broken.step, BuildStep::Done { success: false, non_deterministic: false });
    again = advance_build(again, tells_mismatch("error: hash mismatch in fixed-output derivation"));
    assert_eq!(again.step, BuildStep::Done { success: false, non_deterministic: true });
    assert_eq!(advance_build(again, true).step, again.step);
    // without the cache: one build
    let fresh = advance_build(start_build(false), false);
    assert_eq!(fresh.step, BuildStep::Done { success: false, non_deterministic: false });
}

#[test]
fn results_of_attributes_are_made() {
    let missing = missing_attr("goModules");
    assert!(!missing.attempted() && missing.success());
    let tried = tried_attr("src", "cmd".to_string(), Ok((Some(1), "log".to_string())));
    assert!(tried.attempted() && !tried.success());
    assert_eq!(tried.code, Some(1));
    let broken = tried_attr("src", "cmd".to_string(), Err("no nix".to_string()));
    assert_eq!(broken.code, None);
    assert_eq!(broken.logs, "no nix");
    assert_eq!(broken.cmd, "cmd");
    assert_eq!(with_check_log("a", "b"), "a\n--- Running --check to verify FOD ---\nb");
}

#[test]
fn the_tests_of_a_package_are_asked_for() {
    assert_eq!(
        make_tests_expr("/n", "s", "hello"),
        "with import /n { system = \"s\"; config = { allowUnfree = true; }; }; builtins.attrValues hello.passthru.tests"
    );
}

#[test]
fn builders_are_added_where_there_are_some() {
    let args = || vec!["--expr".to_string(), "E".to_string()];
    assert_eq!(with_builders(args(), None), args());
    assert_eq!(with_builders(args(), Some("ssh://b")), vec!["--expr", "E", "--builders", "ssh://b"]);
}
