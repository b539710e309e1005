use srcbot::attr_map::AttrMap;
use srcbot::check_all::{
    all_failures, attr_in_set, classify_failure, classify_lowered, count_kind, failure_breakdown,
    first_lines, make_failure, next_check_work, packages_having, pad_left, pad_right, start_check, summary_row,
    table_head, table_title, BuildFailure, CheckAllSummary, FailureType, IntermediateSummary,
};
use srcbot::full_eval_types::EvalJobOutput;

#[test]
fn test_classify_failure_hash_mismatch() {
    // Test various hash mismatch patterns
    assert!(matches!(
        classify_failure("error: hash mismatch in fixed-output derivation"),
        FailureType::HashMismatch
    ));
    assert!(matches!(
        classify_failure("got: sha256-abc123..."),
        FailureType::HashMismatch
    ));
    assert!(matches!(
        classify_failure("specified: sha256-xyz789..."),
        FailureType::HashMismatch
    ));
    assert!(matches!(
        classify_failure("Hash Mismatch detected"),
        FailureType::HashMismatch
    ));
}

#[test]
fn test_classify_failure_404() {
    // Test various 404/not found patterns
    assert!(matches!(
        classify_failure("HTTP error 404"),
        FailureType::NotFound404
    ));
    assert!(matches!(
        classify_failure("file not found"),
        FailureType::NotFound404
    ));
    assert!(matches!(
        classify_failure("resource could not be found"),
        FailureType::NotFound404
    ));
    assert!(matches!(
        classify_failure("path does not exist"),
        FailureType::NotFound404
    ));
}

#[test]
fn test_classify_failure_unknown() {
    // Test that unrecognized patterns return Unknown
    assert!(matches!(
        classify_failure("some random error"),
        FailureType::Unknown
    ));
    assert!(matches!(
        classify_failure("compilation failed"),
        FailureType::Unknown
    ));
    assert!(matches!(classify_failure(""), FailureType::Unknown));
}

#[test]
fn test_failure_type_display() {
    assert_eq!(FailureType::HashMismatch.to_string(), "Hash mismatch");
    assert_eq!(FailureType::NotFound404.to_string(), "404 Not Found");
    assert_eq!(FailureType::EvalError.to_string(), "Eval error");
    assert_eq!(FailureType::Unknown.to_string(), "Unknown");
}

#[test]
fn test_intermediate_summary_default() {
    let summary = IntermediateSummary::default();
    assert_eq!(summary.attempted, 0);
    assert_eq!(summary.passed, 0);
    assert_eq!(summary.failed, 0);
    assert!(summary.failures.is_empty());
}

#[test]
fn test_check_all_summary_default() {
    let summary = CheckAllSummary::default();
    assert_eq!(summary.total_packages, 0);
    assert_eq!(summary.eval_errors, 0);
    assert!(summary.per_intermediate.is_empty());
}

#[test]
fn test_check_all_summary_with_data() {
    let mut summary = CheckAllSummary {
        total_packages: 100,
        eval_errors: 5,
        per_intermediate: AttrMap::new(),
    };

    let src_summary = IntermediateSummary {
        attempted: 95,
        passed: 90,
        failed: 5,
        failures: vec![BuildFailure {
            attr: "broken-pkg".to_string(),
            intermediate: "src".to_string(),
            failure_type: FailureType::HashMismatch,
            log_path: None,
            error_snippet: "error".to_string(),
        }],
    };

    summary
        .per_intermediate
        .insert("src".to_string(), src_summary.clone());

    assert_eq!(summary.total_packages, 100);
    assert_eq!(summary.eval_errors, 5);
    assert_eq!(summary.per_intermediate.len(), 1);

    let src = summary.per_intermediate.get("src").unwrap();
    assert_eq!(src.attempted, 95);
    assert_eq!(src.passed, 90);
    assert_eq!(src.failed, 5);
    assert_eq!(src.failures.len(), 1);
}

#[test]
fn test_classify_failure_case_insensitive() {
    // Verify case insensitivity
    assert!(matches!(
        classify_failure("HASH MISMATCH"),
        FailureType::HashMismatch
    ));
    assert!(matches!(
        classify_failure("NOT FOUND"),
        FailureType::NotFound404
    ));
    assert!(matches!(
        classify_failure("Got: sha256-..."),
        FailureType::HashMismatch
    ));
}

fn eval(attr: &str, src: Option<&str>, error: Option<&str>) -> EvalJobOutput {
    let mut map = AttrMap::new();
    map.insert("src".to_string(), src.map(|s| s.to_string()));
    EvalJobOutput {
        attr: attr.to_string(),
        drv_path: None,
        error: error.map(|e| e.to_string()),
        extra_value: Some(map),
    }
}

#[test]
fn builds_that_end_are_counted() {
    let mut s = IntermediateSummary::start(3);
    s.record("a", "src", true, "");
    s.record("b", "src", false, "error: HTTP 404");
    let logs: String = (0..20).map(|i| format!("line {}\n", i)).collect();
    s.record("c", "src", false, &logs);
    assert_eq!((s.attempted, s.passed, s.failed), (3, 1, 2));
    assert_eq!(s.failures.len(), 2);
    assert_eq!(s.failures[0].failure_type, FailureType::NotFound404);
    assert_eq!(s.failures[0].attr, "b");
    assert_eq!(s.failures[1].error_snippet.lines().count(), 10);
    assert!(s.failures[1].error_snippet.ends_with("line 9"));
    assert_eq!(summary_row("src", &s, "33.3"), "src              |         3 |      1 |      2 |     33.3%");
    let mut all = CheckAllSummary::default();
    assert!(all.all_passed());
    all.finish("src", s);
    all.finish("goModules", IntermediateSummary::start(0));
    assert!(!all.all_passed());
    assert_eq!(all_failures(&all).len(), 2);
    assert_eq!(
        failure_breakdown(&all),
        "\nFailure Breakdown:\n  404 Not Found: 1\n  Unknown: 1\n"
    );
    assert_eq!(count_kind(&all_failures(&all), FailureType::HashMismatch), 0);
}

#[test]
fn packages_are_selected() {
    let packages = vec![
        eval("a", Some("s"), None),
        eval("bad", Some("s"), Some("boom")),
        eval("b", None, None),
        eval("c", Some("s"), None),
    ];
    let (summary, chosen) = start_check(&packages, None);
    assert_eq!(summary.total_packages, 4);
    assert_eq!(summary.eval_errors, 1);
    assert_eq!(chosen, vec![0, 2, 3]);
    assert_eq!(packages_having(&packages, &chosen, "src"), vec![0, 3]);
    assert_eq!(packages_having(&packages, &chosen, "npmDeps"), Vec::<usize>::new());
    assert_eq!(next_check_work(&packages, &chosen, 0), Some((0, vec![0, 3])));
    assert_eq!(next_check_work(&packages, &Vec::new(), 0), None);
    assert_eq!(next_check_work(&packages, &chosen, 15), None);
    let (limited, few) = start_check(&packages, Some(2));
    assert_eq!(limited.eval_errors, 1);
    assert_eq!(few, vec![0, 2]);
    assert_eq!(attr_in_set("", "a"), "a");
    assert_eq!(attr_in_set("python3Packages", "a"), "python3Packages.a");
}

#[test]
fn the_table_is_laid_out() {
    assert_eq!(table_head(), format!("{:<16} | {:>9} | {:>6} | {:>6} | {:>9}", "Intermediate", "Attempted", "Passed", "Failed", "Pass Rate"));
    assert_eq!(
        summary_row("composerRepository", &IntermediateSummary::start(12), "0.0"),
        format!("{:<16} | {:>9} | {:>6} | {:>6} | {:>8.1}%", "composerRepository", 12, 0, 0, 0.0)
    );
    assert_eq!(pad_left("é", 3), "  é");
    assert_eq!(pad_right("é", 3), "é  ");
    let summary = CheckAllSummary::default();
    assert_eq!(
        table_title(&summary, ""),
        "\n============================================================\n           check-all Summary: all packages\n============================================================\nTotal packages evaluated: 0\nEvaluation errors: 0\n\n"
    );
    assert!(table_title(&summary, "haskellPackages").contains("check-all Summary: haskellPackages\n"));
    assert_eq!(failure_breakdown(&summary), "");
}

#[test]
fn logs_in_small_letters_are_classified() {
    assert_eq!(classify_lowered("got: x"), FailureType::HashMismatch);
    assert_eq!(classify_lowered("GOT: x"), FailureType::Unknown);
    assert_eq!(first_lines("a\nb\nc", 2), "a\nb");
    assert_eq!(first_lines("a\nb\n", 5), "a\nb");
    assert_eq!(make_failure("a", "src", "specified: x").failure_type, FailureType::HashMismatch);
}
