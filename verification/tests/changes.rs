use srcbot::attr_map::AttrMap;
use srcbot::full_eval::{
    copy_changed, every_change_built, find_changed_packages, find_packages_to_build,
    has_intermediate, make_log_url_base,
    make_run_state, no_changes_comment, no_changes_message, packages_for_state,
    packages_from_state, pick_base_commit, remaining_packages, results_from_state,
    results_of_system,
    saved_state_is_valid, system_jobs, systems_to_test,
};
use srcbot::full_eval_types::EvalJobOutput;
use srcbot::types::{ChangedPackage, FullEvalBuildResult, RemoteBuilderConfig};

fn eval(attr: &str, drv: Option<&str>, ints: &[(&str, Option<&str>)]) -> EvalJobOutput {
    let mut map = AttrMap::new();
    for (name, path) in ints {
        map.insert(name.to_string(), path.map(|p| p.to_string()));
    }
    EvalJobOutput {
        attr: attr.to_string(),
        drv_path: drv.map(|d| d.to_string()),
        error: None,
        extra_value: Some(map),
    }
}

fn result(attr: &str, system: &str, success: bool) -> FullEvalBuildResult {
    FullEvalBuildResult {
        attr: attr.to_string(),
        system: system.to_string(),
        intermediate_results: vec![],
        package_success: success,
        package_logs: String::new(),
        is_false_positive: false,
        is_non_deterministic: false,
        exists_on_base: true,
    }
}

fn remote() -> RemoteBuilderConfig {
    RemoteBuilderConfig {
        ssh_target: "root@arm".to_string(),
        system: "aarch64-linux".to_string(),
        max_jobs: 2,
        gc_threshold: None,
        gc_keep_days: None,
    }
}

#[test]
fn changed_intermediates_are_found_in_order() {
    let base = vec![eval("a", Some("d1"), &[("src", Some("s1")), ("goModules", Some("g1"))])];
    let pr = vec![eval(
        "a",
        Some("d2"),
        &[("zzz", Some("z")), ("goModules", Some("g2")), ("npmDeps", None), ("src", Some("s2"))],
    )];
    let changed = find_changed_packages(&base, &pr, false);
    assert_eq!(changed.len(), 1);
    assert_eq!(changed[0].attr, "a");
    assert_eq!(changed[0].changed_intermediates, vec!["src", "goModules", "zzz"]);
    assert_eq!(changed[0].intermediate_drv_paths.get("src"), Some(&"s2".to_string()));
    assert_eq!(changed[0].intermediate_drv_paths.get("npmDeps"), None);
    assert_eq!(changed[0].intermediate_drv_paths.len(), 3);
    assert!(!changed[0].final_drv_changed);
}

#[test]
fn an_evaluation_does_not_differ_from_itself() {
    let one = vec![eval("a", Some("d"), &[("src", Some("s"))]), eval("b", None, &[])];
    let other = vec![eval("a", Some("d"), &[("src", Some("s"))]), eval("b", None, &[])];
    assert!(find_changed_packages(&one, &other, false).is_empty());
    assert!(find_changed_packages(&one, &other, true).is_empty());
}

#[test]
fn derivations_of_packages_count_if_asked_for() {
    let base = vec![eval("a", Some("d1"), &[("src", Some("s"))])];
    let pr = vec![eval("a", Some("d2"), &[("src", Some("s"))]), eval("new", Some("n"), &[])];
    assert!(find_changed_packages(&base, &pr, false).is_empty());
    let changed = find_changed_packages(&base, &pr, true);
    assert_eq!(changed.len(), 2);
    assert!(changed[0].final_drv_changed && changed[0].changed_intermediates.is_empty());
    assert_eq!(changed[1].attr, "new");
}

#[test]
fn failed_evaluations_are_passed_over_and_new_packages_found() {
    let mut failed = eval("bad", Some("d"), &[("src", Some("s"))]);
    failed.error = Some("boom".to_string());
    let pr = vec![failed, eval("new", None, &[("src", Some("s"))])];
    let changed = find_changed_packages(&[], &pr, true);
    assert_eq!(changed.len(), 1);
    assert_eq!(changed[0].attr, "new");
    assert!(has_intermediate(&pr[1], "src"));
    assert!(!has_intermediate(&pr[1], "npmDeps"));
}

#[test]
fn the_last_entry_of_the_base_counts() {
    let base = vec![eval("a", None, &[("src", Some("old"))]), eval("a", None, &[("src", Some("s"))])];
    let pr = vec![eval("a", None, &[("src", Some("s"))])];
    assert!(find_changed_packages(&base, &pr, false).is_empty());
}

#[test]
fn systems_and_commits_are_picked() {
    assert_eq!(systems_to_test("x86_64-linux", None), vec!["x86_64-linux"]);
    assert_eq!(
        systems_to_test("x86_64-linux", Some(&remote())),
        vec!["x86_64-linux", "aarch64-linux"]
    );
    assert_eq!(systems_to_test("aarch64-linux", Some(&remote())), vec!["aarch64-linux"]);
    assert_eq!(pick_base_commit(None, "mb", true), "mb");
    assert_eq!(pick_base_commit(Some("asked"), "mb", true), "asked");
    assert_eq!(pick_base_commit(Some("asked"), "mb", false), "mb");
    assert_eq!(system_jobs("l", "l", 8, Some(&remote())), (None, 8));
    assert_eq!(
        system_jobs("aarch64-linux", "l", 8, Some(&remote())),
        (Some("ssh://root@arm aarch64-linux - 2 1 big-parallel".to_string()), 2)
    );
    assert_eq!(system_jobs("other", "l", 8, None), (None, 8));
}

#[test]
fn a_saved_run_is_taken_up_only_where_it_matches() {
    let packages = vec![ChangedPackage {
        attr: "a".to_string(),
        changed_intermediates: vec!["src".to_string()],
        intermediate_drv_paths: AttrMap::new(),
        final_drv_changed: false,
    }];
    let results = vec![result("a", "x", true), result("b", "other", false)];
    let state = make_run_state(1, "mb", "head", "x", "srcbot verify", &packages, &results);
    assert!(saved_state_is_valid(&state, "mb", "head", "x", 1));
    assert!(!saved_state_is_valid(&state, "mb2", "head", "x", 1));
    assert!(!saved_state_is_valid(&state, "mb", "head2", "x", 1));
    assert!(!saved_state_is_valid(&state, "mb", "head", "y", 1));
    assert!(!saved_state_is_valid(&state, "mb", "head", "x", 2));
    assert_eq!(state.completed_results.len(), 1);
    assert_eq!(state.cli_command, "srcbot verify");
    let again = packages_from_state(&state.packages_to_build);
    assert_eq!(again.len(), 1);
    assert_eq!(again[0].attr, "a");
    assert_eq!(again[0].changed_intermediates, vec!["src"]);
    assert!(again[0].intermediate_drv_paths.is_empty());
    assert_eq!(packages_for_state(&again)[0].attr, "a");
}

#[test]
fn packages_that_are_done_are_not_built_again() {
    let package = |attr: &str| {
        let mut paths = AttrMap::new();
        paths.insert("src".to_string(), format!("/nix/store/{}", attr));
        ChangedPackage {
            attr: attr.to_string(),
            changed_intermediates: vec!["src".to_string()],
            intermediate_drv_paths: paths,
            final_drv_changed: false,
        }
    };
    let packages = vec![package("a"), package("b")];
    let done = vec![result("a", "x", false)];
    let left = remaining_packages(&packages, &done);
    assert_eq!(left.len(), 1);
    assert_eq!(left[0].attr, "b");
    assert_eq!(left[0].intermediate_drv_paths.get("src"), Some(&"/nix/store/b".to_string()));
    assert_eq!(remaining_packages(&packages, &vec![]).len(), 2);
    assert_eq!(copy_changed(&packages[0]).attr, "a");
    assert_eq!(results_of_system(&done, "y").len(), 0);
}

#[test]
fn every_changed_package_has_to_be_built() {
    let package = |attr: &str| ChangedPackage {
        attr: attr.to_string(),
        changed_intermediates: vec![],
        intermediate_drv_paths: AttrMap::new(),
        final_drv_changed: true,
    };
    let systems = vec!["x".to_string(), "y".to_string()];
    let changed = vec![vec![package("a"), package("b")], vec![package("a")]];
    assert!(!every_change_built(&systems, &changed, &vec![]));
    let mut results = vec![result("a", "x", true), result("b", "x", true)];
    assert!(!every_change_built(&systems, &changed, &results));
    results.push(result("a", "y", true));
    assert!(every_change_built(&systems, &changed, &results));
    results[2].package_success = false;
    results[2].is_false_positive = true;
    assert!(!every_change_built(&systems, &changed, &results));
    assert!(every_change_built(&systems, &vec![vec![], vec![]], &vec![]));
}

#[test]
fn all_intermediates_are_built_where_asked_for() {
    let base = vec![eval("a", Some("d"), &[("src", Some("s")), ("goModules", Some("g"))])];
    let pr = vec![eval("a", Some("d2"), &[("goModules", Some("g2")), ("src", Some("s"))])];
    let few = find_packages_to_build(&base, &pr, false, false);
    assert_eq!(few[0].changed_intermediates, vec!["goModules"]);
    assert_eq!(find_changed_packages(&base, &pr, false)[0].changed_intermediates, vec!["goModules"]);
    let all = find_packages_to_build(&base, &pr, false, true);
    assert_eq!(all.len(), 1);
    assert_eq!(all[0].changed_intermediates, vec!["src", "goModules"]);
    assert_eq!(all[0].intermediate_drv_paths.get("src"), Some(&"s".to_string()));
    assert!(find_packages_to_build(&base, &base, true, true).is_empty());
}

#[test]
fn kept_results_name_their_system() {
    let packages = vec![ChangedPackage {
        attr: "a".to_string(),
        changed_intermediates: vec![],
        intermediate_drv_paths: AttrMap::new(),
        final_drv_changed: true,
    }];
    let mut state = make_run_state(1, "mb", "head", "aarch64-linux", "cmd", &packages, &vec![]);
    state.completed_results = vec![result("a", "", true), result("b", "y", false)];
    let taken = results_from_state(&state);
    assert_eq!(taken[0].system, "aarch64-linux");
    assert_eq!(taken[1].system, "y");
    assert_eq!(taken[1].attr, "b");
    let systems = vec!["aarch64-linux".to_string()];
    assert!(every_change_built(&systems, &vec![packages], &taken));
}

#[test]
fn messages_of_a_run_without_changes() {
    assert_eq!(no_changes_message(false), "No packages with changed intermediates found!");
    assert_eq!(no_changes_message(true), "No packages with changed intermediates or drvPaths found!");
    assert_eq!(
        no_changes_comment(false),
        "## srcbot: Full Evaluation Results\n\nNo packages with changed source intermediates detected."
    );
    assert_eq!(
        no_changes_comment(true),
        "## srcbot: Full Evaluation Results\n\nNo packages with changed intermediates or drvPaths detected."
    );
    assert_eq!(make_log_url_base("https://h", "12_1"), "https://h/logs/12_1");
}
