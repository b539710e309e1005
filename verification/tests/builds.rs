use srcbot::attr_map::AttrMap;
use srcbot::full_run::{advance_run, start_run, RunPlan, RunStage};
use srcbot::system_build::{
    claim_worktree, next_base_action, next_system_work, next_tier_work, packages_needing,
    packages_built, packages_ready, record_package, record_step, record_tests, start_results, BaseAction, BaseEvent, BaseVerdict,
    BuildKind, SystemStage, SystemWork,
};
use srcbot::types::ChangedPackage;

fn package(attr: &str, changed: &[&str]) -> ChangedPackage {
    ChangedPackage {
        attr: attr.to_string(),
        changed_intermediates: changed.iter().map(|s| s.to_string()).collect(),
        intermediate_drv_paths: AttrMap::new(),
        final_drv_changed: changed.is_empty(),
    }
}

#[test]
fn packages_go_through_their_tiers() {
    let packages = vec![package("a", &["src", "goModules"]), package("b", &["src"]), package("c", &[])];
    let mut results = start_results("x86_64-linux", &packages, &AttrMap::new());
    assert_eq!(results.len(), 3);
    assert!(results.iter().all(|r| !r.package_success && r.exists_on_base));
    let (tier, attrs) = next_tier_work(&packages, &results, 0).unwrap();
    assert_eq!(tier, 0);
    assert_eq!(attrs, vec!["a", "b"]);
    record_step(&mut results, "a", "src".to_string(), true, "ok".to_string(), false, BaseVerdict::Unchecked);
    assert_eq!(packages_needing(&packages, &results, "src"), vec!["b"]);
    record_step(&mut results, "b", "src".to_string(), false, "404".to_string(), false, BaseVerdict::BaseFails);
    let (tier, attrs) = next_tier_work(&packages, &results, 1).unwrap();
    assert_eq!(tier, 1);
    assert_eq!(attrs, vec!["a"]);
    record_step(&mut results, "a", "goModules".to_string(), true, "ok".to_string(), true, BaseVerdict::Unchecked);
    assert!(next_tier_work(&packages, &results, 0).is_none());
    assert_eq!(packages_ready(&results), vec!["a", "c"]);
    record_package(&mut results, "a", true, "built".to_string(), BaseVerdict::Unchecked);
    record_package(&mut results, "c", false, "broke".to_string(), BaseVerdict::NewPackage);
    assert!(results[0].package_success && results[0].is_non_deterministic);
    assert_eq!(results[0].intermediate_results.len(), 2);
    assert_eq!(results[0].package_logs, "built");
    assert!(results[1].is_false_positive && !results[1].package_success);
    assert!(!results[2].is_false_positive && !results[2].exists_on_base);
}

#[test]
fn a_system_is_built_tier_by_tier() {
    let packages = vec![package("a", &["src", "cargoDeps"]), package("b", &["cargoDeps"])];
    let mut results = start_results("s", &packages, &AttrMap::new());
    let mut stage = SystemStage::Tiers { from: 0 };
    let mut seen = Vec::new();
    loop {
        let (work, after) = next_system_work(&packages, &results, stage, false);
        stage = after;
        match work {
            SystemWork::Steps { tier, attrs } => {
                for attr in &attrs {
                    let name = srcbot::types::INTERMEDIATE_ATTRS[tier].to_string();
                    let ok = attr == "a";
                    seen.push(format!("{}.{}", attr, name));
                    record_step(&mut results, attr, name, ok, String::new(), false, BaseVerdict::Unchecked);
                }
            }
            SystemWork::Packages { attrs } => {
                assert_eq!(stage, SystemStage::Tests);
                for attr in attrs {
                    record_package(&mut results, &attr, true, String::new(), BaseVerdict::Unchecked);
                    seen.push(attr);
                }
            }
            SystemWork::Tests { attrs } => {
                assert_eq!(stage, SystemStage::Over);
                for attr in attrs {
                    record_tests(&mut results, &attr, false, "tests broke".to_string(), BaseVerdict::BaseBuilds);
                    seen.push(format!("{}.tests", attr));
                }
            }
            SystemWork::Nothing => break,
        }
    }
    assert_eq!(seen, vec!["a.src", "a.cargoDeps", "b.cargoDeps", "a", "a.tests"]);
    assert!(!results[0].package_success && !results[0].is_false_positive);
    assert_eq!(results[0].intermediate_results[2].0, "tests");
    assert_eq!(results[0].intermediate_results[2].2, "tests broke");
    assert_eq!(stage, SystemStage::Over);
    let (work, after) = next_system_work(&packages, &results, stage, false);
    assert!(matches!(work, SystemWork::Nothing));
    assert_eq!(after, SystemStage::Over);
}

#[test]
fn tests_are_skipped_where_asked_for() {
    let packages = vec![package("a", &[])];
    let mut results = start_results("s", &packages, &AttrMap::new());
    let first = SystemStage::Tiers { from: 0 };
    let (work, after) = next_system_work(&packages, &results, first, true);
    assert!(matches!(work, SystemWork::Packages { .. }));
    assert_eq!(after, SystemStage::Over);
    record_package(&mut results, "a", true, String::new(), BaseVerdict::Unchecked);
    assert_eq!(packages_built(&results), vec!["a"]);
    record_tests(&mut results, "a", true, String::new(), BaseVerdict::Unchecked);
    assert!(results[0].package_success);
    record_tests(&mut results, "zz", false, String::new(), BaseVerdict::Unchecked);
    assert!(results[0].package_success);
    record_tests(&mut results, "a", false, String::new(), BaseVerdict::BaseFails);
    assert!(!results[0].package_success && results[0].is_false_positive);
}

#[test]
fn a_system_without_packages_that_are_ready_is_over() {
    let packages = vec![package("a", &["src"])];
    let mut results = start_results("s", &packages, &AttrMap::new());
    record_step(&mut results, "a", "src".to_string(), false, String::new(), false, BaseVerdict::Unchecked);
    let (work, after) = next_system_work(&packages, &results, SystemStage::Tiers { from: 1 }, false);
    assert!(matches!(work, SystemWork::Nothing));
    assert_eq!(after, SystemStage::Over);
}

#[test]
fn an_unknown_package_changes_nothing() {
    let packages = vec![package("a", &["src"])];
    let mut results = start_results("s", &packages, &AttrMap::new());
    record_step(&mut results, "zz", "src".to_string(), true, String::new(), true, BaseVerdict::BaseFails);
    record_package(&mut results, "zz", true, String::new(), BaseVerdict::BaseFails);
    assert_eq!(results.len(), 1);
    assert!(!results[0].is_non_deterministic && !results[0].package_success);
    assert!(results[0].intermediate_results.is_empty());
}

#[test]
fn saved_steps_are_taken_up() {
    let packages = vec![package("a", &["src"]), package("a", &["src"])];
    let mut saved = AttrMap::new();
    saved.insert("a".to_string(), vec![("src".to_string(), true, "old".to_string())]);
    let results = start_results("s", &packages, &saved);
    assert_eq!(results.len(), 1);
    assert_eq!(results[0].intermediate_results[0].2, "old");
    assert!(packages_needing(&packages, &results, "src").is_empty());
}

#[test]
fn failures_are_looked_at_on_the_base_branch() {
    let ended = |success, worktree| BaseEvent::BuildEnded { success, worktree };
    let unchecked = BaseAction::Settle { verdict: BaseVerdict::Unchecked };
    let i = BuildKind::Intermediate;
    let p = BuildKind::Package;
    assert_eq!(next_base_action(i, true, ended(true, true)), unchecked);
    assert_eq!(next_base_action(i, false, ended(false, true)), unchecked);
    assert_eq!(next_base_action(i, true, ended(false, false)), BaseAction::MakeWorktree);
    assert_eq!(next_base_action(p, true, ended(false, false)), unchecked);
    let tests = BuildKind::Tests;
    assert_eq!(next_base_action(tests, true, ended(false, false)), BaseAction::MakeWorktree);
    assert_eq!(next_base_action(tests, true, ended(true, false)), unchecked);
    assert_eq!(next_base_action(p, true, ended(false, true)), BaseAction::SeekAttr);
    assert_eq!(next_base_action(i, true, BaseEvent::WorktreeTried { made: false }), unchecked);
    assert_eq!(next_base_action(i, true, BaseEvent::WorktreeTried { made: true }), BaseAction::SeekAttr);
    assert_eq!(next_base_action(i, true, BaseEvent::AttrSought { found: true }), BaseAction::BuildBase);
    assert_eq!(
        next_base_action(i, true, BaseEvent::AttrSought { found: false }),
        BaseAction::Settle { verdict: BaseVerdict::NewPackage }
    );
    assert_eq!(
        next_base_action(i, true, BaseEvent::BaseBuilt { success: false }),
        BaseAction::Settle { verdict: BaseVerdict::BaseFails }
    );
    assert_eq!(
        next_base_action(i, true, BaseEvent::BaseBuilt { success: true }),
        BaseAction::Settle { verdict: BaseVerdict::BaseBuilds }
    );
    let mut there = false;
    assert!(claim_worktree(&mut there));
    assert!(!claim_worktree(&mut there));
    assert!(there);
}

fn plan() -> RunPlan {
    RunPlan {
        systems: 2,
        resumed: false,
        saved_packages: false,
        false_positive: false,
        remote: false,
        dry_run: false,
        has_token: true,
    }
}

fn stages(plan: RunPlan, answers: &[bool]) -> Vec<RunStage> {
    let mut run = start_run();
    let mut seen = vec![run.stage];
    for yes in answers {
        run = advance_run(plan, run, *yes);
        seen.push(run.stage);
    }
    seen
}

#[test]
fn a_run_makes_the_base_once_and_goes_through_the_systems() {
    let seen = stages(
        plan(),
        &[
            false, false, false, false, true, false, false, false, false, false, true, true, true,
            false, true, true, true,
        ],
    );
    assert_eq!(
        seen,
        vec![
            RunStage::MakePr,
            RunStage::LoadBase { system: 0 },
            RunStage::MakeBase { system: 0 },
            RunStage::EvalBase { system: 0 },
            RunStage::LoadPr { system: 0 },
            RunStage::Compare { system: 0 },
            RunStage::LoadBase { system: 1 },
            RunStage::EvalBase { system: 1 },
            RunStage::LoadPr { system: 1 },
            RunStage::EvalPr { system: 1 },
            RunStage::Compare { system: 1 },
            RunStage::DropBase,
            RunStage::Build,
            RunStage::RemovePr,
            RunStage::SaveLogs,
            RunStage::ForgetState,
            RunStage::Post,
            RunStage::Over { success: true },
        ]
    );
}

#[test]
fn a_run_without_changes_says_so() {
    let mut p = plan();
    p.systems = 1;
    let seen = stages(p, &[false, true, true, false, false, false]);
    assert_eq!(seen[4], RunStage::RemoveUnchanged);
    assert_eq!(seen[5], RunStage::PostUnchanged);
    assert_eq!(seen[6], RunStage::Over { success: true });
    p.dry_run = true;
    assert_eq!(stages(p, &[false, true, true, false, false])[5], RunStage::Over { success: true });
}

#[test]
fn a_run_that_is_taken_up_builds_at_once() {
    let mut p = plan();
    p.resumed = true;
    p.saved_packages = true;
    p.remote = true;
    let seen = stages(p, &[false, false, false, true, false, false, false, false]);
    assert_eq!(seen[1], RunStage::CollectGarbage);
    assert_eq!(seen[2], RunStage::Build);
    assert_eq!(seen[3], RunStage::RemovePr);
    assert_eq!(seen[4], RunStage::RemoveBase);
    assert_eq!(seen[8], RunStage::Over { success: false });
}

#[test]
fn the_base_is_made_for_looking_at_failures() {
    let mut p = plan();
    p.systems = 1;
    p.false_positive = true;
    let seen = stages(p, &[false, true, true, true, false]);
    assert_eq!(seen[4], RunStage::MakeBaseForChecks);
    assert_eq!(seen[5], RunStage::Build);
}

#[test]
fn a_run_passes_only_where_every_change_was_built() {
    let one = RunPlan { systems: 1, ..plan() };
    let until_build = [false, true, true, true];
    let ending = |built: bool| {
        let mut answers = until_build.to_vec();
        answers.push(built);
        answers.extend([false, true, true, true]);
        stages(one, &answers)
    };
    assert_eq!(ending(true)[4], RunStage::Build);
    assert_eq!(ending(true).last(), Some(&RunStage::Over { success: true }));
    assert_eq!(ending(false).last(), Some(&RunStage::Over { success: false }));
    let unchanged = stages(one, &[false, true, true, false, true, true]);
    assert_eq!(unchanged.last(), Some(&RunStage::Over { success: true }));
}

#[test]
fn a_false_positive_is_no_success() {
    let packages = vec![package("a", &["src"]), package("b", &[])];
    let mut results = start_results("s", &packages, &AttrMap::new());
    record_step(&mut results, "a", "src".to_string(), false, String::new(), false, BaseVerdict::BaseFails);
    assert_eq!(packages_ready(&results), vec!["b"]);
    record_package(&mut results, "b", false, String::new(), BaseVerdict::BaseFails);
    assert!(results.iter().all(|r| r.is_false_positive && !r.package_success));
}

#[test]
fn steps_stand_in_the_order_of_the_list() {
    let packages = vec![package("a", &["cargoDeps", "src", "goModules"])];
    let mut saved = AttrMap::new();
    saved.insert("a".to_string(), vec![("goModules".to_string(), true, "old".to_string())]);
    let mut results = start_results("s", &packages, &saved);
    let mut stage = SystemStage::Tiers { from: 0 };
    loop {
        let (work, after) = next_system_work(&packages, &results, stage, true);
        stage = after;
        match work {
            SystemWork::Steps { tier, attrs } => {
                for attr in &attrs {
                    let name = srcbot::types::INTERMEDIATE_ATTRS[tier].to_string();
                    record_step(&mut results, attr, name, true, String::new(), false, BaseVerdict::Unchecked);
                }
            }
            _ => break,
        }
    }
    let names: Vec<&str> =
        results[0].intermediate_results.iter().map(|step| step.0.as_str()).collect();
    assert_eq!(names, vec!["goModules", "src", "cargoDeps"]);
}
