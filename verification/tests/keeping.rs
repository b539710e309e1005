use srcbot::cache::{
    after_first_dir, after_numbered_dir, backup_log_name, command_file_text, get_base_dir,
    get_cache_dir, get_cache_path, get_fix_hash_attr_log_dir, get_logs_dir, get_state_dir,
    get_state_path, init_save_location, join_path, local_files, single_log_name, LogDirStep,
    LogDirs, SaveLocation,
};
use srcbot::summary::build_log_url;
use srcbot::types::FullEvalBuildResult;

#[test]
fn paths_are_joined_as_std_does() {
    for base in ["", "/", "/a", "/a/", "a", "a/b"] {
        for part in ["", "x", "x/y", "/x"] {
            let path = std::path::Path::new(base).join(part);
            assert_eq!(join_path(base, part), path.to_str().unwrap(), "{:?} {:?}", base, part);
        }
    }
}

#[test]
fn the_first_location_counts() {
    let mut slot = SaveLocation::new();
    assert_eq!(get_base_dir(&slot, Some("/home/u/.cache")), "/home/u/.cache/srcbot");
    assert_eq!(get_base_dir(&slot, None), "/tmp/srcbot");
    init_save_location(&mut slot, Some("/data".to_string()));
    init_save_location(&mut slot, Some("/other".to_string()));
    assert_eq!(get_base_dir(&slot, None), "/data");
    assert_eq!(get_cache_dir(&slot, None), "/data/evals");
    assert_eq!(get_cache_path(&slot, None, "abc", "x86_64-linux"), "/data/evals/abc_x86_64-linux.json");
    assert_eq!(get_state_dir(&slot, None), "/data/state");
    assert_eq!(get_state_path(&slot, None, 123), "/data/state/123.json");
    assert_eq!(get_logs_dir(&slot, None), "/data/logs");
    assert_eq!(get_fix_hash_attr_log_dir(&slot, None, "a.b"), "/data/logs/a_b");
    let mut unset = SaveLocation::new();
    init_save_location(&mut unset, None);
    init_save_location(&mut unset, Some("/late".to_string()));
    assert_eq!(get_base_dir(&unset, None), "/tmp/srcbot");
}

fn pick_dir(dirs: &mut LogDirs, pr: u64, first_taken: bool, taken: &[u32]) -> String {
    let mut step = dirs.begin("/l", pr);
    loop {
        step = match step {
            LogDirStep::Chosen { dir } => {
                return dir;
            }
            LogDirStep::LookForFiles { .. } => after_first_dir("/l", pr, first_taken),
            LogDirStep::LookForNumber { number, .. } => {
                after_numbered_dir("/l", pr, number, taken.contains(&number))
            }
        };
    }
}

#[test]
fn the_lowest_free_log_directory_is_chosen() {
    let mut dirs = LogDirs::new();
    assert_eq!(pick_dir(&mut dirs, 7, false, &[1, 2]), "/l/7");
    assert_eq!(pick_dir(&mut dirs, 7, true, &[]), "/l/7_1");
    assert_eq!(pick_dir(&mut dirs, 7, true, &[1, 2, 4]), "/l/7_3");
    dirs.choose_dir(7, "/l/7_3");
    dirs.choose_dir(8, "/l/8");
    assert_eq!(pick_dir(&mut dirs, 7, true, &[]), "/l/7_3");
    assert_eq!(pick_dir(&mut dirs, 8, true, &[]), "/l/8");
    assert_eq!(pick_dir(&mut dirs, 9, false, &[]), "/l/9");
}

#[test]
fn logs_are_named() {
    assert_eq!(single_log_name("a.b", "src", None, None), "a_b.src.log");
    assert_eq!(single_log_name("a.b", "src", Some("c1"), None), "a_b.src.base-c1.log");
    assert_eq!(single_log_name("a.b", "src", None, Some("s")), "s.a_b.src.log");
    assert_eq!(single_log_name("a.b", "src", Some("c1"), Some("s")), "s.a_b.src.base-c1.log");
    assert_eq!(backup_log_name("gc.log", 5), "gc.log.5");
    assert_eq!(command_file_text("srcbot"), "# Command\n\n```bash\nsrcbot\n```\n");
}

#[test]
fn logs_are_saved_where_the_summary_leads() {
    let results = vec![FullEvalBuildResult {
        attr: "p.q".to_string(),
        system: "".to_string(),
        intermediate_results: vec![
            ("src".to_string(), true, "fetched".to_string()),
            ("goModules".to_string(), true, " \n".to_string()),
        ],
        package_success: true,
        package_logs: "built".to_string(),
        is_false_positive: false,
        is_non_deterministic: false,
        exists_on_base: true,
    }];
    let files = local_files(3, &results);
    let names: Vec<&str> = files.iter().map(|f| f.0.as_str()).collect();
    assert_eq!(
        names,
        vec!["summary.md", "x86_64-linux.p_q.src.log", "x86_64-linux.p_q.package.log"]
    );
    assert!(files[0].1.contains("1/1 packages passed"));
    assert_eq!(files[1].1, "fetched");
    assert_eq!(build_log_url("u", "x86_64-linux", "p.q", "src"), format!("u/{}", files[1].0));
}
