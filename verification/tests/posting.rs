use srcbot::commands::{
    advance_wait, build_outcome, capture_line, command_outcome, command_result, exit_and_log,
    prefix_line, CommandEnd, CommandEvent, CommandWait, NixCommandResult,
};
use srcbot::git::{
    make_fetch_args, make_merge_base_args, make_worktree_add_args, make_worktree_remove_args,
};
use srcbot::github::{
    bearer, choose_posting, classify_status, comment_address, comments_url, failed_step, fetch_error, gist_comment,
    gist_files, gist_summary, last_n_lines, make_gist_args, next_fetch_action, pull_url,
    shorten_answer, token_from_output, FetchAction, FetchEvent, Posting,
};
use srcbot::types::FullEvalBuildResult;

fn result(attr: &str, steps: &[(&str, bool)], success: bool) -> FullEvalBuildResult {
    FullEvalBuildResult {
        attr: attr.to_string(),
        system: "s".to_string(),
        intermediate_results: steps
            .iter()
            .map(|(name, ok)| (name.to_string(), *ok, format!("{} log", name)))
            .collect(),
        package_success: success,
        package_logs: "".to_string(),
        is_false_positive: false,
        is_non_deterministic: false,
        exists_on_base: true,
    }
}

#[test]
fn addresses_and_headers() {
    assert_eq!(pull_url(5), "https://api.github.com/repos/NixOS/nixpkgs/pulls/5");
    assert_eq!(comments_url(5), "https://api.github.com/repos/NixOS/nixpkgs/issues/5/comments");
    assert_eq!(bearer("t"), "Bearer t");
}

#[test]
fn a_pull_request_is_asked_for_three_times_at_most() {
    assert_eq!(next_fetch_action(1, FetchEvent::Answered), FetchAction::Read);
    assert_eq!(next_fetch_action(1, FetchEvent::Refused), FetchAction::GiveUp);
    assert_eq!(next_fetch_action(1, FetchEvent::ServerError), FetchAction::Retry { attempt: 2 });
    assert_eq!(next_fetch_action(2, FetchEvent::NoAnswer), FetchAction::Retry { attempt: 3 });
    assert_eq!(next_fetch_action(3, FetchEvent::NoAnswer), FetchAction::GiveUp);
    assert_eq!(next_fetch_action(3, FetchEvent::ServerError), FetchAction::GiveUp);
    assert_eq!(classify_status(200), FetchEvent::Answered);
    assert_eq!(classify_status(299), FetchEvent::Answered);
    assert_eq!(classify_status(404), FetchEvent::Refused);
    assert_eq!(classify_status(500), FetchEvent::ServerError);
    assert_eq!(classify_status(600), FetchEvent::Refused);
}

#[test]
fn long_answers_are_shortened() {
    assert_eq!(shorten_answer("short"), "short");
    let long = "x".repeat(300);
    assert_eq!(shorten_answer(&long), format!("{}...", "x".repeat(200)));
    assert_eq!(shorten_answer(&"y".repeat(200)), "y".repeat(200));
    assert_eq!(fetch_error("404 Not Found", "no"), "Failed to fetch PR info: 404 Not Found no");
}

#[test]
fn tokens_are_read() {
    assert_eq!(token_from_output(true, " abc\n"), Some("abc".to_string()));
    assert_eq!(token_from_output(true, " \n"), None);
    assert_eq!(token_from_output(false, "abc"), None);
}

#[test]
fn the_last_lines_of_a_log() {
    assert_eq!(last_n_lines("a\nb\nc\n", 2), "b\nc");
    assert_eq!(last_n_lines("a\nb\n", 2), "a\nb\n");
    assert_eq!(last_n_lines("a\nb", 0), "");
    assert_eq!(last_n_lines("", 0), "");
}

#[test]
fn the_gist_is_put_together() {
    let results = vec![
        result("a.b", &[("src", true), ("goModules", false)], false),
        result("c", &[("src", true)], true),
        result("d", &[], false),
    ];
    assert_eq!(failed_step(&results[0]), "goModules");
    assert_eq!(failed_step(&results[2]), "package");
    assert_eq!(
        gist_summary(9, &results),
        "## srcbot: Full Evaluation Results for PR #9\n\n**Status**: 1/3 packages passed, 2 failed\n\n### Failed Packages\n\n| Package | Failed Step | Log |\n|---------|-------------|-----|\n| a.b | goModules | [a_b.goModules.log](a_b.goModules.log) |\n| d | package | [d.package.log](d.package.log) |\n\n<details>\n<summary>1 packages passed</summary>\n\n| Package | Steps Built |\n|---------|-------------|\n| c | src, package |\n\n</details>\n"
    );
    let files = gist_files(9, &results);
    let names: Vec<&str> = files.iter().map(|f| f.0.as_str()).collect();
    assert_eq!(names, vec!["summary.md", "a_b.src.log", "a_b.goModules.log", "c.src.log"]);
    assert_eq!(files[1].1, "src log");
    assert_eq!(
        gist_comment(&results, "https://gist"),
        "## srcbot: Full Evaluation Results\n\n**1/3 packages passed** ([full results](https://gist))\n\n### Failures\n- `a.b`: goModules build failed\n- `d`: package build failed\n"
    );
    assert_eq!(
        make_gist_args(9, &vec!["/t/summary.md".to_string()]),
        vec!["gist", "create", "--public", "-d", "srcbot results for PR #9", "/t/summary.md"]
    );
}

#[test]
fn nothing_is_posted_in_a_dry_run() {
    assert_eq!(choose_posting(true, true, true), Posting::DryRun);
    assert_eq!(choose_posting(false, true, false), Posting::NoToken);
    assert_eq!(choose_posting(false, true, true), Posting::Gist);
    assert_eq!(choose_posting(false, false, true), Posting::Comment);
}

#[test]
fn commands_come_to_their_end() {
    assert_eq!(command_outcome("git", true, "exit status: 0", " out\n", ""), Ok("out".to_string()));
    assert_eq!(
        command_outcome("git", false, "exit status: 1", "", "bad"),
        Err("Command git failed with status exit status: 1: bad".to_string())
    );
    let mut log = String::new();
    capture_line(&mut log, "a");
    capture_line(&mut log, "b");
    assert_eq!(log, "a\nb\n");
    assert_eq!(prefix_line(Some("pkg.src"), "x"), "[pkg.src] x");
    assert_eq!(prefix_line(None, "x"), "x");
    match command_result("nix", CommandEnd::NotSpawned { error: "e".to_string() }, log.clone()) {
        NixCommandResult::Failed { error } => assert_eq!(error, "Failed to spawn nix: e"),
        _ => panic!("expected a failure"),
    }
    match command_result("nix", CommandEnd::NotWaited { error: "e".to_string() }, log.clone()) {
        NixCommandResult::Failed { error } => assert_eq!(error, "Failed to wait for nix: e"),
        _ => panic!("expected a failure"),
    }
    match command_result("nix", CommandEnd::Exited { code: Some(42) }, log.clone()) {
        NixCommandResult::Completed { code, logs } => {
            assert_eq!(code, Some(42));
            assert_eq!(logs, "a\nb\n");
        }
        _ => panic!("expected an end"),
    }
    assert!(matches!(
        command_result("nix", CommandEnd::TimedOut, log),
        NixCommandResult::TimedOut { .. }
    ));
    let ended = advance_wait(CommandWait::Running, CommandEvent::Ended);
    assert_eq!(ended, CommandWait::DrainAll);
    assert_eq!(advance_wait(ended, CommandEvent::TimeRanOut), CommandWait::DrainAll);
    assert_eq!(
        advance_wait(CommandWait::Running, CommandEvent::TimeRanOut),
        CommandWait::KillAndDrain
    );
}

#[test]
fn git_is_asked() {
    assert_eq!(
        make_fetch_args("/np", "https://r", "abc", "refs/x"),
        vec!["-C", "/np", "-c", "fetch.prune=false", "fetch", "--no-tags", "--force", "https://r", "abc:refs/x"]
    );
    assert_eq!(
        make_worktree_add_args("/np", "/w", "abc"),
        vec!["-C", "/np", "worktree", "add", "/w", "abc"]
    );
    assert_eq!(
        make_worktree_remove_args("/np", "/w"),
        vec!["-C", "/np", "worktree", "remove", "-f", "/w"]
    );
    assert_eq!(
        make_merge_base_args("/np", "a", "b"),
        vec!["-C", "/np", "merge-base", "a", "b"]
    );
}

#[test]
fn a_build_whose_time_ran_out_failed() {
    let completed =
        |code| NixCommandResult::Completed { code, logs: "l".to_string() };
    let late = || NixCommandResult::TimedOut { logs: "l".to_string() };
    let broken = || NixCommandResult::Failed { error: "e".to_string() };
    assert_eq!(build_outcome(completed(Some(0)), 5), (true, "l".to_string()));
    assert_eq!(build_outcome(completed(Some(1)), 5), (false, "l".to_string()));
    assert_eq!(build_outcome(completed(None), 5), (false, "l".to_string()));
    assert_eq!(build_outcome(late(), 3600), (false, "l\nTimed out after 3600s".to_string()));
    assert_eq!(build_outcome(broken(), 5), (false, "e".to_string()));
    assert_eq!(exit_and_log(completed(Some(2))), Ok((Some(2), "l".to_string())));
    assert_eq!(exit_and_log(late()), Ok((None, "l".to_string())));
    assert_eq!(exit_and_log(broken()), Err("e".to_string()));
}

#[test]
fn the_address_of_a_comment_is_read() {
    assert_eq!(comment_address("{\"id\": 1, \"html_url\": \"https://g/1\"}"), "https://g/1");
    assert_eq!(comment_address("{\"html_url\": 5}"), "");
    assert_eq!(comment_address("{}"), "");
    assert_eq!(comment_address("no JSON"), "");
}
