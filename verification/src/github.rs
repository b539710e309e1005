//! What is asked of GitHub, and what is posted there.

use vstd::prelude::*;

use crate::cache::file_texts;
use crate::numbers::{decimal, decimal_u64, decimal_usize};
use crate::outside::{found_text, read_text_member, text_member};
use crate::search::{contains, lemma_contains_middle, lemma_contains_within, lines, lines_of};
use crate::summary::{count_results, law_tallies, tally, Tally};
use crate::text::{join, join_all, join_from, no_texts, opt_text, push_text, texts};
use crate::trim::{
    blank, byte_prefix, cuts_cleanly, is_blank, swap_char, take_bytes, trim, trimmed, with_char,
};
use crate::types::{result_texts, FullEvalBuildResult, ResultText};

verus! {

// ---------------------------------------------------------------------------
// Requests

/// The address of a pull request.
pub fn pull_url(pr: u64) -> (url: String)
    ensures
        url@ == "https://api.github.com/repos/NixOS/nixpkgs/pulls/"@ + decimal(pr as nat),
{
    "https://api.github.com/repos/NixOS/nixpkgs/pulls/".to_string().concat(
        decimal_u64(pr).as_str(),
    )
}

/// The address of the comments of a pull request.
pub fn comments_url(pr: u64) -> (url: String)
    ensures
        url@ == "https://api.github.com/repos/NixOS/nixpkgs/issues/"@ + decimal(pr as nat)
            + "/comments"@,
{
    "https://api.github.com/repos/NixOS/nixpkgs/issues/".to_string()
        .concat(decimal_u64(pr).as_str())
        .concat("/comments")
}

/// The header that carries a token.
pub fn bearer(token: &str) -> (header: String)
    ensures
        header@ == "Bearer "@ + token@,
{
    "Bearer ".to_string().concat(token)
}

/// The address of a comment, by what was found in the answer.
pub open spec fn address_in(found: Option<Option<Seq<char>>>) -> Seq<char> {
    match found {
        Some(Some(address)) => address,
        _ => Seq::empty(),
    }
}

/// Reads the address of a comment from what was found in the answer: nothing where
/// the answer does not tell it.
pub fn read_address(found: Option<Option<String>>) -> (address: String)
    ensures
        address@ == address_in(found_text(found)),
{
    match found {
        Some(Some(address)) => address,
        _ => String::new(),
    }
}

/// Reads the address of a comment that was posted from GitHub's answer.
pub fn comment_address(answer: &str) -> (address: String)
    ensures
        address@ == address_in(text_member(answer@, "html_url"@)),
{
    read_address(read_text_member(answer, "html_url"))
}

/// How often a pull request is asked for before giving up.
pub const MAX_RETRIES: u32 = 3;

/// What came of asking for a pull request.
#[derive(Clone, Copy, PartialEq, Eq, Structural, Debug)]
pub enum FetchEvent {
    /// It was answered.
    Answered,
    /// The server failed.
    ServerError,
    /// The request was turned down.
    Refused,
    /// No answer came.
    NoAnswer,
}

/// What to do then.
#[derive(Clone, Copy, PartialEq, Eq, Structural, Debug)]
pub enum FetchAction {
    /// Read the answer.
    Read,
    /// Wait two seconds and ask again, for the given time.
    Retry { attempt: u32 },
    /// Give up.
    GiveUp,
}

/// What to do after the `attempt`-th time: a failure of the server or the lack of an
/// answer is worth another time, up to three in all.
pub open spec fn fetch_action(attempt: u32, event: FetchEvent) -> FetchAction {
    match event {
        FetchEvent::Answered => FetchAction::Read,
        FetchEvent::Refused => FetchAction::GiveUp,
        _ => if attempt < MAX_RETRIES {
            FetchAction::Retry { attempt: (attempt + 1) as u32 }
        } else {
            FetchAction::GiveUp
        },
    }
}

/// Decides what to do after the `attempt`-th time.
pub fn next_fetch_action(attempt: u32, event: FetchEvent) -> (action: FetchAction)
    ensures
        action == fetch_action(attempt, event),
{
    match event {
        FetchEvent::Answered => FetchAction::Read,
        FetchEvent::Refused => FetchAction::GiveUp,
        _ => {
            if attempt < MAX_RETRIES {
                FetchAction::Retry { attempt: attempt + 1 }
            } else {
                FetchAction::GiveUp
            }
        },
    }
}

/// What an answer with a status code is: two hundreds are a success, five hundreds a
/// failure of the server.
pub fn classify_status(code: u16) -> (event: FetchEvent)
    ensures
        event == (if 200 <= code < 300 {
            FetchEvent::Answered
        } else if 500 <= code < 600 {
            FetchEvent::ServerError
        } else {
            FetchEvent::Refused
        }),
{
    if 200 <= code && code < 300 {
        FetchEvent::Answered
    } else if 500 <= code && code < 600 {
        FetchEvent::ServerError
    } else {
        FetchEvent::Refused
    }
}

/// How many times are asked where the times end as `events` says, from the
/// `attempt`-th on.
pub open spec fn attempts_made(attempt: u32, events: Seq<FetchEvent>) -> nat
    decreases events.len(),
{
    if events.len() == 0 {
        0
    } else {
        match fetch_action(attempt, events[0]) {
            FetchAction::Retry { attempt: next } => 1 + attempts_made(next, events.skip(1)),
            _ => 1,
        }
    }
}

/// A pull request is asked for at most three times.
pub proof fn law_attempts_are_bounded(attempt: u32, events: Seq<FetchEvent>)
    requires
        1 <= attempt <= MAX_RETRIES,
    ensures
        attempts_made(attempt, events) <= MAX_RETRIES - attempt + 1,
    decreases events.len(),
{
    if events.len() > 0 {
        match fetch_action(attempt, events[0]) {
            FetchAction::Retry { attempt: next } => {
                law_attempts_are_bounded(next, events.skip(1));
            },
            _ => {},
        }
    }
}

/// An answer as it is reported: at most its first two hundred bytes.
pub open spec fn short_answer(text: Seq<char>) -> Seq<char> {
    if vstd::utf8::encode_utf8(text).len() > 200 {
        byte_prefix(text, 200) + "..."@
    } else {
        text
    }
}

/// Shortens an answer for a report. Where it is longer than two hundred bytes, these
/// have to end between two characters.
pub fn shorten_answer(text: &str) -> (out: String)
    requires
        cuts_cleanly(text@, 200),
    ensures
        out@ == short_answer(text@),
{
    if text.as_bytes().len() > 200 {
        take_bytes(text, 200).concat("...")
    } else {
        text.to_string()
    }
}

/// What is reported where a pull request could not be had.
pub fn fetch_error(status: &str, answer: &str) -> (message: String)
    requires
        cuts_cleanly(answer@, 200),
    ensures
        message@ == "Failed to fetch PR info: "@ + status@ + " "@ + short_answer(answer@),
{
    "Failed to fetch PR info: ".to_string()
        .concat(status)
        .concat(" ")
        .concat(shorten_answer(answer).as_str())
}

/// Reads the token that `gh` printed, where it did and it is not blank.
pub fn token_from_output(success: bool, stdout: &str) -> (token: Option<String>)
    ensures
        opt_text(token) == (if success && trimmed(stdout@).len() > 0 {
            Some(trimmed(stdout@))
        } else {
            None
        }),
{
    if success {
        let token = trim(stdout);
        if token.as_str().is_empty() {
            None
        } else {
            Some(token)
        }
    } else {
        None
    }
}

// ---------------------------------------------------------------------------
// The gist

/// The last `n` lines of a text; all of it, as it is, where it has no more.
pub open spec fn tail_lines(s: Seq<char>, n: int) -> Seq<char> {
    let all = lines(s);
    if all.len() <= n {
        s
    } else {
        join(all.skip(all.len() - n), "\n"@)
    }
}

/// Takes the last `n` lines of a text.
pub fn last_n_lines(s: &str, n: usize) -> (out: String)
    ensures
        out@ == tail_lines(s@, n as int),
{
    let all = lines_of(s);
    assert(texts(all@).len() == all@.len());
    if all.len() <= n {
        s.to_string()
    } else {
        join_from(&all, all.len() - n, "\n")
    }
}

/// The step at which a package failed: the first that did, else the package itself.
pub open spec fn failed_step_from(r: ResultText, from: int) -> Seq<char>
    decreases r.steps.len() - from,
{
    if from >= r.steps.len() {
        "package"@
    } else if !r.steps[from].1 {
        r.steps[from].0
    } else {
        failed_step_from(r, from + 1)
    }
}

/// Tells the step at which a package failed.
pub fn failed_step(r: &FullEvalBuildResult) -> (step: String)
    ensures
        step@ == failed_step_from(r@, 0),
{
    let n: usize = r.intermediate_results.len();
    let mut i: usize = 0;
    while i < n
        invariant
            i <= n,
            n == r.intermediate_results@.len(),
            failed_step_from(r@, 0) == failed_step_from(r@, i as int),
        decreases n - i,
    {
        let step = &r.intermediate_results[i];
        assert(r@.steps[i as int] == (step.0@, step.1, step.2@));
        if !step.1 {
            return step.0.clone();
        }
        i = i + 1;
    }
    "package".to_string()
}

/// The name of a log in the gist.
pub open spec fn gist_log_name(attr: Seq<char>, step: Seq<char>) -> Seq<char> {
    with_char(attr, '.', '_') + "."@ + step + ".log"@
}

/// Makes the name of a log in the gist.
pub fn make_gist_log_name(attr: &str, step: &str) -> (name: String)
    ensures
        name@ == gist_log_name(attr@, step@),
{
    swap_char(attr, '.', '_').concat(".").concat(step).concat(".log")
}

/// The rows of the packages that failed.
pub open spec fn gist_failed_rows(results: Seq<ResultText>) -> Seq<char>
    decreases results.len(),
{
    if results.len() == 0 {
        Seq::empty()
    } else {
        let r = results.last();
        let front = gist_failed_rows(results.drop_last());
        if r.success {
            front
        } else {
            let step = failed_step_from(r, 0);
            let file = gist_log_name(r.attr, step);
            front + "| "@ + r.attr + " | "@ + step + " | ["@ + file + "]("@ + file + ") |\n"@
        }
    }
}

/// The names of the steps of a result, then that of the package.
pub open spec fn step_names(r: ResultText) -> Seq<Seq<char>> {
    r.steps.map_values(|s: (Seq<char>, bool, Seq<char>)| s.0).push("package"@)
}

/// The rows of the packages that were built.
pub open spec fn gist_passed_rows(results: Seq<ResultText>) -> Seq<char>
    decreases results.len(),
{
    if results.len() == 0 {
        Seq::empty()
    } else {
        let r = results.last();
        let front = gist_passed_rows(results.drop_last());
        if r.success {
            front + "| "@ + r.attr + " | "@ + join(step_names(r), ", "@) + " |\n"@
        } else {
            front
        }
    }
}

/// The summary of the gist.
pub open spec fn gist_summary_text(pr_num: nat, results: Seq<ResultText>) -> Seq<char> {
    let passed = tally(Tally::Passed, results);
    let failed = tally(Tally::Failed, results);
    "## srcbot: Full Evaluation Results for PR #"@ + decimal(pr_num) + "\n\n**Status**: "@
        + decimal(passed) + "/"@ + decimal(results.len()) + " packages passed, "@ + decimal(failed)
        + " failed\n\n"@ + (if failed > 0 {
        "### Failed Packages\n\n| Package | Failed Step | Log |\n|---------|-------------|-----|\n"@
            + gist_failed_rows(results) + "\n"@
    } else {
        ""@
    }) + (if passed > 0 {
        "<details>\n<summary>"@ + decimal(passed)
            + " packages passed</summary>\n\n| Package | Steps Built |\n|---------|-------------|\n"@
            + gist_passed_rows(results) + "\n</details>\n"@
    } else {
        ""@
    })
}

fn list_step_names(r: &FullEvalBuildResult) -> (names: Vec<String>)
    ensures
        texts(names@) == step_names(r@),
{
    let n: usize = r.intermediate_results.len();
    let ghost all = step_names(r@);
    let mut names = no_texts();
    for i in 0..n
        invariant
            n == r.intermediate_results@.len(),
            all == step_names(r@),
            texts(names@) == all.take(i as int),
    {
        let step = &r.intermediate_results[i];
        assert(r@.steps[i as int] == (step.0@, step.1, step.2@));
        assert(all[i as int] == step.0@);
        push_text(&mut names, step.0.as_str());
        assert(all.take(i + 1) == all.take(i as int).push(step.0@));
    }
    push_text(&mut names, "package");
    assert(all == all.take(n as int).push("package"@));
    names
}

/// Writes the summary of the gist.
pub fn gist_summary(pr_num: u64, results: &[FullEvalBuildResult]) -> (out: String)
    ensures
        out@ == gist_summary_text(pr_num as nat, result_texts(results@)),
{
    let ghost all = result_texts(results@);
    let n: usize = results.len();
    let mut failed_rows = String::new();
    let mut passed_rows = String::new();
    assert(all.take(0) == Seq::<ResultText>::empty());
    for i in 0..n
        invariant
            n == results@.len(),
            all == result_texts(results@),
            failed_rows@ == gist_failed_rows(all.take(i as int)),
            passed_rows@ == gist_passed_rows(all.take(i as int)),
    {
        let r = &results[i];
        proof {
            assert(all.take(i + 1).drop_last() == all.take(i as int));
            assert(all.take(i + 1).last() == r@);
        }
        if r.package_success {
            let names = list_step_names(r);
            passed_rows.append("| ");
            passed_rows.append(r.attr.as_str());
            passed_rows.append(" | ");
            passed_rows.append(join_all(&names, ", ").as_str());
            passed_rows.append(" |\n");
        } else {
            let step = failed_step(r);
            let file = make_gist_log_name(r.attr.as_str(), step.as_str());
            failed_rows.append("| ");
            failed_rows.append(r.attr.as_str());
            failed_rows.append(" | ");
            failed_rows.append(step.as_str());
            failed_rows.append(" | [");
            failed_rows.append(file.as_str());
            failed_rows.append("](");
            failed_rows.append(file.as_str());
            failed_rows.append(") |\n");
        }
    }
    assert(all.take(n as int) == all);
    let passed: usize = count_results(Tally::Passed, results);
    let failed: usize = count_results(Tally::Failed, results);
    let failed_part = if failed > 0 {
        "### Failed Packages\n\n| Package | Failed Step | Log |\n|---------|-------------|-----|\n".to_string()
            .concat(failed_rows.as_str())
            .concat("\n")
    } else {
        "".to_string()
    };
    let passed_part = if passed > 0 {
        "<details>\n<summary>".to_string()
            .concat(decimal_usize(passed).as_str())
            .concat(
            " packages passed</summary>\n\n| Package | Steps Built |\n|---------|-------------|\n",
        )
            .concat(passed_rows.as_str())
            .concat("\n</details>\n")
    } else {
        "".to_string()
    };
    "## srcbot: Full Evaluation Results for PR #".to_string()
        .concat(decimal_u64(pr_num).as_str())
        .concat("\n\n**Status**: ")
        .concat(decimal_usize(passed).as_str())
        .concat("/")
        .concat(decimal_usize(n).as_str())
        .concat(" packages passed, ")
        .concat(decimal_usize(failed).as_str())
        .concat(" failed\n\n")
        .concat(failed_part.as_str())
        .concat(passed_part.as_str())
}

/// How many lines of a log the gist shows.
pub const GIST_LOG_LINES: usize = 100;

/// Adds the end of a log to a list of files, where it is not blank.
pub open spec fn with_tail(
    files: Seq<(Seq<char>, Seq<char>)>,
    name: Seq<char>,
    log: Seq<char>,
) -> Seq<(Seq<char>, Seq<char>)> {
    let end = tail_lines(log, GIST_LOG_LINES as int);
    if is_blank(end) {
        files
    } else {
        files.push((name, end))
    }
}

/// The logs of the first `n` steps of a result, behind other files.
pub open spec fn gist_step_files(
    files: Seq<(Seq<char>, Seq<char>)>,
    r: ResultText,
    n: int,
) -> Seq<(Seq<char>, Seq<char>)>
    decreases n,
{
    if n <= 0 {
        files
    } else {
        with_tail(
            gist_step_files(files, r, n - 1),
            gist_log_name(r.attr, r.steps[n - 1].0),
            r.steps[n - 1].2,
        )
    }
}

/// The files of the gist behind the summary.
pub open spec fn gist_logs(
    files: Seq<(Seq<char>, Seq<char>)>,
    results: Seq<ResultText>,
) -> Seq<(Seq<char>, Seq<char>)>
    decreases results.len(),
{
    if results.len() == 0 {
        files
    } else {
        let r = results.last();
        with_tail(
            gist_step_files(gist_logs(files, results.drop_last()), r, r.steps.len() as int),
            gist_log_name(r.attr, "package"@),
            r.logs,
        )
    }
}

fn push_tail(files: &mut Vec<(String, String)>, name: String, log: &String)
    ensures
        file_texts(final(files)@) == with_tail(file_texts(old(files)@), name@, log@),
{
    let end = last_n_lines(log.as_str(), GIST_LOG_LINES);
    if !blank(end.as_str()) {
        let ghost before = file_texts(files@);
        let ghost what = (name@, end@);
        files.push((name, end));
        assert(file_texts(files@) == before.push(what));
    }
}

/// Lists the files of the gist: the summary, then the ends of the logs that are not
/// blank.
pub fn gist_files(pr_num: u64, results: &[FullEvalBuildResult]) -> (files: Vec<(String, String)>)
    ensures
        file_texts(files@) == gist_logs(
            seq![("summary.md"@, gist_summary_text(pr_num as nat, result_texts(results@)))],
            result_texts(results@),
        ),
{
    let summary = gist_summary(pr_num, results);
    let ghost head = seq![("summary.md"@, summary@)];
    let ghost all = result_texts(results@);
    let mut files: Vec<(String, String)> = Vec::new();
    files.push(("summary.md".to_string(), summary));
    assert(file_texts(files@) == head);
    assert(all.take(0) == Seq::<ResultText>::empty());
    let n: usize = results.len();
    for i in 0..n
        invariant
            n == results@.len(),
            all == result_texts(results@),
            file_texts(files@) == gist_logs(head, all.take(i as int)),
    {
        let r = &results[i];
        let ghost front = gist_logs(head, all.take(i as int));
        proof {
            assert(all.take(i + 1).drop_last() == all.take(i as int));
            assert(all.take(i + 1).last() == r@);
        }
        let m: usize = r.intermediate_results.len();
        for k in 0..m
            invariant
                m == r.intermediate_results@.len(),
                file_texts(files@) == gist_step_files(front, r@, k as int),
        {
            let step = &r.intermediate_results[k];
            assert(r@.steps[k as int] == (step.0@, step.1, step.2@));
            let name = make_gist_log_name(r.attr.as_str(), step.0.as_str());
            push_tail(&mut files, name, &step.2);
        }
        assert(r@.steps.len() == m);
        let name = make_gist_log_name(r.attr.as_str(), "package");
        push_tail(&mut files, name, &r.package_logs);
    }
    assert(all.take(n as int) == all);
    files
}

/// The arguments of `gh` for making the gist out of files.
pub open spec fn gist_args(pr_num: nat, paths: Seq<Seq<char>>) -> Seq<Seq<char>> {
    seq![
        "gist"@,
        "create"@,
        "--public"@,
        "-d"@,
        "srcbot results for PR #"@ + decimal(pr_num),
    ] + paths
}

/// Makes the arguments of `gh` for making the gist out of files.
pub fn make_gist_args(pr_num: u64, paths: &Vec<String>) -> (args: Vec<String>)
    ensures
        texts(args@) == gist_args(pr_num as nat, texts(paths@)),
{
    let title = "srcbot results for PR #".to_string().concat(decimal_u64(pr_num).as_str());
    let mut args = no_texts();
    push_text(&mut args, "gist");
    push_text(&mut args, "create");
    push_text(&mut args, "--public");
    push_text(&mut args, "-d");
    push_text(&mut args, title.as_str());
    let ghost head = texts(args@);
    let ghost all = texts(paths@);
    assert(head == gist_args(pr_num as nat, all.take(0)));
    let n: usize = paths.len();
    for i in 0..n
        invariant
            n == paths@.len(),
            all == texts(paths@),
            texts(args@) == gist_args(pr_num as nat, all.take(i as int)),
    {
        push_text(&mut args, paths[i].as_str());
        assert(gist_args(pr_num as nat, all.take(i + 1)) == gist_args(
            pr_num as nat,
            all.take(i as int),
        ).push(all[i as int]));
    }
    assert(all.take(n as int) == all);
    args
}

/// The lines of the packages that failed, in the comment.
pub open spec fn failure_lines(results: Seq<ResultText>) -> Seq<char>
    decreases results.len(),
{
    if results.len() == 0 {
        Seq::empty()
    } else {
        let r = results.last();
        let front = failure_lines(results.drop_last());
        if r.success {
            front
        } else {
            front + "- `"@ + r.attr + "`: "@ + failed_step_from(r, 0) + " build failed\n"@
        }
    }
}

/// The comment that leads to the gist.
pub open spec fn gist_comment_text(results: Seq<ResultText>, gist_url: Seq<char>) -> Seq<char> {
    "## srcbot: Full Evaluation Results\n\n**"@ + decimal(tally(Tally::Passed, results)) + "/"@
        + decimal(results.len()) + " packages passed** ([full results]("@ + gist_url + "))\n\n"@
        + (if tally(Tally::Failed, results) > 0 {
        "### Failures\n"@ + failure_lines(results)
    } else {
        ""@
    })
}

/// Writes the comment that leads to the gist.
pub fn gist_comment(results: &[FullEvalBuildResult], gist_url: &str) -> (out: String)
    ensures
        out@ == gist_comment_text(result_texts(results@), gist_url@),
{
    let ghost all = result_texts(results@);
    let n: usize = results.len();
    let mut lines = String::new();
    assert(all.take(0) == Seq::<ResultText>::empty());
    for i in 0..n
        invariant
            n == results@.len(),
            all == result_texts(results@),
            lines@ == failure_lines(all.take(i as int)),
    {
        let r = &results[i];
        proof {
            assert(all.take(i + 1).drop_last() == all.take(i as int));
            assert(all.take(i + 1).last() == r@);
        }
        if !r.package_success {
            lines.append("- `");
            lines.append(r.attr.as_str());
            lines.append("`: ");
            lines.append(failed_step(r).as_str());
            lines.append(" build failed\n");
        }
    }
    assert(all.take(n as int) == all);
    let passed: usize = count_results(Tally::Passed, results);
    let failed: usize = count_results(Tally::Failed, results);
    let failures = if failed > 0 {
        "### Failures\n".to_string().concat(lines.as_str())
    } else {
        "".to_string()
    };
    "## srcbot: Full Evaluation Results\n\n**".to_string()
        .concat(decimal_usize(passed).as_str())
        .concat("/")
        .concat(decimal_usize(n).as_str())
        .concat(" packages passed** ([full results](")
        .concat(gist_url)
        .concat("))\n\n")
        .concat(failures.as_str())
}

/// What to do with the outcome of a run.
#[derive(Clone, Copy, PartialEq, Eq, Structural, Debug)]
pub enum Posting {
    /// Only show what would be posted.
    DryRun,
    /// Post the logs as a gist, and a comment that leads to it.
    Gist,
    /// Post the summary as a comment.
    Comment,
    /// There is no token: post nothing.
    NoToken,
}

/// Decides what to do with the outcome of a run.
pub fn choose_posting(dry_run: bool, post_gist: bool, has_token: bool) -> (posting: Posting)
    ensures
        posting == (if dry_run {
            Posting::DryRun
        } else if !has_token {
            Posting::NoToken
        } else if post_gist {
            Posting::Gist
        } else {
            Posting::Comment
        }),
{
    if dry_run {
        Posting::DryRun
    } else if !has_token {
        Posting::NoToken
    } else if post_gist {
        Posting::Gist
    } else {
        Posting::Comment
    }
}

/// The end of a log is all of it where it has few lines.
pub proof fn law_short_log_is_whole(s: Seq<char>, n: int)
    requires
        lines(s).len() <= n,
    ensures
        tail_lines(s, n) == s,
{
}

/// A pull request is asked for again exactly where no answer came or the server failed,
/// and only up to three times; a refusal is final, and an answer is read.
pub proof fn law_what_is_asked_again(attempt: u32, event: FetchEvent)
    ensures
        fetch_action(attempt, event) == FetchAction::Read <==> event == FetchEvent::Answered,
        fetch_action(attempt, event) is Retry <==> attempt < 3 && (event == FetchEvent::ServerError
            || event == FetchEvent::NoAnswer),
        fetch_action(attempt, event) is Retry ==> fetch_action(attempt, event)->attempt == attempt
            + 1,
        fetch_action(attempt, event) == FetchAction::GiveUp <==> event == FetchEvent::Refused || (
        attempt >= 3 && event != FetchEvent::Answered),
{
}

/// An address is told exactly where the answer holds it as a text.
pub proof fn law_address_is_told(address: Seq<char>)
    ensures
        address_in(Some(Some(address))) == address,
        address_in(Some(None)).len() == 0,
        address_in(None).len() == 0,
{
}

/// A long log is shown by its last lines, as many as asked for.
pub proof fn law_long_log_is_cut(s: Seq<char>, n: int)
    requires
        0 <= n < lines(s).len(),
    ensures
        tail_lines(s, n) == join(lines(s).skip(lines(s).len() - n), "\n"@),
{
}

/// The step at which a package failed is the first of its steps that did; where none did
/// it is the package itself.
pub proof fn law_failed_step(r: ResultText, from: int)
    requires
        0 <= from <= r.steps.len(),
    ensures
        (forall|k: int| from <= k < r.steps.len() ==> (#[trigger] r.steps[k]).1)
            ==> failed_step_from(r, from) == "package"@,
        forall|i: int|
            from <= i < r.steps.len() && !(#[trigger] r.steps[i]).1 && (forall|k: int|
                from <= k < i ==> (#[trigger] r.steps[k]).1) ==> failed_step_from(r, from)
                == r.steps[i].0,
    decreases r.steps.len() - from,
{
    if from < r.steps.len() && r.steps[from].1 {
        law_failed_step(r, from + 1);
    }
}

/// The rows and lines grow by one for each result: one that failed has a row among the
/// failures with the step and its log, and a line in the comment; one that was built has
/// a row among those that passed, with all its steps.
pub proof fn law_each_result_has_its_row(results: Seq<ResultText>, r: ResultText)
    ensures
        gist_failed_rows(Seq::empty()).len() == 0,
        gist_passed_rows(Seq::empty()).len() == 0,
        failure_lines(Seq::empty()).len() == 0,
        r.success ==> gist_failed_rows(results.push(r)) == gist_failed_rows(results),
        r.success ==> failure_lines(results.push(r)) == failure_lines(results),
        !r.success ==> gist_passed_rows(results.push(r)) == gist_passed_rows(results),
        !r.success ==> gist_failed_rows(results.push(r)) == gist_failed_rows(results) + "| "@
            + r.attr + " | "@ + failed_step_from(r, 0) + " | ["@ + gist_log_name(
            r.attr,
            failed_step_from(r, 0),
        ) + "]("@ + gist_log_name(r.attr, failed_step_from(r, 0)) + ") |\n"@,
        !r.success ==> failure_lines(results.push(r)) == failure_lines(results) + "- `"@ + r.attr
            + "`: "@ + failed_step_from(r, 0) + " build failed\n"@,
        r.success ==> gist_passed_rows(results.push(r)) == gist_passed_rows(results) + "| "@
            + r.attr + " | "@ + join(step_names(r), ", "@) + " |\n"@,
{
    assert(results.push(r).drop_last() == results);
    assert(results.push(r).last() == r);
}

/// The steps of a result are named in their order, the package behind them.
pub proof fn law_step_names(r: ResultText)
    ensures
        step_names(r).len() == r.steps.len() + 1,
        step_names(r).last() == "package"@,
        forall|k: int| 0 <= k < r.steps.len() ==> #[trigger] step_names(r)[k] == r.steps[k].0,
{
}

proof fn lemma_gist_parts(head: Seq<char>, a: Seq<char>, b: Seq<char>)
    ensures
        crate::search::starts_with(head + a + b, head),
        contains(head + a + b, a),
        contains(head + a + b, b),
{
    let all = head + a + b;
    assert(all.subrange(0, head.len() as int) =~= head);
    lemma_contains_middle(head, a, b);
    assert(all =~= (head + a) + b + Seq::<char>::empty());
    lemma_contains_middle(head + a, b, Seq::empty());
}

/// The summary of the gist begins with the number of the pull request and how many
/// packages passed, of how many, and how many failed; it holds the rows of the failures
/// where there are any, and those of the packages that passed where there are any.
#[verifier::rlimit(40)]
pub proof fn law_gist_summary_tells(pr_num: nat, results: Seq<ResultText>)
    ensures
        ({
            let text = gist_summary_text(pr_num, results);
            let passed = results.filter(|r: ResultText| r.success).len();
            let failed = results.filter(|r: ResultText| !r.success).len();
            &&& crate::search::starts_with(
                text,
                "## srcbot: Full Evaluation Results for PR #"@ + decimal(pr_num)
                    + "\n\n**Status**: "@ + decimal(passed) + "/"@ + decimal(results.len())
                    + " packages passed, "@ + decimal(failed) + " failed\n\n"@,
            )
            &&& failed > 0 ==> contains(text, gist_failed_rows(results))
            &&& passed > 0 ==> contains(text, gist_passed_rows(results))
        }),
{
    law_tallies(results);
    let passed = tally(Tally::Passed, results);
    let failed = tally(Tally::Failed, results);
    let head = "## srcbot: Full Evaluation Results for PR #"@ + decimal(pr_num)
        + "\n\n**Status**: "@ + decimal(passed) + "/"@ + decimal(results.len())
        + " packages passed, "@ + decimal(failed) + " failed\n\n"@;
    let bad_head =
        "### Failed Packages\n\n| Package | Failed Step | Log |\n|---------|-------------|-----|\n"@;
    let good_head = "<details>\n<summary>"@ + decimal(passed)
        + " packages passed</summary>\n\n| Package | Steps Built |\n|---------|-------------|\n"@;
    let bad = if failed > 0 {
        bad_head + gist_failed_rows(results) + "\n"@
    } else {
        ""@
    };
    let good = if passed > 0 {
        good_head + gist_passed_rows(results) + "\n</details>\n"@
    } else {
        ""@
    };
    let text = gist_summary_text(pr_num, results);
    assert(text == head + bad + good);
    lemma_gist_parts(head, bad, good);
    if failed > 0 {
        lemma_contains_middle(bad_head, gist_failed_rows(results), "\n"@);
        lemma_contains_within(text, bad, gist_failed_rows(results));
    }
    if passed > 0 {
        lemma_contains_middle(good_head, gist_passed_rows(results), "\n</details>\n"@);
        lemma_contains_within(text, good, gist_passed_rows(results));
    }
}

/// The comment that leads to the gist begins with how many packages passed, of how many,
/// and where the gist is; it ends with the lines of the failures where there are any.
#[verifier::rlimit(40)]
pub proof fn law_gist_comment_tells(results: Seq<ResultText>, gist_url: Seq<char>)
    ensures
        ({
            let text = gist_comment_text(results, gist_url);
            let passed = results.filter(|r: ResultText| r.success).len();
            let failed = results.filter(|r: ResultText| !r.success).len();
            let head = "## srcbot: Full Evaluation Results\n\n**"@ + decimal(passed) + "/"@
                + decimal(results.len()) + " packages passed** ([full results]("@ + gist_url
                + "))\n\n"@;
            &&& failed == 0 ==> text == head
            &&& failed > 0 ==> text == head + ("### Failures\n"@ + failure_lines(results))
        }),
{
    law_tallies(results);
    reveal_strlit("");
    let head = "## srcbot: Full Evaluation Results\n\n**"@ + decimal(
        tally(Tally::Passed, results),
    ) + "/"@ + decimal(results.len()) + " packages passed** ([full results]("@ + gist_url
        + "))\n\n"@;
    assert(head + ""@ =~= head);
}

proof fn lemma_with_tail_keeps(
    files: Seq<(Seq<char>, Seq<char>)>,
    name: Seq<char>,
    log: Seq<char>,
    file: (Seq<char>, Seq<char>),
)
    ensures
        files.contains(file) ==> with_tail(files, name, log).contains(file),
        !is_blank(tail_lines(log, 100)) ==> with_tail(files, name, log).contains(
            (name, tail_lines(log, 100)),
        ),
{
    let all = with_tail(files, name, log);
    if files.contains(file) {
        let k = choose|k: int| 0 <= k < files.len() && files[k] == file;
        assert(all[k] == file);
    }
    if !is_blank(tail_lines(log, 100)) {
        assert(all[files.len() as int] == (name, tail_lines(log, 100)));
    }
}

proof fn lemma_gist_steps_keep(
    files: Seq<(Seq<char>, Seq<char>)>,
    r: ResultText,
    n: int,
    file: (Seq<char>, Seq<char>),
)
    requires
        0 <= n <= r.steps.len(),
    ensures
        files.contains(file) ==> gist_step_files(files, r, n).contains(file),
        forall|k: int|
            0 <= k < n && !is_blank(tail_lines((#[trigger] r.steps[k]).2, 100))
                ==> gist_step_files(files, r, n).contains(
                (gist_log_name(r.attr, r.steps[k].0), tail_lines(r.steps[k].2, 100)),
            ),
    decreases n,
{
    if n > 0 {
        lemma_gist_steps_keep(files, r, n - 1, file);
        let front = gist_step_files(files, r, n - 1);
        let name = gist_log_name(r.attr, r.steps[n - 1].0);
        lemma_with_tail_keeps(front, name, r.steps[n - 1].2, file);
        assert forall|k: int|
            0 <= k < n && !is_blank(tail_lines((#[trigger] r.steps[k]).2, 100))
            implies gist_step_files(files, r, n).contains(
            (gist_log_name(r.attr, r.steps[k].0), tail_lines(r.steps[k].2, 100)),
        ) by {
            lemma_with_tail_keeps(
                front,
                name,
                r.steps[n - 1].2,
                (gist_log_name(r.attr, r.steps[k].0), tail_lines(r.steps[k].2, 100)),
            );
        }
    }
}

/// The gist holds the files that it is begun with, and of every log of a result, be it of
/// a step or of the package, the last hundred lines, unless these are blank.
#[verifier::rlimit(40)]
pub proof fn law_logs_are_in_the_gist(
    files: Seq<(Seq<char>, Seq<char>)>,
    results: Seq<ResultText>,
    file: (Seq<char>, Seq<char>),
    i: int,
    k: int,
)
    ensures
        files.contains(file) ==> gist_logs(files, results).contains(file),
        0 <= i < results.len() && !is_blank(tail_lines(results[i].logs, 100)) ==> gist_logs(
            files,
            results,
        ).contains(
            (gist_log_name(results[i].attr, "package"@), tail_lines(results[i].logs, 100)),
        ),
        0 <= i < results.len() && 0 <= k < results[i].steps.len() && !is_blank(
            tail_lines(results[i].steps[k].2, 100),
        ) ==> gist_logs(files, results).contains(
            (
                gist_log_name(results[i].attr, results[i].steps[k].0),
                tail_lines(results[i].steps[k].2, 100),
            ),
        ),
    decreases results.len(),
{
    if results.len() > 0 {
        let front = results.drop_last();
        let r = results.last();
        let n = r.steps.len() as int;
        let before = gist_logs(files, front);
        let steps = gist_step_files(before, r, n);
        let package = (gist_log_name(results[i].attr, "package"@), tail_lines(
            results[i].logs,
            100,
        ));
        let step = (
            gist_log_name(results[i].attr, results[i].steps[k].0),
            tail_lines(results[i].steps[k].2, 100),
        );
        law_logs_are_in_the_gist(files, front, file, i, k);
        let last_name = gist_log_name(r.attr, "package"@);
        lemma_gist_steps_keep(before, r, n, file);
        lemma_gist_steps_keep(before, r, n, package);
        lemma_gist_steps_keep(before, r, n, step);
        lemma_with_tail_keeps(steps, last_name, r.logs, file);
        lemma_with_tail_keeps(steps, last_name, r.logs, package);
        lemma_with_tail_keeps(steps, last_name, r.logs, step);
        if 0 <= i < front.len() {
            assert(front[i] == results[i]);
        }
    }
}

/// The files follow the words of the command, all of them and in their order.
pub proof fn law_gist_args(pr_num: nat, paths: Seq<Seq<char>>)
    ensures
        gist_args(pr_num, paths).len() == paths.len() + 5,
        gist_args(pr_num, paths).skip(5) == paths,
        gist_args(pr_num, paths)[0] == "gist"@,
        gist_args(pr_num, paths)[1] == "create"@,
        gist_args(pr_num, paths)[4] == "srcbot results for PR #"@ + decimal(pr_num),
{
    assert(gist_args(pr_num, paths).skip(5) =~= paths);
}

/// An answer of at most two hundred bytes is reported whole, a longer one by its first two
/// hundred and a mark.
pub proof fn law_short_answer(text: Seq<char>)
    ensures
        vstd::utf8::encode_utf8(text).len() <= 200 ==> short_answer(text) == text,
        vstd::utf8::encode_utf8(text).len() > 200 ==> short_answer(text) == byte_prefix(text, 200)
            + "..."@,
{
}

/// A log in the gist is named by the attribute path, with underscores for its dots, and
/// the step.
pub proof fn law_gist_log_name(attr: Seq<char>, step: Seq<char>)
    ensures
        exists|name: Seq<char>|
            gist_log_name(attr, step) == #[trigger] (name + "."@ + step + ".log"@) && name.len()
                == attr.len() && (forall|k: int|
                0 <= k < attr.len() ==> #[trigger] name[k] == if attr[k] == '.' {
                    '_'
                } else {
                    attr[k]
                }),
{
    let name = with_char(attr, '.', '_');
    assert(gist_log_name(attr, step) == name + "."@ + step + ".log"@);
}

} // verus!
