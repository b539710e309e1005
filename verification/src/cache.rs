//! Where results, states and logs are kept.

use vstd::prelude::*;

use crate::numbers::{
    decimal, decimal_u64, is_digit, law_decimal_injective, lemma_decimal_value,
};
use crate::summary::{
    base_log_name, build_summary_comment, comment_text, link_text, log_name, make_base_log_name,
    make_log_name, result_system, system_of,
};
use crate::text::opt_str;
use crate::trim::{attr_safe, attr_safe_name, blank, is_blank};
use crate::types::{result_texts, FullEvalBuildResult, ResultText};

verus! {

// ---------------------------------------------------------------------------
// Paths

/// A path below another: what starts at the root stands for itself.
pub open spec fn path_join(base: Seq<char>, part: Seq<char>) -> Seq<char> {
    if part.len() > 0 && part[0] == '/' {
        part
    } else if base.len() > 0 && base.last() != '/' {
        base + "/"@ + part
    } else {
        base + part
    }
}

/// Makes the path below another.
pub fn join_path(base: &str, part: &str) -> (path: String)
    ensures
        path@ == path_join(base@, part@),
{
    proof {
        reveal_strlit("/");
        assert("/"@ == seq!['/']);
    }
    if crate::search::str_starts_with(part, "/") {
        assert(part@.subrange(0, 1)[0] == part@[0]);
        part.to_string()
    } else {
        assert(part@.len() > 0 ==> part@[0] != '/') by {
            if part@.len() > 0 && part@[0] == '/' {
                assert(part@.subrange(0, 1) == "/"@);
            }
        }
        let slashed = crate::search::str_ends_with(base, "/");
        proof {
            let n = base@.len() as int;
            if n > 0 {
                assert(base@.subrange(n - 1, n)[0] == base@.last());
                if base@.last() == '/' {
                    assert(base@.subrange(n - 1, n) == "/"@);
                }
            }
        }
        if base.is_empty() || slashed {
            base.to_string().concat(part)
        } else {
            base.to_string().concat("/").concat(part)
        }
    }
}

// ---------------------------------------------------------------------------
// The directory of srcbot

/// The place where everything is kept, which is set at most once.
#[derive(Debug)]
pub struct SaveLocation {
    /// Nothing before it was set; then the place asked for, if one was.
    pub location: Option<Option<String>>,
}

impl SaveLocation {
    /// A location that was not set.
    pub fn new() -> (slot: Self)
        ensures
            slot.location is None,
    {
        SaveLocation { location: None }
    }
}

/// What a location holds after an attempt to set it: the first one counts.
pub open spec fn location_after(
    before: Option<Option<String>>,
    location: Option<String>,
) -> Option<Option<String>> {
    match before {
        Some(_) => before,
        None => Some(location),
    }
}

/// Sets the place where everything is kept, if it was not set before.
pub fn init_save_location(slot: &mut SaveLocation, location: Option<String>)
    ensures
        final(slot).location == location_after(old(slot).location, location),
{
    if slot.location.is_none() {
        slot.location = Some(location);
    }
}

/// Setting the place a second time changes nothing.
pub proof fn law_first_location_counts(
    before: Option<Option<String>>,
    first: Option<String>,
    second: Option<String>,
)
    ensures
        location_after(location_after(before, first), second) == location_after(before, first),
{
}

/// The directory of srcbot: the place asked for, else below the cache directory, or
/// below `/tmp` where there is none.
pub open spec fn base_dir(location: Option<Option<String>>, cache_dir: Option<Seq<char>>) -> Seq<
    char,
> {
    match location {
        Some(Some(place)) => place@,
        _ => match cache_dir {
            Some(dir) => path_join(dir, "srcbot"@),
            None => path_join("/tmp"@, "srcbot"@),
        },
    }
}

/// Tells the directory of srcbot.
pub fn get_base_dir(slot: &SaveLocation, cache_dir: Option<&str>) -> (dir: String)
    ensures
        dir@ == base_dir(slot.location, opt_str(cache_dir)),
{
    match &slot.location {
        Some(Some(place)) => place.clone(),
        _ => match cache_dir {
            Some(dir) => join_path(dir, "srcbot"),
            None => join_path("/tmp", "srcbot"),
        },
    }
}

/// Tells the directory of the evaluations.
pub fn get_cache_dir(slot: &SaveLocation, cache_dir: Option<&str>) -> (dir: String)
    ensures
        dir@ == path_join(base_dir(slot.location, opt_str(cache_dir)), "evals"@),
{
    join_path(get_base_dir(slot, cache_dir).as_str(), "evals")
}

/// Tells the file of the evaluation of a commit for a system.
pub fn get_cache_path(
    slot: &SaveLocation,
    cache_dir: Option<&str>,
    commit: &str,
    system: &str,
) -> (path: String)
    ensures
        path@ == path_join(
            path_join(base_dir(slot.location, opt_str(cache_dir)), "evals"@),
            commit@ + "_"@ + system@ + ".json"@,
        ),
{
    let name = commit.to_string().concat("_").concat(system).concat(".json");
    join_path(get_cache_dir(slot, cache_dir).as_str(), name.as_str())
}

/// Tells the directory of the states.
pub fn get_state_dir(slot: &SaveLocation, cache_dir: Option<&str>) -> (dir: String)
    ensures
        dir@ == path_join(base_dir(slot.location, opt_str(cache_dir)), "state"@),
{
    join_path(get_base_dir(slot, cache_dir).as_str(), "state")
}

/// Tells the file of the state of a pull request.
pub fn get_state_path(slot: &SaveLocation, cache_dir: Option<&str>, pr_num: u64) -> (path: String)
    ensures
        path@ == path_join(
            path_join(base_dir(slot.location, opt_str(cache_dir)), "state"@),
            decimal(pr_num as nat) + ".json"@,
        ),
{
    let name = decimal_u64(pr_num).concat(".json");
    join_path(get_state_dir(slot, cache_dir).as_str(), name.as_str())
}

/// The directory of all logs.
pub open spec fn logs_dir(location: Option<Option<String>>, cache_dir: Option<Seq<char>>) -> Seq<
    char,
> {
    path_join(base_dir(location, cache_dir), "logs"@)
}

/// Tells the directory of all logs.
pub fn get_logs_dir(slot: &SaveLocation, cache_dir: Option<&str>) -> (dir: String)
    ensures
        dir@ == logs_dir(slot.location, opt_str(cache_dir)),
{
    join_path(get_base_dir(slot, cache_dir).as_str(), "logs")
}

/// Tells the directory of the logs of an attribute whose hash is fixed.
pub fn get_fix_hash_attr_log_dir(slot: &SaveLocation, cache_dir: Option<&str>, attr: &str) -> (dir:
    String)
    ensures
        dir@ == path_join(logs_dir(slot.location, opt_str(cache_dir)), attr_safe(attr@)),
{
    join_path(get_logs_dir(slot, cache_dir).as_str(), attr_safe_name(attr).as_str())
}

// ---------------------------------------------------------------------------
// The log directory of a pull request

/// The directory that is tried first.
pub open spec fn first_log_dir(logs: Seq<char>, pr_num: nat) -> Seq<char> {
    path_join(logs, decimal(pr_num))
}

/// The directory that is tried after `i - 1` others were taken.
pub open spec fn numbered_log_dir(logs: Seq<char>, pr_num: nat, i: nat) -> Seq<char> {
    path_join(logs, decimal(pr_num) + "_"@ + decimal(i))
}

/// The log directories that were chosen in this run, by pull request.
#[derive(Debug)]
pub struct LogDirs {
    pub chosen: Vec<(u64, String)>,
}

/// What is known of the log directory of a pull request.
#[derive(Debug)]
pub enum LogDirStep {
    /// It is this one.
    Chosen { dir: String },
    /// Look whether there are files in this one.
    LookForFiles { dir: String },
    /// Look whether there is one with this number.
    LookForNumber { number: u32, dir: String },
}

/// The directory that was chosen for a pull request: the first entry counts.
pub open spec fn chosen_from(chosen: Seq<(u64, String)>, pr_num: u64, from: int) -> Option<
    Seq<char>,
>
    decreases chosen.len() - from,
{
    if from >= chosen.len() {
        None
    } else if chosen[from].0 == pr_num {
        Some(chosen[from].1@)
    } else {
        chosen_from(chosen, pr_num, from + 1)
    }
}

impl LogDirs {
    /// Nothing chosen yet.
    pub fn new() -> (dirs: Self)
        ensures
            dirs.chosen@.len() == 0,
    {
        LogDirs { chosen: Vec::new() }
    }

    /// The directory that was chosen for a pull request.
    pub open spec fn dir_of(&self, pr_num: u64) -> Option<Seq<char>> {
        chosen_from(self.chosen@, pr_num, 0)
    }

    /// Begins the search: what was chosen before is chosen again.
    pub fn begin(&self, logs: &str, pr_num: u64) -> (step: LogDirStep)
        ensures
            match self.dir_of(pr_num) {
                Some(dir) => step matches LogDirStep::Chosen { dir: d } && d@ == dir,
                None => step matches LogDirStep::LookForFiles { dir } && dir@ == first_log_dir(
                    logs@,
                    pr_num as nat,
                ),
            },
    {
        let n: usize = self.chosen.len();
        let mut i: usize = 0;
        while i < n
            invariant
                i <= n,
                n == self.chosen@.len(),
                self.dir_of(pr_num) == chosen_from(self.chosen@, pr_num, i as int),
            decreases n - i,
        {
            if self.chosen[i].0 == pr_num {
                return LogDirStep::Chosen { dir: self.chosen[i].1.clone() };
            }
            i = i + 1;
        }
        LogDirStep::LookForFiles { dir: join_path(logs, decimal_u64(pr_num).as_str()) }
    }

    /// Keeps the directory that was chosen for a pull request.
    pub fn choose_dir(&mut self, pr_num: u64, dir: &str)
        requires
            old(self).dir_of(pr_num) is None,
        ensures
            final(self).dir_of(pr_num) == Some(dir@),
            forall|other: u64|
                other != pr_num ==> #[trigger] final(self).dir_of(other) == old(self).dir_of(
                    other,
                ),
    {
        let ghost before = self.chosen@;
        self.chosen.push((pr_num, dir.to_string()));
        proof {
            lemma_chosen_push(before, self.chosen@.last(), pr_num, 0);
            assert forall|other: u64| other != pr_num implies #[trigger] self.dir_of(other)
                == chosen_from(before, other, 0) by {
                lemma_chosen_push(before, self.chosen@.last(), other, 0);
            }
        }
    }
}

proof fn lemma_chosen_push(chosen: Seq<(u64, String)>, last: (u64, String), pr_num: u64, from: int)
    requires
        0 <= from <= chosen.len(),
    ensures
        chosen_from(chosen.push(last), pr_num, from) == (match chosen_from(chosen, pr_num, from) {
            Some(dir) => Some(dir),
            None => if last.0 == pr_num {
                Some(last.1@)
            } else {
                None
            },
        }),
    decreases chosen.len() - from,
{
    let longer = chosen.push(last);
    if from < chosen.len() {
        assert(longer[from] == chosen[from]);
        if chosen[from].0 != pr_num {
            lemma_chosen_push(chosen, last, pr_num, from + 1);
        }
    } else {
        assert(longer[from] == last);
        reveal_with_fuel(chosen_from, 2);
    }
}

fn number_step(logs: &str, pr_num: u64, number: u32) -> (step: LogDirStep)
    ensures
        step matches LogDirStep::LookForNumber { number: n, dir } && n == number && dir@
            == numbered_log_dir(logs@, pr_num as nat, number as nat),
{
    let name = decimal_u64(pr_num).concat("_").concat(decimal_u64(number as u64).as_str());
    LogDirStep::LookForNumber { number, dir: join_path(logs, name.as_str()) }
}

/// Takes the answer about the first directory: without files in it, it is chosen.
pub fn after_first_dir(logs: &str, pr_num: u64, has_files: bool) -> (step: LogDirStep)
    ensures
        if has_files {
            step matches LogDirStep::LookForNumber { number, dir } && number == 1 && dir@
                == numbered_log_dir(logs@, pr_num as nat, 1)
        } else {
            step matches LogDirStep::Chosen { dir } && dir@ == first_log_dir(
                logs@,
                pr_num as nat,
            )
        },
{
    if has_files {
        number_step(logs, pr_num, 1)
    } else {
        LogDirStep::Chosen { dir: join_path(logs, decimal_u64(pr_num).as_str()) }
    }
}

/// How the search for a number goes on.
pub enum NumberStep {
    /// Look whether there is a directory with this number.
    Look { number: int },
    /// It is this number.
    Chosen { number: int },
}

/// How the search goes on after it was looked whether there is a directory with a
/// number: one that is not there is chosen, else the next is looked for.
pub open spec fn number_after(number: int, there: bool) -> NumberStep {
    if there {
        NumberStep::Look { number: number + 1 }
    } else {
        NumberStep::Chosen { number }
    }
}

/// Takes the answer about a numbered directory.
pub fn after_numbered_dir(logs: &str, pr_num: u64, number: u32, there: bool) -> (step: LogDirStep)
    requires
        there ==> number < u32::MAX,
    ensures
        match number_after(number as int, there) {
            NumberStep::Look { number: m } => step matches LogDirStep::LookForNumber {
                number: n,
                dir,
            } && n == m && dir@ == numbered_log_dir(logs@, pr_num as nat, m as nat),
            NumberStep::Chosen { number: m } => step matches LogDirStep::Chosen { dir } && dir@
                == numbered_log_dir(logs@, pr_num as nat, m as nat),
        },
{
    if there {
        number_step(logs, pr_num, number + 1)
    } else {
        let name = decimal_u64(pr_num).concat("_").concat(decimal_u64(number as u64).as_str());
        LogDirStep::Chosen { dir: join_path(logs, name.as_str()) }
    }
}

/// The number that the search ends with, from `number` on and up to `limit`, where
/// the directories are there as `taken` says.
pub open spec fn number_chosen(taken: spec_fn(int) -> bool, number: int, limit: int) -> Option<int>
    decreases limit - number + 1,
{
    if number > limit {
        None
    } else {
        match number_after(number, taken(number)) {
            NumberStep::Look { number: next } => number_chosen(taken, next, limit),
            NumberStep::Chosen { number: found } => Some(found),
        }
    }
}

/// The search chooses the lowest number that is free.
pub proof fn law_lowest_number_chosen(taken: spec_fn(int) -> bool, number: int, limit: int)
    ensures
        match number_chosen(taken, number, limit) {
            Some(i) => number <= i <= limit && !taken(i) && (forall|j: int|
                number <= j < i ==> #[trigger] taken(j)),
            None => forall|j: int| number <= j <= limit ==> #[trigger] taken(j),
        },
    decreases limit - number + 1,
{
    if number <= limit && taken(number) {
        law_lowest_number_chosen(taken, number + 1, limit);
    }
}

// ---------------------------------------------------------------------------
// Logs

/// The name of a log. With a system it stands in front; of a build on the base
/// branch the commit stands behind.
pub open spec fn saved_log_name(
    attr: Seq<char>,
    step: Seq<char>,
    commit_suffix: Option<Seq<char>>,
    system: Option<Seq<char>>,
) -> Seq<char> {
    match (system, commit_suffix) {
        (Some(sys), Some(suffix)) => base_log_name(sys, attr, step, suffix),
        (Some(sys), None) => log_name(sys, attr, step),
        (None, Some(suffix)) => attr_safe(attr) + "."@ + step + ".base-"@ + suffix + ".log"@,
        (None, None) => attr_safe(attr) + "."@ + step + ".log"@,
    }
}

/// Makes the name of a log.
pub fn single_log_name(
    attr: &str,
    step: &str,
    commit_suffix: Option<&str>,
    system: Option<&str>,
) -> (name: String)
    ensures
        name@ == saved_log_name(attr@, step@, opt_str(commit_suffix), opt_str(system)),
{
    match (system, commit_suffix) {
        (Some(sys), Some(suffix)) => make_base_log_name(sys, attr, step, suffix),
        (Some(sys), None) => make_log_name(sys, attr, step),
        (None, Some(suffix)) => attr_safe_name(attr)
            .concat(".")
            .concat(step)
            .concat(".base-")
            .concat(suffix)
            .concat(".log"),
        (None, None) => attr_safe_name(attr).concat(".").concat(step).concat(".log"),
    }
}

/// The name under which an older log is put away.
pub fn backup_log_name(name: &str, seconds: u64) -> (out: String)
    ensures
        out@ == name@ + "."@ + decimal(seconds as nat),
{
    name.to_string().concat(".").concat(decimal_u64(seconds).as_str())
}

/// The text of the file that tells the command.
pub fn command_file_text(cli_command: &str) -> (text: String)
    ensures
        text@ == "# Command\n\n```bash\n"@ + cli_command@ + "\n```\n"@,
{
    "# Command\n\n```bash\n".to_string().concat(cli_command).concat("\n```\n")
}

/// A file: its name and its text.
pub open spec fn file_texts(files: Seq<(String, String)>) -> Seq<(Seq<char>, Seq<char>)> {
    files.map_values(|f: (String, String)| (f.0@, f.1@))
}

/// Adds the log of a step to a list of files, where it is not blank.
pub open spec fn with_log(
    files: Seq<(Seq<char>, Seq<char>)>,
    name: Seq<char>,
    log: Seq<char>,
) -> Seq<(Seq<char>, Seq<char>)> {
    if is_blank(log) {
        files
    } else {
        files.push((name, log))
    }
}

/// The logs of the first `n` steps of a result.
pub open spec fn step_files(r: ResultText, n: int) -> Seq<(Seq<char>, Seq<char>)>
    decreases n,
{
    if n <= 0 {
        Seq::empty()
    } else {
        with_log(
            step_files(r, n - 1),
            log_name(system_of(r), r.attr, r.steps[n - 1].0),
            r.steps[n - 1].2,
        )
    }
}

/// The logs of a result.
pub open spec fn result_files(r: ResultText) -> Seq<(Seq<char>, Seq<char>)> {
    with_log(
        step_files(r, r.steps.len() as int),
        log_name(system_of(r), r.attr, "package"@),
        r.logs,
    )
}

/// The logs of a list of results.
pub open spec fn all_files(results: Seq<ResultText>) -> Seq<(Seq<char>, Seq<char>)>
    decreases results.len(),
{
    if results.len() == 0 {
        Seq::empty()
    } else {
        all_files(results.drop_last()) + result_files(results.last())
    }
}

fn push_log(files: &mut Vec<(String, String)>, name: String, log: &String)
    ensures
        file_texts(final(files)@) == with_log(file_texts(old(files)@), name@, log@),
{
    if !blank(log.as_str()) {
        let ghost before = file_texts(files@);
        let ghost what = (name@, log@);
        files.push((name, log.clone()));
        assert(file_texts(files@) == before.push(what));
    }
}

/// Adding logs to more files is adding them to fewer, behind the rest.
proof fn lemma_with_log_behind(
    front: Seq<(Seq<char>, Seq<char>)>,
    files: Seq<(Seq<char>, Seq<char>)>,
    name: Seq<char>,
    log: Seq<char>,
)
    ensures
        with_log(front + files, name, log) == front + with_log(files, name, log),
{
    assert((front + files).push((name, log)) == front + files.push((name, log)));
}

/// Lists the files that are written for a list of results: the summary, then the
/// logs that are not blank.
pub fn local_files(pr_num: u64, results: &[FullEvalBuildResult]) -> (files: Vec<(String, String)>)
    ensures
        file_texts(files@) == seq![
            (
                "summary.md"@,
                comment_text(
                    pr_num as nat,
                    result_texts(results@),
                    link_text(None, None),
                    None,
                    None,
                    None,
                ),
            ),
        ] + all_files(result_texts(results@)),
{
    let summary = build_summary_comment(pr_num, results, None, None, None, None, None, None);
    let ghost head = seq![("summary.md"@, summary@)];
    let ghost all = result_texts(results@);
    let mut files: Vec<(String, String)> = Vec::new();
    files.push(("summary.md".to_string(), summary));
    assert(file_texts(files@) == head);
    assert(head + all_files(all.take(0)) == head);
    let n: usize = results.len();
    for i in 0..n
        invariant
            n == results@.len(),
            all == result_texts(results@),
            file_texts(files@) == head + all_files(all.take(i as int)),
    {
        let result = &results[i];
        let ghost r = result@;
        let ghost front = head + all_files(all.take(i as int));
        proof {
            assert(all.take(i + 1).drop_last() == all.take(i as int));
            assert(all.take(i + 1).last() == r);
            assert(front + step_files(r, 0) == front);
        }
        let system = result_system(result);
        let m: usize = result.intermediate_results.len();
        for k in 0..m
            invariant
                m == result.intermediate_results@.len(),
                r == result@,
                system@ == system_of(r),
                file_texts(files@) == front + step_files(r, k as int),
        {
            let step = &result.intermediate_results[k];
            proof {
                assert(r.steps[k as int] == (step.0@, step.1, step.2@));
                lemma_with_log_behind(
                    front,
                    step_files(r, k as int),
                    log_name(system_of(r), r.attr, step.0@),
                    step.2@,
                );
            }
            let name = make_log_name(system.as_str(), result.attr.as_str(), step.0.as_str());
            push_log(&mut files, name, &step.2);
        }
        proof {
            assert(r.steps.len() == m);
            lemma_with_log_behind(
                front,
                step_files(r, m as int),
                log_name(system_of(r), r.attr, "package"@),
                r.logs,
            );
        }
        let name = make_log_name(system.as_str(), result.attr.as_str(), "package");
        push_log(&mut files, name, &result.package_logs);
        assert(front + result_files(r) == head + (all_files(all.take(i as int)) + result_files(r)));
    }
    assert(all.take(n as int) == all);
    files
}

proof fn lemma_step_files(r: ResultText, n: int, k: int)
    requires
        0 <= k < n <= r.steps.len(),
        !is_blank(r.steps[k].2),
    ensures
        step_files(r, n).contains((log_name(system_of(r), r.attr, r.steps[k].0), r.steps[k].2)),
    decreases n,
{
    let what = (log_name(system_of(r), r.attr, r.steps[k].0), r.steps[k].2);
    let all = step_files(r, n);
    if k == n - 1 {
        assert(all[all.len() - 1] == what);
    } else {
        lemma_step_files(r, n - 1, k);
        let front = step_files(r, n - 1);
        let j = choose|j: int| 0 <= j < front.len() && front[j] == what;
        assert(all[j] == what);
    }
}

/// Every log of a step that is not blank is saved, under the name to which the
/// address of the step in the summary leads.
pub proof fn law_step_logs_saved(results: Seq<ResultText>, i: int, k: int)
    requires
        0 <= i < results.len(),
        0 <= k < results[i].steps.len(),
        !is_blank(results[i].steps[k].2),
    ensures
        all_files(results).contains(
            (
                log_name(system_of(results[i]), results[i].attr, results[i].steps[k].0),
                results[i].steps[k].2,
            ),
        ),
    decreases results.len(),
{
    let r = results[i];
    let what = (log_name(system_of(r), r.attr, r.steps[k].0), r.steps[k].2);
    let front = all_files(results.drop_last());
    let all = all_files(results);
    if i == results.len() - 1 {
        lemma_step_files(r, r.steps.len() as int, k);
        let steps = step_files(r, r.steps.len() as int);
        let j = choose|j: int| 0 <= j < steps.len() && steps[j] == what;
        assert(result_files(r)[j] == what);
        assert(all[front.len() + j] == what);
    } else {
        assert(results.drop_last()[i] == r);
        law_step_logs_saved(results.drop_last(), i, k);
        let j = choose|j: int| 0 <= j < front.len() && front[j] == what;
        assert(all[j] == what);
    }
}

/// Every log of a package that is not blank is saved, under the name to which its
/// address in the summary leads.
pub proof fn law_package_logs_saved(results: Seq<ResultText>, i: int)
    requires
        0 <= i < results.len(),
        !is_blank(results[i].logs),
    ensures
        all_files(results).contains(
            (log_name(system_of(results[i]), results[i].attr, "package"@), results[i].logs),
        ),
    decreases results.len(),
{
    let r = results[i];
    let what = (log_name(system_of(r), r.attr, "package"@), r.logs);
    let front = all_files(results.drop_last());
    let all = all_files(results);
    if i == results.len() - 1 {
        let own = result_files(r);
        assert(own[own.len() - 1] == what);
        assert(all[front.len() + own.len() - 1] == what);
    } else {
        assert(results.drop_last()[i] == r);
        law_package_logs_saved(results.drop_last(), i);
        let j = choose|j: int| 0 <= j < front.len() && front[j] == what;
        assert(all[j] == what);
    }
}

// ---------------------------------------------------------------------------
// What holds of the places

/// A path that starts at the root stands for itself below any other; another is put
/// behind the base, with exactly one slash between them unless the base is empty.
pub proof fn law_path_below(base: Seq<char>, part: Seq<char>)
    ensures
        path_join(base, "/"@ + part) == "/"@ + part,
        (part.len() == 0 || part[0] != '/') && base.len() > 0 && base.last() != '/' ==> path_join(
            base,
            part,
        ) == base + "/"@ + part,
        part.len() == 0 || part[0] != '/' ==> path_join(base + "/"@, part) == base + "/"@ + part,
        part.len() == 0 || part[0] != '/' ==> path_join(Seq::empty(), part) == part,
{
    reveal_strlit("/");
    assert(("/"@ + part)[0] == '/');
    assert((base + "/"@).last() == '/');
    assert(Seq::<char>::empty() + part =~= part);
}

/// The place that was set is the one that is used, whatever the cache directory; only
/// where none was asked for does the cache directory count, and only without one `/tmp`.
pub proof fn law_place_asked_for_counts(
    place: String,
    unset: Option<Option<String>>,
    cache_dir: Seq<char>,
    other: Option<Seq<char>>,
)
    requires
        unset is None || unset == Some(None::<String>),
    ensures
        base_dir(Some(Some(place)), other) == place@,
        base_dir(unset, Some(cache_dir)) == path_join(cache_dir, "srcbot"@),
        base_dir(unset, None) == path_join("/tmp"@, "srcbot"@),
        location_after(None, Some(place)) == Some(Some(place)),
        logs_dir(unset, other) == path_join(base_dir(unset, other), "logs"@),
{
}

/// The directory that was chosen for a pull request is that of its first entry.
pub proof fn law_chosen_dir(chosen: Seq<(u64, String)>, pr_num: u64, from: int)
    requires
        0 <= from <= chosen.len(),
    ensures
        match chosen_from(chosen, pr_num, from) {
            Some(dir) => exists|i: int|
                from <= i < chosen.len() && (#[trigger] chosen[i]).0 == pr_num && chosen[i].1@
                    == dir && (forall|j: int|
                    from <= j < i ==> (#[trigger] chosen[j]).0 != pr_num),
            None => forall|j: int| from <= j < chosen.len() ==> (#[trigger] chosen[j]).0 != pr_num,
        },
    decreases chosen.len() - from,
{
    if from < chosen.len() {
        if chosen[from].0 == pr_num {
            assert(chosen[from].1@ == chosen[from].1@);
        } else {
            law_chosen_dir(chosen, pr_num, from + 1);
            if let Some(dir) = chosen_from(chosen, pr_num, from + 1) {
                let i = choose|i: int|
                    from + 1 <= i < chosen.len() && (#[trigger] chosen[i]).0 == pr_num
                        && chosen[i].1@ == dir && (forall|j: int|
                        from + 1 <= j < i ==> (#[trigger] chosen[j]).0 != pr_num);
                assert(chosen[i].0 == pr_num);
            }
        }
    }
}

/// The directories that are tried for a pull request are named by its number, and from
/// the second on by a number of their own; no two are the same.
#[verifier::rlimit(40)]
pub proof fn law_log_dirs(logs: Seq<char>, pr_num: nat, i: nat, j: nat)
    requires
        logs.len() > 0,
        logs.last() != '/',
    ensures
        first_log_dir(logs, pr_num) == logs + "/"@ + decimal(pr_num),
        numbered_log_dir(logs, pr_num, i) == logs + "/"@ + (decimal(pr_num) + "_"@ + decimal(i)),
        i != j ==> numbered_log_dir(logs, pr_num, i) != numbered_log_dir(logs, pr_num, j),
{
    lemma_decimal_value(pr_num);
    lemma_decimal_value(i);
    lemma_decimal_value(j);
    lemma_number_is_no_root(pr_num);
    let front = logs + "/"@ + (decimal(pr_num) + "_"@);
    assert((decimal(pr_num) + "_"@ + decimal(i))[0] == decimal(pr_num)[0]);
    assert((decimal(pr_num) + "_"@ + decimal(j))[0] == decimal(pr_num)[0]);
    let one = numbered_log_dir(logs, pr_num, i);
    let two = numbered_log_dir(logs, pr_num, j);
    assert(one =~= front + decimal(i));
    assert(two =~= front + decimal(j));
    if one == two {
        assert(decimal(i) =~= one.skip(front.len() as int));
        assert(decimal(j) =~= two.skip(front.len() as int));
        law_decimal_injective(i, j);
    }
}

proof fn lemma_number_is_no_root(n: nat)
    ensures
        decimal(n).len() > 0,
        decimal(n)[0] != '/',
{
    lemma_decimal_value(n);
    let d = decimal(n);
    assert(is_digit(d[0]));
}

/// A log is named by the attribute path and the step, with the system before it where
/// there is one, and the commit behind it where it is of a build on the base branch.
#[verifier::rlimit(40)]
pub proof fn law_saved_log_names(
    attr: Seq<char>,
    step: Seq<char>,
    commit: Seq<char>,
    system: Seq<char>,
)
    ensures
        saved_log_name(attr, step, None, None) == attr_safe(attr) + "."@ + step + ".log"@,
        saved_log_name(attr, step, Some(commit), None) == attr_safe(attr) + "."@ + step + ".base-"@
            + commit + ".log"@,
        saved_log_name(attr, step, None, Some(system)) == system + "."@ + saved_log_name(
            attr,
            step,
            None,
            None,
        ),
        saved_log_name(attr, step, Some(commit), Some(system)) == system + "."@ + saved_log_name(
            attr,
            step,
            Some(commit),
            None,
        ),
        saved_log_name(attr, step, None, Some(system)) == log_name(system, attr, step),
        saved_log_name(attr, step, Some(commit), Some(system)) == base_log_name(
            system,
            attr,
            step,
            commit,
        ),
{
    let safe = attr_safe(attr);
    assert(system + "."@ + safe + "."@ + step + ".log"@ =~= system + "."@ + (safe + "."@ + step
        + ".log"@));
    assert(system + "."@ + safe + "."@ + step + ".base-"@ + commit + ".log"@ =~= system + "."@ + (
    safe + "."@ + step + ".base-"@ + commit + ".log"@));
}

proof fn lemma_step_files_from(r: ResultText, n: int, file: (Seq<char>, Seq<char>))
    requires
        0 <= n <= r.steps.len(),
        step_files(r, n).contains(file),
    ensures
        !is_blank(file.1),
        exists|k: int|
            0 <= k < n && file.1 == (#[trigger] r.steps[k]).2 && file.0 == log_name(
                system_of(r),
                r.attr,
                r.steps[k].0,
            ),
    decreases n,
{
    if n > 0 {
        let all = step_files(r, n);
        let front = step_files(r, n - 1);
        let j = choose|j: int| 0 <= j < all.len() && all[j] == file;
        if j < front.len() {
            assert(front[j] == file);
            lemma_step_files_from(r, n - 1, file);
        } else {
            assert(file.1 == r.steps[n - 1].2);
        }
    }
}

/// Nothing is saved but logs of the results that are not blank, each as it is and under
/// its own name.
pub proof fn law_only_logs_saved(results: Seq<ResultText>, file: (Seq<char>, Seq<char>))
    requires
        all_files(results).contains(file),
    ensures
        !is_blank(file.1),
        exists|i: int|
            0 <= i < results.len() && ((file.1 == (#[trigger] results[i]).logs && file.0
                == log_name(system_of(results[i]), results[i].attr, "package"@)) || exists|k: int|
                0 <= k < results[i].steps.len() && file.1 == (#[trigger] results[i].steps[k]).2
                    && file.0 == log_name(
                    system_of(results[i]),
                    results[i].attr,
                    results[i].steps[k].0,
                )),
    decreases results.len(),
{
    if results.len() > 0 {
        let shorter = results.drop_last();
        let front = all_files(shorter);
        let all = all_files(results);
        let r = results.last();
        let last = results.len() - 1;
        let j = choose|j: int| 0 <= j < all.len() && all[j] == file;
        if j < front.len() {
            assert(front[j] == file);
            assert(front.contains(file));
            law_only_logs_saved(shorter, file);
            let i = choose|i: int|
                0 <= i < shorter.len() && ((file.1 == (#[trigger] shorter[i]).logs && file.0
                    == log_name(system_of(shorter[i]), shorter[i].attr, "package"@)) || exists|
                    k: int,
                |
                    0 <= k < shorter[i].steps.len() && file.1 == (
                    #[trigger] shorter[i].steps[k]).2 && file.0 == log_name(
                        system_of(shorter[i]),
                        shorter[i].attr,
                        shorter[i].steps[k].0,
                    ));
            assert(results[i] == shorter[i]);
        } else {
            let own = result_files(r);
            let steps = step_files(r, r.steps.len() as int);
            assert(own[j - front.len()] == file);
            assert(results[last] == r);
            if j - front.len() < steps.len() {
                assert(steps[j - front.len()] == file);
                assert(steps.contains(file));
                lemma_step_files_from(r, r.steps.len() as int, file);
            }
        }
    }
}

/// A list of files says their names and texts, one for one.
pub proof fn law_files_say_all(files: Seq<(String, String)>)
    ensures
        file_texts(files).len() == files.len(),
        forall|i: int|
            0 <= i < files.len() ==> #[trigger] file_texts(files)[i] == (files[i].0@, files[i].1@),
{
}

} // verus!
