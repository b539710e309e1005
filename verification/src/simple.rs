//! Verifying the one attribute that a pull request is about.

use vstd::prelude::*;

use crate::github::{last_n_lines, tail_lines};
use crate::nix::{make_package_expr, make_tests_expr, package_expr, tests_expr};
use crate::numbers::{decimal, decimal_i32, decimal_u64, decimal_usize, signed_decimal};
use crate::search::{
    before_first, contains, lemma_contains_middle, lemma_contains_within, lines, lines_of,
    starts_with, str_before_first, str_contains,
};
use crate::text::{opt_text, texts};
use crate::trim::{blank, is_blank, trim, trimmed};
use crate::types::{intermediates, AttrBuildResult, PullRequest};

verus! {

// ---------------------------------------------------------------------------
// What is verified

/// The attribute that a title is about: what stands before its first colon.
pub open spec fn attr_in_title(title: Seq<char>) -> Option<Seq<char>> {
    match before_first(title, ":"@) {
        Some(head) => Some(trimmed(head)),
        None => None,
    }
}

/// What is reported where a title does not tell the attribute.
pub open spec fn title_error(title: Seq<char>) -> Seq<char> {
    "Could not parse attribute from PR title '"@ + title
        + "'. Expected format 'attribute: description'. Please provide --attr manually."@
}

/// Picks the attribute: the one asked for, else the one in the title.
pub fn pick_attr(asked: Option<&str>, title: &str) -> (attr: Result<String, String>)
    ensures
        match attr {
            Ok(a) => Some(a@) == (match asked {
                Some(name) => Some(name@),
                None => attr_in_title(title@),
            }),
            Err(message) => asked is None && attr_in_title(title@) is None && message@
                == title_error(title@),
        },
{
    match asked {
        Some(name) => Ok(name.to_string()),
        None => match str_before_first(title, ":") {
            Some(head) => Ok(trim(head.as_str())),
            None => Err(
                "Could not parse attribute from PR title '".to_string().concat(title).concat(
                    "'. Expected format 'attribute: description'. Please provide --attr manually.",
                ),
            ),
        },
    }
}

/// Picks the commit that is verified: the merge of the pull request, where there is
/// one.
pub fn pick_merge_commit(pr: &PullRequest) -> (sha: Result<String, String>)
    ensures
        match sha {
            Ok(s) => opt_text(pr.merge_commit_sha) == Some(s@),
            Err(message) => pr.merge_commit_sha is None && message@
                == "PR has no merge commit (might not be mergeable)"@,
        },
{
    match &pr.merge_commit_sha {
        Some(s) => Ok(s.clone()),
        None => Err("PR has no merge commit (might not be mergeable)".to_string()),
    }
}

// ---------------------------------------------------------------------------
// Intermediate attributes

/// Whether every result is a success.
pub open spec fn all_ok(results: Seq<AttrBuildResult>) -> bool {
    forall|i: int| 0 <= i < results.len() ==> (#[trigger] results[i]).is_success()
}

/// Tells whether every result is a success.
pub fn all_successful(results: &Vec<AttrBuildResult>) -> (yes: bool)
    ensures
        yes == all_ok(results@),
{
    let n: usize = results.len();
    for i in 0..n
        invariant
            n == results@.len(),
            forall|k: int| 0 <= k < i ==> (#[trigger] results@[k]).is_success(),
    {
        if !results[i].success() {
            return false;
        }
    }
    true
}

/// The intermediate attribute that is built next: they are built in order, until one
/// fails.
pub open spec fn tier_after(results: Seq<AttrBuildResult>) -> Option<int> {
    if all_ok(results) && results.len() < intermediates().len() {
        Some(results.len() as int)
    } else {
        None
    }
}

/// Tells the intermediate attribute that is built next.
pub fn next_tier(results: &Vec<AttrBuildResult>) -> (tier: Option<usize>)
    ensures
        match tier {
            Some(i) => tier_after(results@) == Some(i as int) && i < 15,
            None => tier_after(results@) is None,
        },
{
    if results.len() < 15 && all_successful(results) {
        Some(results.len())
    } else {
        None
    }
}

/// `src` is built first.
pub proof fn law_src_is_built_first()
    ensures
        tier_after(Seq::empty()) == Some(0int),
        intermediates()[0] == "src"@,
{
}

/// Nothing is built after a failure.
pub proof fn law_failure_stops(results: Seq<AttrBuildResult>, failed: AttrBuildResult)
    requires
        !failed.is_success(),
    ensures
        tier_after(results.push(failed)) is None,
        !all_ok(results.push(failed)),
{
    let all = results.push(failed);
    assert(all[results.len() as int] == failed);
}

/// A success leads to the next attribute.
pub proof fn law_success_goes_on(results: Seq<AttrBuildResult>, done: AttrBuildResult)
    requires
        tier_after(results) is Some,
        done.is_success(),
    ensures
        all_ok(results.push(done)),
        results.len() + 1 < intermediates().len() ==> tier_after(results.push(done)) == Some(
            (results.len() + 1) as int,
        ),
{
}

/// The name of the first attribute that was tried and failed, at or after `from`.
pub open spec fn failed_attr_from(results: Seq<AttrBuildResult>, from: int) -> Option<Seq<char>>
    decreases results.len() - from,
{
    if from >= results.len() {
        None
    } else if results[from].exists && !results[from].is_success() {
        Some(results[from].name@)
    } else {
        failed_attr_from(results, from + 1)
    }
}

/// Tells the first attribute that was tried and failed.
pub fn first_failed_attr(results: &Vec<AttrBuildResult>) -> (name: Option<String>)
    ensures
        opt_text(name) == failed_attr_from(results@, 0),
{
    let n: usize = results.len();
    let mut i: usize = 0;
    while i < n
        invariant
            i <= n,
            n == results@.len(),
            failed_attr_from(results@, 0) == failed_attr_from(results@, i as int),
        decreases n - i,
    {
        if results[i].attempted() && !results[i].success() {
            return Some(results[i].name.clone());
        }
        i = i + 1;
    }
    None
}

/// There is an attribute that failed exactly where not every result is a success.
pub proof fn law_failed_attr(results: Seq<AttrBuildResult>)
    ensures
        failed_attr_from(results, 0) is Some == !all_ok(results),
{
    lemma_failed_attr(results, 0);
}

proof fn lemma_failed_attr(results: Seq<AttrBuildResult>, from: int)
    requires
        0 <= from <= results.len(),
    ensures
        failed_attr_from(results, from) is None <==> (forall|i: int|
            from <= i < results.len() ==> (#[trigger] results[i]).is_success()),
    decreases results.len() - from,
{
    if from < results.len() {
        lemma_failed_attr(results, from + 1);
        if results[from].is_success() && failed_attr_from(results, from + 1) is None {
            assert forall|i: int| from <= i < results.len() implies (
            #[trigger] results[i]).is_success() by {}
        }
    }
}

// ---------------------------------------------------------------------------
// The package

/// Whether a package has to be built again: it was built, but the log tells that it
/// was fetched, or does not tell that it was built here.
pub open spec fn wants_rebuild(code: Option<i32>, logs: Seq<char>) -> bool {
    code == Some(0i32) && (contains(logs, "copying path"@) || contains(logs, "will be fetched"@)
        || !contains(logs, "building '/nix/store"@))
}

/// Tells whether a package has to be built again.
pub fn needs_rebuild(code: Option<i32>, logs: &str) -> (yes: bool)
    ensures
        yes == wants_rebuild(code, logs@),
{
    let built = match code {
        Some(c) => c == 0,
        None => false,
    };
    built && (str_contains(logs, "copying path") || str_contains(logs, "will be fetched")
        || !str_contains(logs, "building '/nix/store"))
}

/// The command that builds the package, as it is shown.
pub open spec fn package_command(
    path: Seq<char>,
    system: Seq<char>,
    attr: Seq<char>,
    full_rebuild: bool,
    rebuilt: bool,
) -> Seq<char> {
    if full_rebuild {
        if rebuilt {
            "nix build --print-build-logs --no-link --rebuild --impure --expr '"@ + package_expr(
                path,
                system,
                attr,
            ) + "'"@
        } else {
            "nix build --print-build-logs --no-link --impure --expr '"@ + package_expr(
                path,
                system,
                attr,
            ) + "'"@
        }
    } else {
        "nix build --print-build-logs --no-link --impure --expr '"@ + package_expr(
            path,
            system,
            attr,
        ) + "' (+ --rebuild if cached)"@
    }
}

/// Makes the command that builds the package, as it is shown.
pub fn make_package_command(
    path: &str,
    system: &str,
    attr: &str,
    full_rebuild: bool,
    rebuilt: bool,
) -> (cmd: String)
    ensures
        cmd@ == package_command(path@, system@, attr@, full_rebuild, rebuilt),
{
    let expr = make_package_expr(path, system, attr);
    if full_rebuild {
        if rebuilt {
            "nix build --print-build-logs --no-link --rebuild --impure --expr '".to_string()
                .concat(expr.as_str())
                .concat("'")
        } else {
            "nix build --print-build-logs --no-link --impure --expr '".to_string()
                .concat(expr.as_str())
                .concat("'")
        }
    } else {
        "nix build --print-build-logs --no-link --impure --expr '".to_string()
            .concat(expr.as_str())
            .concat("' (+ --rebuild if cached)")
    }
}

/// What came of building the package.
#[derive(Debug)]
pub struct PackageBuild {
    pub code: Option<i32>,
    pub logs: String,
    /// The command that was run.
    pub cmd: String,
}

/// The log of the package after it was built again: with the cache, both logs.
pub open spec fn rebuilt_log(full_rebuild: bool, first: Seq<char>, second: Seq<char>) -> Seq<char> {
    if full_rebuild {
        second
    } else {
        first + "\n--- Running --rebuild to verify cached package ---\n"@ + second
    }
}

/// Puts together what came of building the package, and of building it again where
/// that was done. The second build counts.
pub fn package_build(
    path: &str,
    system: &str,
    attr: &str,
    full_rebuild: bool,
    code: Option<i32>,
    logs: String,
    again: Option<(Option<i32>, String)>,
) -> (build: PackageBuild)
    ensures
        build.cmd@ == package_command(path@, system@, attr@, full_rebuild, again is Some),
        match again {
            Some((code2, logs2)) => build.code == code2 && build.logs@ == rebuilt_log(
                full_rebuild,
                logs@,
                logs2@,
            ),
            None => build.code == code && build.logs@ == logs@,
        },
{
    let cmd = make_package_command(path, system, attr, full_rebuild, again.is_some());
    match again {
        Some((code2, logs2)) => {
            let all = if full_rebuild {
                logs2
            } else {
                logs.concat("\n--- Running --rebuild to verify cached package ---\n").concat(
                    logs2.as_str(),
                )
            };
            PackageBuild { code: code2, logs: all, cmd }
        },
        None => PackageBuild { code, logs, cmd },
    }
}

/// The command that builds the tests of the package, as it is shown.
pub open spec fn tests_command(path: Seq<char>, system: Seq<char>, attr: Seq<char>) -> Seq<char> {
    "nix-build --no-out-link --expr '"@ + tests_expr(path, system, attr) + "'"@
}

/// Puts together what came of building the tests of the package.
pub fn tests_build(
    path: &str,
    system: &str,
    attr: &str,
    code: Option<i32>,
    logs: String,
) -> (build: PackageBuild)
    ensures
        build.cmd@ == tests_command(path@, system@, attr@),
        build.code == code,
        build.logs@ == logs@,
{
    let expr = make_tests_expr(path, system, attr);
    let cmd = "nix-build --no-out-link --expr '".to_string().concat(expr.as_str()).concat("'");
    PackageBuild { code, logs, cmd }
}

// ---------------------------------------------------------------------------
// The message

/// How many lines of a log the message shows.
pub const MESSAGE_LOG_LINES: usize = 100;

/// A log as it is shown.
pub open spec fn log_text(logs: Seq<char>, title: Seq<char>) -> Seq<char> {
    if is_blank(logs) {
        "\n**"@ + title + "**: No build logs available. That is suspicious."@
    } else if lines(logs).len() <= MESSAGE_LOG_LINES {
        "\n<details><summary>"@ + title + " Logs</summary>\n\n```\n"@ + logs
            + "\n```\n</details>"@
    } else {
        "\n<details><summary>"@ + title + " Logs (Last 100 lines)</summary>\n\n```\n...\n"@
            + tail_lines(logs, MESSAGE_LOG_LINES as int) + "\n```\n</details>"@
    }
}

/// Shows a log.
pub fn format_log(logs: &str, title: &str) -> (out: String)
    ensures
        out@ == log_text(logs@, title@),
{
    if blank(logs) {
        "\n**".to_string().concat(title).concat(
            "**: No build logs available. That is suspicious.",
        )
    } else {
        let all = lines_of(logs);
        assert(texts(all@).len() == all@.len());
        if all.len() <= MESSAGE_LOG_LINES {
            "\n<details><summary>".to_string()
                .concat(title)
                .concat(" Logs</summary>\n\n```\n")
                .concat(logs)
                .concat("\n```\n</details>")
        } else {
            "\n<details><summary>".to_string()
                .concat(title)
                .concat(" Logs (Last 100 lines)</summary>\n\n```\n...\n")
                .concat(last_n_lines(logs, MESSAGE_LOG_LINES).as_str())
                .concat("\n```\n</details>")
        }
    }
}

/// An exit code as it is shown.
pub open spec fn status_text(code: Option<i32>) -> Seq<char> {
    match code {
        Some(c) => "Exit Code: "@ + signed_decimal(c as int),
        None => "Exit Code: None (Signal/Unknown)"@,
    }
}

/// Shows an exit code.
pub fn format_status(code: Option<i32>) -> (out: String)
    ensures
        out@ == status_text(code),
{
    match code {
        Some(c) => "Exit Code: ".to_string().concat(decimal_i32(c).as_str()),
        None => "Exit Code: None (Signal/Unknown)".to_string(),
    }
}

/// What the message says of a build: its command, its status and its log.
pub open spec fn build_text(
    cmd: Seq<char>,
    code: Option<i32>,
    logs: Seq<char>,
    title: Seq<char>,
) -> Seq<char> {
    "- **Command**: `"@ + cmd + "`\n- **Status**: "@ + status_text(code) + "\n"@ + log_text(
        logs,
        title,
    )
}

fn show_build(cmd: &str, code: Option<i32>, logs: &str, title: &str) -> (out: String)
    ensures
        out@ == build_text(cmd@, code, logs@, title@),
{
    "- **Command**: `".to_string()
        .concat(cmd)
        .concat("`\n- **Status**: ")
        .concat(format_status(code).as_str())
        .concat("\n")
        .concat(format_log(logs, title).as_str())
}

/// How many attributes were tried.
pub open spec fn tried(results: Seq<AttrBuildResult>) -> nat
    decreases results.len(),
{
    if results.len() == 0 {
        0
    } else {
        tried(results.drop_last()) + if results.last().exists {
            1nat
        } else {
            0nat
        }
    }
}

/// What the message says of the attributes that were tried.
pub open spec fn attr_sections(results: Seq<AttrBuildResult>) -> Seq<char>
    decreases results.len(),
{
    if results.len() == 0 {
        Seq::empty()
    } else {
        let r = results.last();
        let front = attr_sections(results.drop_last());
        if r.exists {
            front + "### Step "@ + decimal(tried(results)) + ": Build `."@ + r.name@ + "`\n\n"@
                + build_text(r.cmd@, r.code, r.logs@, r.name@ + " Build"@) + "\n\n"@
        } else {
            front
        }
    }
}

/// Whether a build that was tried went well.
pub open spec fn went_well(build: Option<PackageBuild>) -> bool {
    match build {
        Some(b) => b.code == Some(0i32),
        None => true,
    }
}

fn is_good(build: &Option<PackageBuild>) -> (yes: bool)
    ensures
        yes == went_well(*build),
{
    match build {
        Some(b) => match b.code {
            Some(c) => c == 0,
            None => false,
        },
        None => true,
    }
}

/// Whether the verification passed: every attribute is there and built or is not
/// there, and the package and its tests, where they were tried, were built.
pub open spec fn passed(
    results: Seq<AttrBuildResult>,
    package: Option<PackageBuild>,
    tests: Option<PackageBuild>,
) -> bool {
    all_ok(results) && went_well(package) && went_well(tests)
}

/// Tells whether the verification passed.
pub fn verification_passed(
    results: &Vec<AttrBuildResult>,
    package: &Option<PackageBuild>,
    tests: &Option<PackageBuild>,
) -> (yes: bool)
    ensures
        yes == passed(results@, *package, *tests),
{
    all_successful(results) && is_good(package) && is_good(tests)
}

/// What the message says of the package.
pub open spec fn package_section(
    results: Seq<AttrBuildResult>,
    package: Option<PackageBuild>,
) -> Seq<char> {
    let head = "### Step "@ + decimal(tried(results) + 1) + ": Build Package\n\n"@;
    match package {
        Some(p) => head + build_text(p.cmd@, p.code, p.logs@, "Package Build"@),
        None => match failed_attr_from(results, 0) {
            Some(name) => head + "_Skipped because "@ + name + " build failed._"@,
            None => ""@,
        },
    }
}

/// What the message says of the tests of the package: nothing where they were not
/// tried.
pub open spec fn tests_section(
    results: Seq<AttrBuildResult>,
    tests: Option<PackageBuild>,
) -> Seq<char> {
    match tests {
        Some(b) => "\n\n### Step "@ + decimal(tried(results) + 2) + ": Build Tests\n\n"@
            + build_text(b.cmd@, b.code, b.logs@, "Tests Build"@),
        None => ""@,
    }
}

/// The message on a pull request.
pub open spec fn message_text(
    pr_num: nat,
    attr: Seq<char>,
    system: Seq<char>,
    results: Seq<AttrBuildResult>,
    package: Option<PackageBuild>,
    tests: Option<PackageBuild>,
) -> Seq<char> {
    "## srcbot: "@ + (if passed(results, package, tests) {
        "Source verification passed"@
    } else {
        "Source verification FAILED"@
    }) + "\n\n- PR: #"@ + decimal(pr_num) + "\n- Attribute: `"@ + attr + "`\n- System: `"@ + system
        + "`\n\n"@ + attr_sections(results) + package_section(results, package) + tests_section(
        results,
        tests,
    )
}

/// Writes the message on a pull request.
pub fn verification_message(
    pr_num: u64,
    attr: &str,
    system: &str,
    results: &Vec<AttrBuildResult>,
    package: &Option<PackageBuild>,
    tests: &Option<PackageBuild>,
) -> (message: String)
    requires
        results@.len() + 2 <= usize::MAX,
    ensures
        message@ == message_text(pr_num as nat, attr@, system@, results@, *package, *tests),
{
    let n: usize = results.len();
    let mut sections = String::new();
    let mut count: usize = 0;
    assert(results@.take(0) == Seq::<AttrBuildResult>::empty());
    for i in 0..n
        invariant
            n == results@.len(),
            count <= i,
            count == tried(results@.take(i as int)),
            sections@ == attr_sections(results@.take(i as int)),
    {
        let r = &results[i];
        proof {
            assert(results@.take(i + 1).drop_last() == results@.take(i as int));
            assert(results@.take(i + 1).last() == *r);
        }
        if r.attempted() {
            count = count + 1;
            let title = r.name.clone().concat(" Build");
            let text = show_build(r.cmd.as_str(), r.code, r.logs.as_str(), title.as_str());
            sections.append("### Step ");
            sections.append(decimal_usize(count).as_str());
            sections.append(": Build `.");
            sections.append(r.name.as_str());
            sections.append("`\n\n");
            sections.append(text.as_str());
            sections.append("\n\n");
        }
    }
    assert(results@.take(n as int) == results@);
    let head = "### Step ".to_string()
        .concat(decimal_usize(count + 1).as_str())
        .concat(": Build Package\n\n");
    let package_part = match package {
        Some(p) => head.concat(
            show_build(p.cmd.as_str(), p.code, p.logs.as_str(), "Package Build").as_str(),
        ),
        None => match first_failed_attr(results) {
            Some(name) => head.concat("_Skipped because ").concat(name.as_str()).concat(
                " build failed._",
            ),
            None => "".to_string(),
        },
    };
    let tests_part = match tests {
        Some(b) => "\n\n### Step ".to_string()
            .concat(decimal_usize(count + 2).as_str())
            .concat(": Build Tests\n\n")
            .concat(show_build(b.cmd.as_str(), b.code, b.logs.as_str(), "Tests Build").as_str()),
        None => "".to_string(),
    };
    let status = if verification_passed(results, package, tests) {
        "Source verification passed"
    } else {
        "Source verification FAILED"
    };
    "## srcbot: ".to_string()
        .concat(status)
        .concat("\n\n- PR: #")
        .concat(decimal_u64(pr_num).as_str())
        .concat("\n- Attribute: `")
        .concat(attr)
        .concat("`\n- System: `")
        .concat(system)
        .concat("`\n\n")
        .concat(sections.as_str())
        .concat(package_part.as_str())
        .concat(tests_part.as_str())
}

// ---------------------------------------------------------------------------
// The whole way

/// How far the verification of a pull request is.
#[derive(Clone, Copy, PartialEq, Eq, Structural, Debug)]
pub enum SimpleStep {
    /// Build this intermediate attribute.
    BuildTier { tier: usize },
    /// Delete the package from the store.
    PrunePackage,
    /// Build the package.
    BuildPackage,
    /// Build the package again.
    RebuildPackage,
    /// Build the tests of the package, where it has some.
    BuildTests,
    /// Report.
    Report,
}

/// What comes after the intermediate attributes that were built: the next one; where
/// one failed, the report; else the package, which is deleted first if everything is
/// to be built anew.
pub open spec fn step_after_tiers(results: Seq<AttrBuildResult>, full_rebuild: bool) -> SimpleStep {
    match tier_after(results) {
        Some(i) => SimpleStep::BuildTier { tier: i as usize },
        None => if !all_ok(results) {
            SimpleStep::Report
        } else if full_rebuild {
            SimpleStep::PrunePackage
        } else {
            SimpleStep::BuildPackage
        },
    }
}

/// Decides what comes after the intermediate attributes that were built.
pub fn after_tiers(results: &Vec<AttrBuildResult>, full_rebuild: bool) -> (step: SimpleStep)
    ensures
        step == step_after_tiers(results@, full_rebuild),
{
    match next_tier(results) {
        Some(tier) => SimpleStep::BuildTier { tier },
        None => {
            if !all_successful(results) {
                SimpleStep::Report
            } else if full_rebuild {
                SimpleStep::PrunePackage
            } else {
                SimpleStep::BuildPackage
            }
        },
    }
}

/// What comes once the package was built for good: its tests, unless it failed or they
/// are to be skipped.
pub open spec fn step_after_built(code: Option<i32>, skip_tests: bool) -> SimpleStep {
    if code == Some(0i32) && !skip_tests {
        SimpleStep::BuildTests
    } else {
        SimpleStep::Report
    }
}

/// Decides what comes once the package was built for good.
pub fn after_rebuild(code: Option<i32>, skip_tests: bool) -> (step: SimpleStep)
    ensures
        step == step_after_built(code, skip_tests),
{
    let built = match code {
        Some(c) => c == 0,
        None => false,
    };
    if built && !skip_tests {
        SimpleStep::BuildTests
    } else {
        SimpleStep::Report
    }
}

/// Decides what comes after the package was built.
pub fn after_package(code: Option<i32>, logs: &str, skip_tests: bool) -> (step: SimpleStep)
    ensures
        step == (if wants_rebuild(code, logs@) {
            SimpleStep::RebuildPackage
        } else {
            step_after_built(code, skip_tests)
        }),
{
    if needs_rebuild(code, logs) {
        SimpleStep::RebuildPackage
    } else {
        after_rebuild(code, skip_tests)
    }
}

/// The package is built only after every intermediate attribute was gone through
/// without a failure.
pub proof fn law_package_needs_all_tiers(results: Seq<AttrBuildResult>, full_rebuild: bool)
    requires
        step_after_tiers(results, full_rebuild) == SimpleStep::BuildPackage || step_after_tiers(
            results,
            full_rebuild,
        ) == SimpleStep::PrunePackage,
    ensures
        all_ok(results),
        results.len() >= intermediates().len(),
{
}

/// A verification with a failed attribute does not pass, whatever the package and its
/// tests.
pub proof fn law_failed_attr_fails(
    results: Seq<AttrBuildResult>,
    package: Option<PackageBuild>,
    tests: Option<PackageBuild>,
)
    requires
        failed_attr_from(results, 0) is Some,
    ensures
        !passed(results, package, tests),
{
    law_failed_attr(results);
}

/// A verification whose tests failed does not pass.
pub proof fn law_failed_tests_fail(
    results: Seq<AttrBuildResult>,
    package: Option<PackageBuild>,
    tests: PackageBuild,
)
    requires
        tests.code != Some(0i32),
    ensures
        !passed(results, package, Some(tests)),
{
}

/// A verification whose package was tried and did not end with code zero does not pass.
pub proof fn law_failed_package_fails(
    results: Seq<AttrBuildResult>,
    package: PackageBuild,
    tests: Option<PackageBuild>,
)
    requires
        package.code != Some(0i32),
    ensures
        !passed(results, Some(package), tests),
{
}

/// A verification passes exactly where every attribute that is there was built with code
/// zero, and so were the package and its tests where they were tried.
pub proof fn law_passed_means_all_zero(
    results: Seq<AttrBuildResult>,
    package: Option<PackageBuild>,
    tests: Option<PackageBuild>,
)
    ensures
        passed(results, package, tests) <==> {
            &&& forall|i: int|
                0 <= i < results.len() && (#[trigger] results[i]).exists ==> results[i].code
                    == Some(0i32)
            &&& package matches Some(p) ==> p.code == Some(0i32)
            &&& tests matches Some(t) ==> t.code == Some(0i32)
        },
{
}

/// The attributes are built in order while none failed: exactly where each that is there
/// was built with code zero and not all were gone through is there a next one, and it is
/// the one in the place behind those.
pub proof fn law_next_attr(results: Seq<AttrBuildResult>)
    ensures
        tier_after(results) is Some <==> results.len() < 15 && forall|i: int|
            0 <= i < results.len() && (#[trigger] results[i]).exists ==> results[i].code == Some(
                0i32,
            ),
        tier_after(results) matches Some(i) ==> i == results.len(),
{
}

/// The attribute that is named as the one that failed is the first that is there and was
/// not built with code zero.
pub proof fn law_first_failed_attr(results: Seq<AttrBuildResult>, from: int)
    requires
        0 <= from <= results.len(),
    ensures
        match failed_attr_from(results, from) {
            Some(name) => exists|i: int|
                from <= i < results.len() && (#[trigger] results[i]).name@ == name
                    && results[i].exists && results[i].code != Some(0i32) && (forall|j: int|
                    from <= j < i ==> !(#[trigger] results[j]).exists || results[j].code == Some(
                        0i32,
                    )),
            None => forall|i: int|
                from <= i < results.len() ==> !(#[trigger] results[i]).exists || results[i].code
                    == Some(0i32),
        },
    decreases results.len() - from,
{
    if from < results.len() {
        law_first_failed_attr(results, from + 1);
        if !(results[from].exists && results[from].code != Some(0i32)) {
            match failed_attr_from(results, from + 1) {
                Some(name) => {
                    let i = choose|i: int|
                        from + 1 <= i < results.len() && (#[trigger] results[i]).name@ == name
                            && results[i].exists && results[i].code != Some(0i32) && (
                        forall|j: int|
                            from + 1 <= j < i ==> !(#[trigger] results[j]).exists
                                || results[j].code == Some(0i32));
                    assert(results[i].name@ == name);
                },
                None => {},
            }
        } else {
            assert(results[from].name@ == results[from].name@);
        }
    }
}

/// What comes after the attributes: the next one while there is one; the report where one
/// that is there was not built with code zero; else the package, deleted first exactly
/// where everything is to be built anew.
pub proof fn law_after_tiers(results: Seq<AttrBuildResult>, full_rebuild: bool)
    ensures
        ({
            let good = forall|i: int|
                0 <= i < results.len() && (#[trigger] results[i]).exists ==> results[i].code
                    == Some(0i32);
            let step = step_after_tiers(results, full_rebuild);
            &&& good && results.len() < 15 ==> step == (SimpleStep::BuildTier {
                tier: results.len() as usize,
            })
            &&& good && results.len() >= 15 && full_rebuild ==> step == SimpleStep::PrunePackage
            &&& good && results.len() >= 15 && !full_rebuild ==> step == SimpleStep::BuildPackage
            &&& !good ==> step == SimpleStep::Report
        }),
{
}

/// A package is built again exactly where it ended with code zero and its log tells that
/// it was fetched, or does not tell that it was built here: so a package that was not
/// built from source never counts as built on the first try, and one that failed is not
/// tried again.
pub proof fn law_fetched_package_is_built_again(code: Option<i32>, logs: Seq<char>)
    ensures
        code != Some(0i32) ==> !wants_rebuild(code, logs),
        code == Some(0i32) && contains(logs, "copying path"@) ==> wants_rebuild(code, logs),
        code == Some(0i32) && contains(logs, "will be fetched"@) ==> wants_rebuild(code, logs),
        code == Some(0i32) && !contains(logs, "building '/nix/store"@) ==> wants_rebuild(
            code,
            logs,
        ),
        contains(logs, "building '/nix/store"@) && !contains(logs, "copying path"@) && !contains(
            logs,
            "will be fetched"@,
        ) ==> !wants_rebuild(code, logs),
{
}

/// The tests are built exactly where the package ended with code zero for good and they
/// are not to be skipped; else it is reported.
pub proof fn law_tests_after_good_package(code: Option<i32>, skip_tests: bool)
    ensures
        code == Some(0i32) && !skip_tests ==> step_after_built(code, skip_tests)
            == SimpleStep::BuildTests,
        code != Some(0i32) || skip_tests ==> step_after_built(code, skip_tests)
            == SimpleStep::Report,
{
}

// ---------------------------------------------------------------------------
// What the message tells

/// The attributes that were tried are those that are there.
pub proof fn law_tried(results: Seq<AttrBuildResult>)
    ensures
        tried(results) == results.filter(|r: AttrBuildResult| r.exists).len(),
    decreases results.len(),
{
    reveal(Seq::filter);
    if results.len() > 0 {
        law_tried(results.drop_last());
    }
}

/// Of each attribute that was tried the message says its part, numbered in turn and one
/// behind the other; of one that is not there it says nothing.
pub proof fn law_attrs_in_turn(results: Seq<AttrBuildResult>, r: AttrBuildResult)
    ensures
        attr_sections(Seq::empty()).len() == 0,
        r.exists ==> attr_sections(results.push(r)) == attr_sections(results) + ("### Step "@
            + decimal(tried(results) + 1) + ": Build `."@ + r.name@ + "`\n\n"@ + build_text(
            r.cmd@,
            r.code,
            r.logs@,
            r.name@ + " Build"@,
        ) + "\n\n"@),
        !r.exists ==> attr_sections(results.push(r)) == attr_sections(results),
        tried(results.push(r)) == tried(results) + if r.exists {
            1nat
        } else {
            0nat
        },
{
    let all = results.push(r);
    assert(all.drop_last() == results);
    assert(all.last() == r);
    if r.exists {
        let text = build_text(r.cmd@, r.code, r.logs@, r.name@ + " Build"@);
        lemma_part_behind(attr_sections(results), decimal(tried(all)), r.name@, text);
    }
}

#[verifier::rlimit(40)]
proof fn lemma_part_behind(front: Seq<char>, number: Seq<char>, name: Seq<char>, text: Seq<char>)
    ensures
        front + "### Step "@ + number + ": Build `."@ + name + "`\n\n"@ + text + "\n\n"@ == front
            + ("### Step "@ + number + ": Build `."@ + name + "`\n\n"@ + text + "\n\n"@),
{
    assert(front + "### Step "@ + number + ": Build `."@ + name + "`\n\n"@ + text + "\n\n"@
        =~= front + ("### Step "@ + number + ": Build `."@ + name + "`\n\n"@ + text + "\n\n"@));
}

/// What the message says of one attribute that was tried, as the step with a number.
spec fn attr_part(r: AttrBuildResult, number: nat) -> Seq<char> {
    "### Step "@ + decimal(number) + ": Build `."@ + r.name@ + "`\n\n"@ + build_text(
        r.cmd@,
        r.code,
        r.logs@,
        r.name@ + " Build"@,
    ) + "\n\n"@
}

proof fn lemma_attr_in_sections(results: Seq<AttrBuildResult>, i: int)
    requires
        0 <= i < results.len(),
        results[i].exists,
    ensures
        contains(attr_sections(results), attr_part(results[i], tried(results.take(i + 1)))),
    decreases results.len(),
{
    let front = results.drop_last();
    let last = results.last();
    law_attrs_in_turn(front, last);
    assert(results == front.push(last));
    let nothing = Seq::<char>::empty();
    if i == results.len() - 1 {
        let part = attr_part(last, tried(front) + 1);
        assert(results.take(i + 1) == results);
        assert(attr_sections(results) == attr_sections(front) + part + nothing);
        lemma_contains_middle(attr_sections(front), part, nothing);
    } else {
        lemma_attr_in_sections(front, i);
        assert(front[i] == results[i]);
        assert(front.take(i + 1) == results.take(i + 1));
        if last.exists {
            let part = attr_part(last, tried(front) + 1);
            assert(attr_sections(results) == nothing + attr_sections(front) + part);
            lemma_contains_middle(nothing, attr_sections(front), part);
            lemma_contains_within(
                attr_sections(results),
                attr_sections(front),
                attr_part(results[i], tried(results.take(i + 1))),
            );
        }
    }
}

#[verifier::rlimit(40)]
proof fn lemma_four_parts(a: Seq<char>, b: Seq<char>, c: Seq<char>, d: Seq<char>)
    ensures
        starts_with(a + b + c + d, a),
        contains(a + b + c + d, b),
        contains(a + b + c + d, c),
        contains(a + b + c + d, d),
{
    let all = a + b + c + d;
    assert(all.subrange(0, a.len() as int) =~= a);
    assert(all =~= a + b + (c + d));
    lemma_contains_middle(a, b, c + d);
    lemma_contains_middle(a + b, c, d);
    assert(all =~= (a + b + c) + d + Seq::<char>::empty());
    lemma_contains_middle(a + b + c, d, Seq::empty());
}

/// The message begins with whether the verification passed, the number of the pull
/// request, the attribute and the system. It holds a part for each attribute that was
/// tried, then one for the package and one for its tests, and nothing else.
#[verifier::rlimit(40)]
pub proof fn law_message_tells(
    pr_num: nat,
    attr: Seq<char>,
    system: Seq<char>,
    results: Seq<AttrBuildResult>,
    package: Option<PackageBuild>,
    tests: Option<PackageBuild>,
)
    ensures
        ({
            let text = message_text(pr_num, attr, system, results, package, tests);
            let about = "\n\n- PR: #"@ + decimal(pr_num) + "\n- Attribute: `"@ + attr
                + "`\n- System: `"@ + system + "`\n\n"@;
            &&& passed(results, package, tests) ==> starts_with(
                text,
                "## srcbot: Source verification passed"@ + about,
            )
            &&& !passed(results, package, tests) ==> starts_with(
                text,
                "## srcbot: Source verification FAILED"@ + about,
            )
            &&& forall|i: int|
                0 <= i < results.len() && (#[trigger] results[i]).exists ==> contains(
                    text,
                    "### Step "@ + decimal(tried(results.take(i + 1))) + ": Build `."@
                        + results[i].name@ + "`\n\n"@ + build_text(
                        results[i].cmd@,
                        results[i].code,
                        results[i].logs@,
                        results[i].name@ + " Build"@,
                    ) + "\n\n"@,
                )
            &&& contains(text, package_section(results, package))
            &&& contains(text, tests_section(results, tests))
            &&& passed(results, package, tests) ==> text == "## srcbot: Source verification passed"@
                + about + attr_sections(results) + package_section(results, package)
                + tests_section(results, tests)
            &&& !passed(results, package, tests) ==> text
                == "## srcbot: Source verification FAILED"@ + about + attr_sections(results)
                + package_section(results, package) + tests_section(results, tests)
        }),
{
    let text = message_text(pr_num, attr, system, results, package, tests);
    let good = passed(results, package, tests);
    let about = "\n\n- PR: #"@ + decimal(pr_num) + "\n- Attribute: `"@ + attr
        + "`\n- System: `"@ + system + "`\n\n"@;
    lemma_message_head(good, decimal(pr_num), attr, system);
    let head = (if good {
        "## srcbot: Source verification passed"@
    } else {
        "## srcbot: Source verification FAILED"@
    }) + about;
    let sections = attr_sections(results);
    lemma_four_parts(
        head,
        sections,
        package_section(results, package),
        tests_section(results, tests),
    );
    assert forall|i: int| 0 <= i < results.len() && (#[trigger] results[i]).exists implies contains(
        text,
        "### Step "@ + decimal(tried(results.take(i + 1))) + ": Build `."@ + results[i].name@
            + "`\n\n"@ + build_text(
            results[i].cmd@,
            results[i].code,
            results[i].logs@,
            results[i].name@ + " Build"@,
        ) + "\n\n"@,
    ) by {
        lemma_attr_in_sections(results, i);
        lemma_contains_within(
            text,
            sections,
            attr_part(results[i], tried(results.take(i + 1))),
        );
    }
}

#[verifier::rlimit(40)]
proof fn lemma_message_head(good: bool, number: Seq<char>, attr: Seq<char>, system: Seq<char>)
    ensures
        "## srcbot: "@ + (if good {
            "Source verification passed"@
        } else {
            "Source verification FAILED"@
        }) + "\n\n- PR: #"@ + number + "\n- Attribute: `"@ + attr + "`\n- System: `"@ + system
            + "`\n\n"@ == (if good {
            "## srcbot: Source verification passed"@
        } else {
            "## srcbot: Source verification FAILED"@
        }) + ("\n\n- PR: #"@ + number + "\n- Attribute: `"@ + attr + "`\n- System: `"@ + system
            + "`\n\n"@),
{
    reveal_strlit("## srcbot: ");
    reveal_strlit("Source verification passed");
    reveal_strlit("Source verification FAILED");
    reveal_strlit("## srcbot: Source verification passed");
    reveal_strlit("## srcbot: Source verification FAILED");
    assert("## srcbot: Source verification passed"@ =~= "## srcbot: "@
        + "Source verification passed"@);
    assert("## srcbot: Source verification FAILED"@ =~= "## srcbot: "@
        + "Source verification FAILED"@);
    let status = if good {
        "Source verification passed"@
    } else {
        "Source verification FAILED"@
    };
    assert("## srcbot: "@ + status + "\n\n- PR: #"@ + number + "\n- Attribute: `"@ + attr
        + "`\n- System: `"@ + system + "`\n\n"@ =~= "## srcbot: "@ + status + ("\n\n- PR: #"@
        + number + "\n- Attribute: `"@ + attr + "`\n- System: `"@ + system + "`\n\n"@));
}

/// What the message says of the package: where it was tried, what came of it; where it
/// was not because an attribute failed, which one; else nothing. Of the tests it says
/// what came of them, where they were tried.
#[verifier::rlimit(40)]
pub proof fn law_package_part_tells(
    results: Seq<AttrBuildResult>,
    package: PackageBuild,
)
    ensures
        package_section(results, Some(package)) == "### Step "@ + decimal(tried(results) + 1)
            + ": Build Package\n\n"@ + build_text(
            package.cmd@,
            package.code,
            package.logs@,
            "Package Build"@,
        ),
        all_ok(results) ==> package_section(results, None).len() == 0,
        !all_ok(results) ==> (failed_attr_from(results, 0) matches Some(name) && contains(
            package_section(results, None),
            "_Skipped because "@ + name + " build failed._"@,
        )),
        tests_section(results, None).len() == 0,
        tests_section(results, Some(package)) == "\n\n### Step "@ + decimal(tried(results) + 2)
            + ": Build Tests\n\n"@ + build_text(
            package.cmd@,
            package.code,
            package.logs@,
            "Tests Build"@,
        ),
{
    reveal_strlit("");
    law_failed_attr(results);
    let head = "### Step "@ + decimal(tried(results) + 1) + ": Build Package\n\n"@;
    if !all_ok(results) {
        let name = failed_attr_from(results, 0)->0;
        let part = "_Skipped because "@ + name + " build failed._"@;
        assert(package_section(results, None) =~= head + part + Seq::<char>::empty());
        lemma_contains_middle(head, part, Seq::empty());
    }
}

/// What is said of a build tells its command, its exit code and its log.
pub proof fn law_build_part_tells(
    cmd: Seq<char>,
    code: Option<i32>,
    logs: Seq<char>,
    title: Seq<char>,
)
    ensures
        contains(build_text(cmd, code, logs, title), "- **Command**: `"@ + cmd + "`"@),
        contains(build_text(cmd, code, logs, title), status_text(code)),
        contains(build_text(cmd, code, logs, title), log_text(logs, title)),
        code matches Some(c) ==> status_text(code) == "Exit Code: "@ + signed_decimal(c as int),
        code is None ==> status_text(code) == "Exit Code: None (Signal/Unknown)"@,
{
    lemma_build_parts(cmd, status_text(code), log_text(logs, title));
}

#[verifier::rlimit(40)]
proof fn lemma_build_parts(cmd: Seq<char>, status: Seq<char>, log: Seq<char>)
    ensures
        ({
            let text = "- **Command**: `"@ + cmd + "`\n- **Status**: "@ + status + "\n"@ + log;
            &&& contains(text, "- **Command**: `"@ + cmd + "`"@)
            &&& contains(text, status)
            &&& contains(text, log)
        }),
{
    reveal_strlit("`\n- **Status**: ");
    reveal_strlit("`");
    reveal_strlit("\n- **Status**: ");
    assert("`\n- **Status**: "@ =~= "`"@ + "\n- **Status**: "@);
    let text = "- **Command**: `"@ + cmd + "`\n- **Status**: "@ + status + "\n"@ + log;
    let a = "- **Command**: `"@ + cmd + "`"@;
    let nothing = Seq::<char>::empty();
    let rest = "\n- **Status**: "@ + status + "\n"@ + log;
    assert(text =~= nothing + a + rest);
    lemma_contains_middle(nothing, a, rest);
    lemma_four_parts("- **Command**: `"@ + cmd + "`\n- **Status**: "@, status, "\n"@, log);
}

/// A log that is not blank is shown: whole where it has at most a hundred lines, else by
/// its last hundred. Of a blank one it is said that there is none.
#[verifier::rlimit(40)]
pub proof fn law_log_is_shown(logs: Seq<char>, title: Seq<char>)
    ensures
        is_blank(logs) ==> contains(log_text(logs, title), "No build logs available"@),
        !is_blank(logs) && lines(logs).len() <= 100 ==> contains(
            log_text(logs, title),
            "```\n"@ + logs + "\n```"@,
        ),
        !is_blank(logs) && lines(logs).len() > 100 ==> contains(
            log_text(logs, title),
            "```\n...\n"@ + tail_lines(logs, 100) + "\n```"@,
        ),
        contains(log_text(logs, title), title),
{
    let nothing = Seq::<char>::empty();
    if is_blank(logs) {
        let none = "No build logs available"@;
        reveal_strlit("**: No build logs available. That is suspicious.");
        reveal_strlit("**: ");
        reveal_strlit("No build logs available");
        reveal_strlit(". That is suspicious.");
        assert("**: No build logs available. That is suspicious."@ =~= "**: "@ + none
            + ". That is suspicious."@);
        lemma_four_parts("\n**"@ + title + "**: "@, none, ". That is suspicious."@, nothing);
        assert(log_text(logs, title) =~= "\n**"@ + title + "**: "@ + none
            + ". That is suspicious."@ + nothing);
        lemma_contains_middle(
            "\n**"@,
            title,
            "**: No build logs available. That is suspicious."@,
        );
    } else {
        reveal_strlit("\n```\n</details>");
        reveal_strlit("\n```");
        reveal_strlit("\n</details>");
        assert("\n```\n</details>"@ =~= "\n```"@ + "\n</details>"@);
        let open = "\n<details><summary>"@;
        if lines(logs).len() <= 100 {
            reveal_strlit(" Logs</summary>\n\n```\n");
            reveal_strlit(" Logs</summary>\n\n");
            reveal_strlit("```\n");
            assert(" Logs</summary>\n\n```\n"@ =~= " Logs</summary>\n\n"@ + "```\n"@);
            let mid = "```\n"@ + logs + "\n```"@;
            let front = open + title + " Logs</summary>\n\n"@;
            assert(log_text(logs, title) =~= front + mid + "\n</details>"@);
            lemma_contains_middle(front, mid, "\n</details>"@);
            let rest = " Logs</summary>\n\n"@ + mid + "\n</details>"@;
            assert(log_text(logs, title) =~= open + title + rest);
            lemma_contains_middle(open, title, rest);
        } else {
            let tail = tail_lines(logs, 100);
            reveal_strlit(" Logs (Last 100 lines)</summary>\n\n```\n...\n");
            reveal_strlit(" Logs (Last 100 lines)</summary>\n\n");
            reveal_strlit("```\n...\n");
            assert(" Logs (Last 100 lines)</summary>\n\n```\n...\n"@
                =~= " Logs (Last 100 lines)</summary>\n\n"@ + "```\n...\n"@);
            let mid = "```\n...\n"@ + tail + "\n```"@;
            let front = open + title + " Logs (Last 100 lines)</summary>\n\n"@;
            assert(log_text(logs, title) =~= front + mid + "\n</details>"@);
            lemma_contains_middle(front, mid, "\n</details>"@);
            let rest = " Logs (Last 100 lines)</summary>\n\n"@ + mid + "\n</details>"@;
            assert(log_text(logs, title) =~= open + title + rest);
            lemma_contains_middle(open, title, rest);
        }
    }
}

/// The attribute that a title is about is what stands before its first colon, without the
/// white space around it; a title without a colon tells none.
pub proof fn law_attr_in_title(head: Seq<char>, rest: Seq<char>)
    requires
        !head.contains(':'),
    ensures
        attr_in_title(head + ":"@ + rest) == Some(trimmed(head)),
        attr_in_title(head) is None,
{
    reveal_strlit(":");
    let sep = ":"@;
    assert(sep =~= seq![':']);
    if contains(head, sep) {
        let i = choose|i: int| crate::search::occurs_at(head, sep, i);
        assert(head.subrange(i, i + 1)[0] == ':');
        assert(head[i] == ':');
    }
    assert((head + sep).drop_last() == head);
    crate::search::law_before_first(head, sep, rest);
}

/// The log of a package that was built again is the log of the second build where
/// everything is built anew, else both logs in turn.
pub proof fn law_rebuilt_log(first: Seq<char>, second: Seq<char>)
    ensures
        rebuilt_log(true, first, second) == second,
        starts_with(rebuilt_log(false, first, second), first),
        crate::search::ends_with(rebuilt_log(false, first, second), second),
{
    let both = rebuilt_log(false, first, second);
    assert(both.subrange(0, first.len() as int) =~= first);
    assert(both.subrange(both.len() - second.len(), both.len() as int) =~= second);
}

/// The command as it is shown holds the expression that is built; it tells that the
/// package was built again where everything is built anew and that was done, and that it
/// may be where the cache is used.
pub proof fn law_package_command_tells(
    path: Seq<char>,
    system: Seq<char>,
    attr: Seq<char>,
    rebuilt: bool,
)
    ensures
        ({
            let expr = package_expr(path, system, attr);
            let start = "nix build --print-build-logs --no-link "@;
            let end = "--impure --expr '"@ + expr + "'"@;
            &&& package_command(path, system, attr, true, true) == start + "--rebuild "@ + end
            &&& package_command(path, system, attr, true, false) == start + end
            &&& package_command(path, system, attr, false, rebuilt) == start + end
                + " (+ --rebuild if cached)"@
        }),
{
    lemma_package_command_words(package_expr(path, system, attr));
}

#[verifier::rlimit(40)]
proof fn lemma_package_command_words(expr: Seq<char>)
    ensures
        ({
            let start = "nix build --print-build-logs --no-link "@;
            let end = "--impure --expr '"@ + expr + "'"@;
            &&& "nix build --print-build-logs --no-link --rebuild --impure --expr '"@ + expr + "'"@
                == start + "--rebuild "@ + end
            &&& "nix build --print-build-logs --no-link --impure --expr '"@ + expr + "'"@ == start
                + end
            &&& "nix build --print-build-logs --no-link --impure --expr '"@ + expr
                + "' (+ --rebuild if cached)"@ == start + end + " (+ --rebuild if cached)"@
        }),
{
    reveal_strlit("nix build --print-build-logs --no-link ");
    reveal_strlit("--rebuild ");
    reveal_strlit("--impure --expr '");
    reveal_strlit("nix build --print-build-logs --no-link --rebuild --impure --expr '");
    reveal_strlit("nix build --print-build-logs --no-link --impure --expr '");
    reveal_strlit("' (+ --rebuild if cached)");
    reveal_strlit("'");
    reveal_strlit(" (+ --rebuild if cached)");
    let start = "nix build --print-build-logs --no-link "@;
    let flag = "--impure --expr '"@;
    assert("nix build --print-build-logs --no-link --rebuild --impure --expr '"@ =~= start
        + "--rebuild "@ + flag);
    assert("nix build --print-build-logs --no-link --impure --expr '"@ =~= start + flag);
    assert("' (+ --rebuild if cached)"@ =~= "'"@ + " (+ --rebuild if cached)"@);
    let end = flag + expr + "'"@;
    assert(start + "--rebuild "@ + flag + expr + "'"@ =~= start + "--rebuild "@ + end);
    assert(start + flag + expr + "'"@ =~= start + end);
    assert(start + flag + expr + ("'"@ + " (+ --rebuild if cached)"@) =~= start + end
        + " (+ --rebuild if cached)"@);
}

/// The command that builds the tests, as it is shown, holds the expression of the tests.
pub proof fn law_tests_command_tells(path: Seq<char>, system: Seq<char>, attr: Seq<char>)
    ensures
        starts_with(tests_command(path, system, attr), "nix-build "@),
        contains(
            tests_command(path, system, attr),
            "'"@ + tests_expr(path, system, attr) + "'"@,
        ),
        contains(title_error(attr), "'"@ + attr + "'"@),
{
    lemma_quoted_in_words(tests_expr(path, system, attr), attr);
}

#[verifier::rlimit(40)]
proof fn lemma_quoted_in_words(expr: Seq<char>, title: Seq<char>)
    ensures
        starts_with("nix-build --no-out-link --expr '"@ + expr + "'"@, "nix-build "@),
        contains("nix-build --no-out-link --expr '"@ + expr + "'"@, "'"@ + expr + "'"@),
        contains(
            "Could not parse attribute from PR title '"@ + title
                + "'. Expected format 'attribute: description'. Please provide --attr manually."@,
            "'"@ + title + "'"@,
        ),
{
    reveal_strlit("nix-build --no-out-link --expr '");
    reveal_strlit("nix-build --no-out-link --expr ");
    reveal_strlit("nix-build ");
    reveal_strlit("'");
    let front = "nix-build --no-out-link --expr "@;
    let mid = "'"@ + expr + "'"@;
    assert("nix-build --no-out-link --expr '"@ =~= front + "'"@);
    let all = "nix-build --no-out-link --expr '"@ + expr + "'"@;
    assert(all =~= front + mid + Seq::<char>::empty());
    lemma_contains_middle(front, mid, Seq::empty());
    assert(all.subrange(0, "nix-build "@.len() as int) =~= "nix-build "@);
    reveal_strlit("Could not parse attribute from PR title '");
    reveal_strlit("Could not parse attribute from PR title ");
    reveal_strlit(
        "'. Expected format 'attribute: description'. Please provide --attr manually.",
    );
    reveal_strlit(
        ". Expected format 'attribute: description'. Please provide --attr manually.",
    );
    let a = "Could not parse attribute from PR title "@;
    let c = ". Expected format 'attribute: description'. Please provide --attr manually."@;
    assert("Could not parse attribute from PR title '"@ =~= a + "'"@);
    assert("'. Expected format 'attribute: description'. Please provide --attr manually."@
        =~= "'"@ + c);
    let b = "'"@ + title + "'"@;
    assert(a + "'"@ + title + ("'"@ + c) =~= a + b + c);
    lemma_contains_middle(a, b, c);
}

} // verus!
