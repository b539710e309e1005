//! The comment that sums up a full evaluation.

use vstd::prelude::*;

use crate::numbers::{decimal, decimal_u64, decimal_usize};
use crate::order::{
    law_sorted_in_order, lemma_sorted_members, lemma_strictly_sorted_unique, lemma_text_lt_total,
    places, sort_places, sorted_by, strictly_sorted, text_lt,
};
use crate::search::{
    contains, lemma_contains_middle, lemma_contains_within, occurs_at, split, split_str,
};
use crate::text::{join, join_all, list_contains, opt_str, same_text, texts};
use crate::trim::{
    attr_safe, attr_safe_name, byte_prefix, cuts_cleanly, is_space, law_trim_end_keeps,
    law_trim_takes_only_space, take_bytes, trim_end, trimmed_end,
};
use crate::types::{result_texts, FullEvalBuildResult, RemoteBuilderConfig, ResultText};

verus! {

/// The system that a result is for where it names none.
pub const LOCAL_SYSTEM: &'static str = "x86_64-linux";

// ---------------------------------------------------------------------------
// The command

/// A command with each flag on a line of its own.
pub open spec fn formatted_command(cmd: Seq<char>) -> Seq<char> {
    join(split(cmd, " --"@), " \\\n  --"@)
}

/// Puts each flag of a command on a line of its own.
pub fn format_cli_command(cmd: &str) -> (out: String)
    ensures
        out@ == formatted_command(cmd@),
{
    proof {
        reveal_strlit(" --");
    }
    let parts = split_str(cmd, " --");
    join_all(&parts, " \\\n  --")
}

// ---------------------------------------------------------------------------
// Links

/// The name of the log of a step.
pub open spec fn log_name(system: Seq<char>, attr: Seq<char>, step: Seq<char>) -> Seq<char> {
    system + "."@ + attr_safe(attr) + "."@ + step + ".log"@
}

/// The name of the log of a step on the base branch.
pub open spec fn base_log_name(
    system: Seq<char>,
    attr: Seq<char>,
    step: Seq<char>,
    commit: Seq<char>,
) -> Seq<char> {
    system + "."@ + attr_safe(attr) + "."@ + step + ".base-"@ + commit + ".log"@
}

/// Makes the name of the log of a step.
pub fn make_log_name(system: &str, attr: &str, step: &str) -> (out: String)
    ensures
        out@ == log_name(system@, attr@, step@),
{
    system.to_string()
        .concat(".")
        .concat(attr_safe_name(attr).as_str())
        .concat(".")
        .concat(step)
        .concat(".log")
}

/// Makes the name of the log of a step on the base branch.
pub fn make_base_log_name(system: &str, attr: &str, step: &str, commit: &str) -> (out: String)
    ensures
        out@ == base_log_name(system@, attr@, step@, commit@),
{
    system.to_string()
        .concat(".")
        .concat(attr_safe_name(attr).as_str())
        .concat(".")
        .concat(step)
        .concat(".base-")
        .concat(commit)
        .concat(".log")
}

/// Where a file of the logs is found.
pub open spec fn url_under(base: Seq<char>, name: Seq<char>) -> Seq<char> {
    base + "/"@ + name
}

/// The address of the log of a step.
pub fn build_log_url(log_url_base: &str, system: &str, attr: &str, step: &str) -> (url: String)
    ensures
        url@ == url_under(log_url_base@, log_name(system@, attr@, step@)),
{
    log_url_base.to_string().concat("/").concat(make_log_name(system, attr, step).as_str())
}

/// The address of the log of a step on the base branch.
pub fn build_base_log_url(
    log_url_base: &str,
    system: &str,
    attr: &str,
    step: &str,
    base_commit_short: &str,
) -> (url: String)
    ensures
        url@ == url_under(
            log_url_base@,
            base_log_name(system@, attr@, step@, base_commit_short@),
        ),
{
    log_url_base.to_string().concat("/").concat(
        make_base_log_name(system, attr, step, base_commit_short).as_str(),
    )
}

// ---------------------------------------------------------------------------
// Steps

/// The system that a result is for.
pub open spec fn system_of(r: ResultText) -> Seq<char> {
    if r.system.len() == 0 {
        LOCAL_SYSTEM@
    } else {
        r.system
    }
}

/// Reads the system that a result is for.
pub fn result_system(r: &FullEvalBuildResult) -> (system: String)
    ensures
        system@ == system_of(r@),
{
    if r.system.as_str().is_empty() {
        LOCAL_SYSTEM.to_string()
    } else {
        r.system.clone()
    }
}

/// The steps of a result with their outcomes: its intermediates, then the package.
pub open spec fn steps_of(r: ResultText) -> Seq<(Seq<char>, bool)> {
    r.steps.map_values(|s: (Seq<char>, bool, Seq<char>)| (s.0, s.1)).push(
        ("package"@, r.success),
    )
}

/// How a step is shown.
pub enum StepStyle {
    /// A link to the log and the outcome; where it failed, links to the logs on both
    /// sides.
    BothSides,
    /// A link to the log and the outcome.
    Outcome,
    /// A link to the log.
    Link,
    /// The name alone.
    Plain,
}

/// The style of a row: with no address there are no links; failures show outcomes,
/// and both sides where the package is there on the base branch and its commit is
/// known.
pub open spec fn step_style(
    has_base: bool,
    has_commit: bool,
    labelled: bool,
    on_base: bool,
) -> StepStyle {
    if !has_base {
        StepStyle::Plain
    } else if !labelled {
        StepStyle::Link
    } else if has_commit && on_base {
        StepStyle::BothSides
    } else {
        StepStyle::Outcome
    }
}

/// One step as it is shown.
pub open spec fn step_text(
    r: ResultText,
    base: Seq<char>,
    commit: Seq<char>,
    style: StepStyle,
    step: (Seq<char>, bool),
) -> Seq<char> {
    let url = url_under(base, log_name(system_of(r), r.attr, step.0));
    let before = url_under(base, base_log_name(system_of(r), r.attr, step.0, commit));
    match style {
        StepStyle::BothSides => if step.1 {
            "["@ + step.0 + "]("@ + url + ") (passed)"@
        } else {
            step.0 + " (failed): [before]("@ + before + "), [after]("@ + url + ")"@
        },
        StepStyle::Outcome => if step.1 {
            "["@ + step.0 + "]("@ + url + ") (passed)"@
        } else {
            "["@ + step.0 + "]("@ + url + ") (failed)"@
        },
        StepStyle::Link => "["@ + step.0 + "]("@ + url + ")"@,
        StepStyle::Plain => step.0,
    }
}

fn show_step(
    r: &FullEvalBuildResult,
    base: &str,
    commit: &str,
    style: &StepStyle,
    name: &str,
    ok: bool,
) -> (out: String)
    ensures
        out@ == step_text(r@, base@, commit@, *style, (name@, ok)),
{
    let system = result_system(r);
    let url = build_log_url(base, system.as_str(), r.attr.as_str(), name);
    match style {
        StepStyle::BothSides => {
            if ok {
                "[".to_string().concat(name).concat("](").concat(url.as_str()).concat(") (passed)")
            } else {
                let before = build_base_log_url(
                    base,
                    system.as_str(),
                    r.attr.as_str(),
                    name,
                    commit,
                );
                name.to_string()
                    .concat(" (failed): [before](")
                    .concat(before.as_str())
                    .concat("), [after](")
                    .concat(url.as_str())
                    .concat(")")
            }
        },
        StepStyle::Outcome => {
            if ok {
                "[".to_string().concat(name).concat("](").concat(url.as_str()).concat(") (passed)")
            } else {
                "[".to_string().concat(name).concat("](").concat(url.as_str()).concat(") (failed)")
            }
        },
        StepStyle::Link => "[".to_string()
            .concat(name)
            .concat("](")
            .concat(url.as_str())
            .concat(")"),
        StepStyle::Plain => name.to_string(),
    }
}

/// What stands between two steps.
pub open spec fn step_separator(style: StepStyle) -> Seq<char> {
    match style {
        StepStyle::BothSides => " · "@,
        StepStyle::Outcome => " · "@,
        StepStyle::Link => ", "@,
        StepStyle::Plain => ", "@,
    }
}

/// Where the logs are, and the commit of the base branch.
pub struct LinkText {
    pub base: Option<Seq<char>>,
    pub commit: Option<Seq<char>>,
}

/// A text that may be missing, with the empty text in its place.
pub open spec fn or_empty(s: Option<Seq<char>>) -> Seq<char> {
    match s {
        Some(t) => t,
        None => Seq::empty(),
    }
}

/// The style of the steps of a result.
pub open spec fn style_of(r: ResultText, links: LinkText, labelled: bool) -> StepStyle {
    step_style(links.base is Some, links.commit is Some, labelled, r.on_base)
}

/// The steps of a result as they are shown.
pub open spec fn steps_text(r: ResultText, links: LinkText, labelled: bool) -> Seq<char> {
    let style = style_of(r, links, labelled);
    join(
        steps_of(r).map_values(
            |s: (Seq<char>, bool)|
                step_text(r, or_empty(links.base), or_empty(links.commit), style, s),
        ),
        step_separator(style),
    )
}

/// The links that a pair of optional strings stands for.
pub open spec fn link_text(base: Option<&str>, commit: Option<&str>) -> LinkText {
    LinkText { base: opt_str(base), commit: opt_str(commit) }
}

/// Shows the steps of a result, with links where there is an address.
pub fn build_steps_with_links(
    result: &FullEvalBuildResult,
    log_url_base: Option<&str>,
    base_commit_short: Option<&str>,
    include_before_after: bool,
) -> (out: String)
    ensures
        out@ == steps_text(
            result@,
            link_text(log_url_base, base_commit_short),
            include_before_after,
        ),
{
    let ghost links = link_text(log_url_base, base_commit_short);
    let style = if log_url_base.is_none() {
        StepStyle::Plain
    } else if !include_before_after {
        StepStyle::Link
    } else if base_commit_short.is_some() && result.exists_on_base {
        StepStyle::BothSides
    } else {
        StepStyle::Outcome
    };
    let base = match log_url_base {
        Some(b) => b,
        None => "",
    };
    let commit = match base_commit_short {
        Some(c) => c,
        None => "",
    };
    proof {
        reveal_strlit("");
        assert(base@ == or_empty(links.base));
        assert(commit@ == or_empty(links.commit));
    }
    let ghost show = |s: (Seq<char>, bool)|
        step_text(result@, or_empty(links.base), or_empty(links.commit), style, s);
    let ghost steps = steps_of(result@);
    let n: usize = result.intermediate_results.len();
    let mut parts: Vec<String> = Vec::new();
    for i in 0..n
        invariant
            n == result.intermediate_results@.len(),
            steps == steps_of(result@),
            base@ == or_empty(links.base),
            commit@ == or_empty(links.commit),
            show == (|s: (Seq<char>, bool)|
                step_text(result@, or_empty(links.base), or_empty(links.commit), style, s)),
            texts(parts@) == steps.take(i as int).map_values(show),
    {
        let step = &result.intermediate_results[i];
        assert(steps[i as int] == (step.0@, step.1));
        let ghost before = texts(parts@);
        let text = show_step(result, base, commit, &style, step.0.as_str(), step.1);
        assert(text@ == show(steps[i as int]));
        parts.push(text);
        assert(texts(parts@) == before.push(show(steps[i as int])));
        assert(steps.take(i + 1).map_values(show) == before.push(show(steps[i as int])));
    }
    assert(steps[n as int] == ("package"@, result.package_success));
    let ghost before = texts(parts@);
    let text = show_step(result, base, commit, &style, "package", result.package_success);
    assert(text@ == show(steps[n as int]));
    parts.push(text);
    assert(texts(parts@) == before.push(show(steps[n as int])));
    assert(steps.map_values(show) == before.push(show(steps[n as int])));
    let separator = match style {
        StepStyle::BothSides => " · ",
        StepStyle::Outcome => " · ",
        StepStyle::Link => ", ",
        StepStyle::Plain => ", ",
    };
    join_all(&parts, separator)
}

// ---------------------------------------------------------------------------
// Counting

/// What can be counted among results.
#[derive(Clone, Copy)]
pub enum Tally {
    Passed,
    Failed,
    PreExisting,
    NonDeterministic,
}

/// Whether a result counts.
pub open spec fn counts(t: Tally, r: ResultText) -> bool {
    match t {
        Tally::Passed => r.success,
        Tally::Failed => !r.success,
        Tally::PreExisting => !r.success && r.false_positive,
        Tally::NonDeterministic => r.non_deterministic,
    }
}

/// How many results count.
pub open spec fn tally(t: Tally, results: Seq<ResultText>) -> nat {
    results.filter(|r: ResultText| counts(t, r)).len()
}

fn result_counts(t: Tally, r: &FullEvalBuildResult) -> (yes: bool)
    ensures
        yes == counts(t, r@),
{
    match t {
        Tally::Passed => r.package_success,
        Tally::Failed => !r.package_success,
        Tally::PreExisting => !r.package_success && r.is_false_positive,
        Tally::NonDeterministic => r.is_non_deterministic,
    }
}

/// Counts results.
pub fn count_results(t: Tally, results: &[FullEvalBuildResult]) -> (n: usize)
    ensures
        n == tally(t, result_texts(results@)),
{
    let ghost all = result_texts(results@);
    let mut n: usize = 0;
    proof {
        reveal(Seq::filter);
    }
    let total: usize = results.len();
    for i in 0..total
        invariant
            total == results@.len(),
            all == result_texts(results@),
            n <= i,
            n == tally(t, all.take(i as int)),
    {
        proof {
            reveal(Seq::filter);
            let next = all.take(i + 1);
            assert(next.drop_last() == all.take(i as int));
            assert(next.last() == results@[i as int]@);
        }
        if result_counts(t, &results[i]) {
            n = n + 1;
        }
    }
    assert(all.take(total as int) == all);
    n
}

/// Every result passed or failed, and no more failures are there before than there
/// are failures.
pub proof fn law_tallies_add_up(results: Seq<ResultText>)
    ensures
        tally(Tally::Passed, results) + tally(Tally::Failed, results) == results.len(),
        tally(Tally::PreExisting, results) <= tally(Tally::Failed, results),
        tally(Tally::NonDeterministic, results) <= results.len(),
    decreases results.len(),
{
    reveal(Seq::filter);
    if results.len() > 0 {
        law_tallies_add_up(results.drop_last());
    }
}

// ---------------------------------------------------------------------------
// Systems

/// The systems of a list of results, in the order in which they first occur.
pub open spec fn systems_seen(results: Seq<ResultText>) -> Seq<Seq<char>>
    decreases results.len(),
{
    if results.len() == 0 {
        Seq::empty()
    } else {
        let seen = systems_seen(results.drop_last());
        let system = system_of(results.last());
        if seen.contains(system) {
            seen
        } else {
            seen.push(system)
        }
    }
}

/// What a system is sorted by: the local one comes first.
pub open spec fn system_key(system: Seq<char>) -> Seq<char> {
    if system == LOCAL_SYSTEM@ {
        Seq::empty()
    } else {
        system
    }
}

/// The sort keys of a list of systems.
pub open spec fn system_keys(systems: Seq<Seq<char>>) -> Seq<Seq<char>> {
    systems.map_values(|s: Seq<char>| system_key(s))
}

/// The first `n` places.
pub open spec fn first_places(n: nat) -> Seq<int> {
    Seq::new(n, |i: int| i)
}

/// The systems of a list of results: the local one first, the others by name.
pub open spec fn systems_in_order(results: Seq<ResultText>) -> Seq<Seq<char>> {
    let seen = systems_seen(results);
    sorted_by(system_keys(seen), first_places(seen.len())).map_values(|i: int| seen[i])
}

/// Lists the systems of a list of results: the local one first, the others by name.
pub fn list_systems(results: &[FullEvalBuildResult]) -> (systems: Vec<String>)
    ensures
        texts(systems@) == systems_in_order(result_texts(results@)),
{
    let ghost all = result_texts(results@);
    let total: usize = results.len();
    let mut seen: Vec<String> = Vec::new();
    assert(texts(seen@) == systems_seen(all.take(0)));
    for i in 0..total
        invariant
            total == results@.len(),
            all == result_texts(results@),
            texts(seen@) == systems_seen(all.take(i as int)),
    {
        proof {
            let next = all.take(i + 1);
            assert(next.drop_last() == all.take(i as int));
            assert(next.last() == results@[i as int]@);
        }
        let system = result_system(&results[i]);
        let ghost before = texts(seen@);
        if !list_contains(&seen, system.as_str()) {
            let ghost name = system@;
            seen.push(system);
            assert(texts(seen@) == before.push(name));
        }
    }
    assert(all.take(total as int) == all);
    let ghost names = texts(seen@);
    let n: usize = seen.len();
    let mut keys: Vec<String> = Vec::new();
    let mut picks: Vec<usize> = Vec::new();
    for i in 0..n
        invariant
            n == seen@.len(),
            names == texts(seen@),
            keys@.len() == i,
            texts(keys@) == system_keys(names).take(i as int),
            places(picks@) == first_places(i as nat),
            picks@.len() == i,
            forall|j: int| 0 <= j < i ==> #[trigger] picks@[j] == j,
    {
        let key = if same_text(seen[i].as_str(), LOCAL_SYSTEM) {
            String::new()
        } else {
            seen[i].clone()
        };
        let ghost before = texts(keys@);
        assert(key@ == system_keys(names)[i as int]);
        keys.push(key);
        picks.push(i);
        assert(texts(keys@) == before.push(system_keys(names)[i as int]));
        assert(system_keys(names).take(i + 1) == before.push(system_keys(names)[i as int]));
    }
    assert(system_keys(names).take(n as int) == system_keys(names));
    let order = sort_places(&keys, &picks);
    let ghost sorted = sorted_by(system_keys(names), first_places(n as nat));
    proof {
        lemma_sorted_members(system_keys(names), first_places(n as nat));
        assert forall|j: int| 0 <= j < order@.len() implies #[trigger] order@[j] < n by {
            assert(sorted[j] == order@[j] as int);
            assert(sorted.contains(sorted[j]));
            assert(first_places(n as nat).contains(sorted[j]));
        }
    }
    let m: usize = order.len();
    let mut systems: Vec<String> = Vec::new();
    let ghost result = systems_in_order(all);
    for i in 0..m
        invariant
            m == order@.len(),
            n == seen@.len(),
            names == texts(seen@),
            names == systems_seen(all),
            sorted == places(order@),
            result == sorted.map_values(|i: int| names[i]),
            forall|j: int| 0 <= j < order@.len() ==> #[trigger] order@[j] < n,
            texts(systems@) == result.take(i as int),
    {
        let ghost before = texts(systems@);
        let name = seen[order[i]].clone();
        assert(name@ == result[i as int]) by {
            assert(sorted[i as int] == order@[i as int] as int);
        }
        systems.push(name);
        assert(texts(systems@) == before.push(result[i as int]));
        assert(result.take(i + 1) == before.push(result[i as int]));
    }
    assert(result.take(m as int) == result);
    systems
}

// ---------------------------------------------------------------------------
// Sections

/// The sections of the comment.
#[derive(Clone, Copy)]
pub enum Section {
    /// Failures that the pull request brought.
    Introduced,
    /// Failures that are there on the base branch too.
    PreExisting,
    /// Packages that built.
    Passed,
}

/// Whether a result stands in a section.
pub open spec fn in_section(section: Section, r: ResultText) -> bool {
    match section {
        Section::Introduced => !r.success && !r.false_positive,
        Section::PreExisting => !r.success && r.false_positive,
        Section::Passed => r.success,
    }
}

fn is_in_section(section: Section, r: &FullEvalBuildResult) -> (yes: bool)
    ensures
        yes == in_section(section, r@),
{
    match section {
        Section::Introduced => !r.package_success && !r.is_false_positive,
        Section::PreExisting => !r.package_success && r.is_false_positive,
        Section::Passed => r.package_success,
    }
}

/// The places among the first `n` results that stand in a section of a system.
pub open spec fn picks_before(
    results: Seq<ResultText>,
    system: Seq<char>,
    section: Section,
    n: int,
) -> Seq<int>
    decreases n,
{
    if n <= 0 {
        Seq::empty()
    } else {
        let front = picks_before(results, system, section, n - 1);
        if system_of(results[n - 1]) == system && in_section(section, results[n - 1]) {
            front.push(n - 1)
        } else {
            front
        }
    }
}

/// The attribute paths of a list of results.
pub open spec fn attrs_of(results: Seq<ResultText>) -> Seq<Seq<char>> {
    results.map_values(|r: ResultText| r.attr)
}

/// The places of the results that stand in a section of a system, by attribute path.
pub open spec fn section_places(
    results: Seq<ResultText>,
    system: Seq<char>,
    section: Section,
) -> Seq<int> {
    sorted_by(
        attrs_of(results),
        picks_before(results, system, section, results.len() as int),
    )
}

fn list_section(
    results: &[FullEvalBuildResult],
    attrs: &Vec<String>,
    system: &str,
    section: Section,
) -> (order: Vec<usize>)
    requires
        texts(attrs@) == attrs_of(result_texts(results@)),
    ensures
        places(order@) == section_places(result_texts(results@), system@, section),
        forall|j: int| 0 <= j < order@.len() ==> #[trigger] order@[j] < results@.len(),
{
    let ghost all = result_texts(results@);
    let total: usize = results.len();
    let mut picks: Vec<usize> = Vec::new();
    assert(places(picks@) == picks_before(all, system@, section, 0));
    for i in 0..total
        invariant
            total == results@.len(),
            all == result_texts(results@),
            places(picks@) == picks_before(all, system@, section, i as int),
            forall|j: int| 0 <= j < picks@.len() ==> #[trigger] picks@[j] < i,
    {
        assert(all[i as int] == results@[i as int]@);
        let ghost before = places(picks@);
        let here = result_system(&results[i]);
        if same_text(here.as_str(), system) && is_in_section(section, &results[i]) {
            picks.push(i);
            assert(places(picks@) == before.push(i as int));
        }
    }
    assert(texts(attrs@).len() == all.len());
    let order = sort_places(attrs, &picks);
    proof {
        lemma_sorted_members(attrs_of(all), places(picks@));
        let sorted = places(order@);
        assert forall|j: int| 0 <= j < order@.len() implies #[trigger] order@[j] < total by {
            assert(sorted[j] == order@[j] as int);
            assert(sorted.contains(sorted[j]));
            assert(places(picks@).contains(sorted[j]));
            let k = choose|k: int| 0 <= k < places(picks@).len() && places(picks@)[k] == sorted[j];
            assert(picks@[k] < total);
        }
    }
    order
}

/// The mark behind the name of a package in a section.
pub open spec fn row_mark(section: Section, r: ResultText) -> Seq<char> {
    if section is Passed && r.non_deterministic {
        " (non-deterministic)"@
    } else {
        ""@
    }
}

/// One row of a table.
pub open spec fn row_text(section: Section, r: ResultText, links: LinkText) -> Seq<char> {
    "| "@ + r.attr + row_mark(section, r) + " | "@ + steps_text(
        r,
        links,
        !(section is Passed),
    ) + " |\n"@
}

/// The rows of a table.
pub open spec fn rows_text(
    section: Section,
    results: Seq<ResultText>,
    order: Seq<int>,
    links: LinkText,
) -> Seq<char>
    decreases order.len(),
{
    if order.len() == 0 {
        Seq::empty()
    } else {
        rows_text(section, results, order.drop_last(), links) + row_text(
            section,
            results[order.last()],
            links,
        )
    }
}

fn show_row(
    section: Section,
    r: &FullEvalBuildResult,
    log_url_base: Option<&str>,
    base_commit_short: Option<&str>,
) -> (out: String)
    ensures
        out@ == row_text(section, r@, link_text(log_url_base, base_commit_short)),
{
    let labelled = match section {
        Section::Passed => false,
        _ => true,
    };
    let steps = build_steps_with_links(r, log_url_base, base_commit_short, labelled);
    let mark = if !labelled && r.is_non_deterministic {
        " (non-deterministic)"
    } else {
        ""
    };
    "| ".to_string()
        .concat(r.attr.as_str())
        .concat(mark)
        .concat(" | ")
        .concat(steps.as_str())
        .concat(" |\n")
}

fn show_rows(
    section: Section,
    results: &[FullEvalBuildResult],
    order: &Vec<usize>,
    log_url_base: Option<&str>,
    base_commit_short: Option<&str>,
) -> (out: String)
    requires
        forall|j: int| 0 <= j < order@.len() ==> #[trigger] order@[j] < results@.len(),
    ensures
        out@ == rows_text(
            section,
            result_texts(results@),
            places(order@),
            link_text(log_url_base, base_commit_short),
        ),
{
    let ghost all = result_texts(results@);
    let ghost links = link_text(log_url_base, base_commit_short);
    let ghost line = places(order@);
    let n: usize = order.len();
    let mut out = String::new();
    assert(line.take(0) == Seq::<int>::empty());
    for i in 0..n
        invariant
            n == order@.len(),
            all == result_texts(results@),
            links == link_text(log_url_base, base_commit_short),
            line == places(order@),
            forall|j: int| 0 <= j < order@.len() ==> #[trigger] order@[j] < results@.len(),
            out@ == rows_text(section, all, line.take(i as int), links),
    {
        let k: usize = order[i];
        let row = show_row(section, &results[k], log_url_base, base_commit_short);
        proof {
            assert(line.take(i + 1).drop_last() == line.take(i as int));
            assert(line.take(i + 1).last() == k as int);
            assert(all[k as int] == results@[k as int]@);
        }
        out.append(row.as_str());
    }
    assert(line.take(n as int) == line);
    out
}

/// The commit as it is shown: its first eight bytes.
pub open spec fn short_commit(commit: Seq<char>) -> Seq<char> {
    byte_prefix(commit, 8)
}

/// What stands above the table of a section with `n` rows.
pub open spec fn section_head(section: Section, n: nat, base_commit: Option<Seq<char>>) -> Seq<
    char,
> {
    match section {
        Section::Introduced => "<details>\n<summary>Failed Packages (introduced by this PR) - "@
            + decimal(n)
            + " packages</summary>\n\n| Package | Steps |\n|---------|-------|\n"@,
        Section::PreExisting =>
            "<details>\n<summary>Pre-existing Failures (false positives) - "@ + decimal(n)
                + " packages</summary>\n\n"@ + (match base_commit {
                Some(commit) => "These packages also fail on the base branch (`"@ + short_commit(
                    commit,
                ) + "`).\n\n"@,
                None => "These packages also fail on the base branch.\n\n"@,
            }) + "| Package | Steps |\n|---------|-------|\n"@,
        Section::Passed => "<details>\n<summary>"@ + decimal(n)
            + " packages passed</summary>\n\n| Package | Steps Built |\n|---------|-------------|\n"@,
    }
}

/// A section of a system: nothing where no result stands in it.
pub open spec fn section_text(
    section: Section,
    results: Seq<ResultText>,
    system: Seq<char>,
    links: LinkText,
    base_commit: Option<Seq<char>>,
) -> Seq<char> {
    let order = section_places(results, system, section);
    if order.len() == 0 {
        ""@
    } else {
        section_head(section, order.len(), base_commit) + rows_text(section, results, order, links)
            + "\n</details>\n\n"@
    }
}

fn show_section_head(section: Section, n: usize, base_commit: Option<&str>) -> (out: String)
    requires
        base_commit matches Some(c) ==> cuts_cleanly(c@, 8),
    ensures
        out@ == section_head(section, n as nat, opt_str(base_commit)),
{
    match section {
        Section::Introduced =>
            "<details>\n<summary>Failed Packages (introduced by this PR) - ".to_string()
            .concat(decimal_usize(n).as_str())
            .concat(" packages</summary>\n\n| Package | Steps |\n|---------|-------|\n"),
        Section::PreExisting => {
            let note = match base_commit {
                Some(commit) => "These packages also fail on the base branch (`".to_string()
                    .concat(take_bytes(commit, 8).as_str())
                    .concat("`).\n\n"),
                None => "These packages also fail on the base branch.\n\n".to_string(),
            };
            "<details>\n<summary>Pre-existing Failures (false positives) - ".to_string()
                .concat(decimal_usize(n).as_str())
                .concat(" packages</summary>\n\n")
                .concat(note.as_str())
                .concat("| Package | Steps |\n|---------|-------|\n")
        },
        Section::Passed => "<details>\n<summary>".to_string()
            .concat(decimal_usize(n).as_str())
            .concat(
            " packages passed</summary>\n\n| Package | Steps Built |\n|---------|-------------|\n",
        ),
    }
}

fn show_section(
    section: Section,
    results: &[FullEvalBuildResult],
    attrs: &Vec<String>,
    system: &str,
    log_url_base: Option<&str>,
    base_commit: Option<&str>,
    base_commit_short: Option<&str>,
) -> (out: String)
    requires
        texts(attrs@) == attrs_of(result_texts(results@)),
        base_commit matches Some(c) ==> cuts_cleanly(c@, 8),
    ensures
        out@ == section_text(
            section,
            result_texts(results@),
            system@,
            link_text(log_url_base, base_commit_short),
            opt_str(base_commit),
        ),
{
    let order = list_section(results, attrs, system, section);
    assert(places(order@).len() == order@.len());
    if order.len() == 0 {
        "".to_string()
    } else {
        let head = show_section_head(section, order.len(), base_commit);
        let rows = show_rows(section, results, &order, log_url_base, base_commit_short);
        head.concat(rows.as_str()).concat("\n</details>\n\n")
    }
}

// ---------------------------------------------------------------------------
// The comment

/// What is shown of one system.
pub open spec fn system_text(
    results: Seq<ResultText>,
    system: Seq<char>,
    multi_arch: bool,
    links: LinkText,
    base_commit: Option<Seq<char>>,
) -> Seq<char> {
    (if multi_arch {
        "### "@ + system + "\n\n"@
    } else {
        ""@
    }) + section_text(Section::Introduced, results, system, links, base_commit) + section_text(
        Section::PreExisting,
        results,
        system,
        links,
        base_commit,
    ) + section_text(Section::Passed, results, system, links, base_commit)
}

/// What is shown of a list of systems.
pub open spec fn systems_text(
    results: Seq<ResultText>,
    systems: Seq<Seq<char>>,
    multi_arch: bool,
    links: LinkText,
    base_commit: Option<Seq<char>>,
) -> Seq<char>
    decreases systems.len(),
{
    if systems.len() == 0 {
        Seq::empty()
    } else {
        systems_text(results, systems.drop_last(), multi_arch, links, base_commit) + system_text(
            results,
            systems.last(),
            multi_arch,
            links,
            base_commit,
        )
    }
}

/// The line that names the commits.
pub open spec fn commits_text(base: Option<Seq<char>>, head: Option<Seq<char>>) -> Seq<char> {
    match (base, head) {
        (Some(b), Some(h)) => "\ncompared base commit `"@ + short_commit(b)
            + "` against head of PR commit `"@ + short_commit(h) + "`\n"@,
        (Some(b), None) => "\nbase commit: `"@ + short_commit(b) + "`\n"@,
        (None, Some(h)) => "\nhead of PR commit: `"@ + short_commit(h) + "`\n"@,
        (None, None) => ""@,
    }
}

/// The section that shows the command.
pub open spec fn command_text(cli_command: Option<Seq<char>>) -> Seq<char> {
    match cli_command {
        Some(cmd) => if cmd.len() == 0 {
            ""@
        } else {
            "\n<details>\n<summary>Command</summary>\n\n```bash\n"@ + formatted_command(cmd)
                + "\n```\n</details>\n"@
        },
        None => ""@,
    }
}

/// A note with a number in it, where the number is not zero.
pub open spec fn count_note(before: Seq<char>, n: nat, after: Seq<char>) -> Seq<char> {
    if n > 0 {
        before + decimal(n) + after
    } else {
        ""@
    }
}

/// The line that counts the results.
pub open spec fn status_text(results: Seq<ResultText>) -> Seq<char> {
    let systems = systems_in_order(results).len();
    "\n**Status**: "@ + decimal(tally(Tally::Passed, results)) + "/"@ + decimal(results.len())
        + " packages passed, "@ + decimal(tally(Tally::Failed, results)) + " failed"@ + count_note(
        " ("@,
        tally(Tally::PreExisting, results),
        " pre-existing)"@,
    ) + count_note(", "@, tally(Tally::NonDeterministic, results), " non-deterministic"@) + (
    if systems > 1 {
        " across "@ + decimal(systems) + " architectures"@
    } else {
        ""@
    }) + "\n\n"@
}

/// The comment that sums up a list of results.
pub open spec fn comment_text(
    pr_num: nat,
    results: Seq<ResultText>,
    links: LinkText,
    base_commit: Option<Seq<char>>,
    head_commit: Option<Seq<char>>,
    cli_command: Option<Seq<char>>,
) -> Seq<char> {
    let systems = systems_in_order(results);
    trimmed_end(
        "## srcbot: Full Evaluation Results for PR #"@ + decimal(pr_num) + "\n"@ + commits_text(
            base_commit,
            head_commit,
        ) + command_text(cli_command) + status_text(results) + systems_text(
            results,
            systems,
            systems.len() > 1,
            links,
            base_commit,
        ),
    )
}

fn show_commits(base: Option<&str>, head: Option<&str>) -> (out: String)
    requires
        base matches Some(c) ==> cuts_cleanly(c@, 8),
        head matches Some(c) ==> cuts_cleanly(c@, 8),
    ensures
        out@ == commits_text(opt_str(base), opt_str(head)),
{
    match (base, head) {
        (Some(b), Some(h)) => "\ncompared base commit `".to_string()
            .concat(take_bytes(b, 8).as_str())
            .concat("` against head of PR commit `")
            .concat(take_bytes(h, 8).as_str())
            .concat("`\n"),
        (Some(b), None) => "\nbase commit: `".to_string()
            .concat(take_bytes(b, 8).as_str())
            .concat("`\n"),
        (None, Some(h)) => "\nhead of PR commit: `".to_string()
            .concat(take_bytes(h, 8).as_str())
            .concat("`\n"),
        (None, None) => "".to_string(),
    }
}

fn show_command(cli_command: Option<&str>) -> (out: String)
    ensures
        out@ == command_text(opt_str(cli_command)),
{
    match cli_command {
        Some(cmd) => {
            if cmd.is_empty() {
                "".to_string()
            } else {
                "\n<details>\n<summary>Command</summary>\n\n```bash\n".to_string()
                    .concat(format_cli_command(cmd).as_str())
                    .concat("\n```\n</details>\n")
            }
        },
        None => "".to_string(),
    }
}

fn show_count(before: &str, n: usize, after: &str) -> (out: String)
    ensures
        out@ == count_note(before@, n as nat, after@),
{
    if n > 0 {
        before.to_string().concat(decimal_usize(n).as_str()).concat(after)
    } else {
        "".to_string()
    }
}

fn show_status(results: &[FullEvalBuildResult], systems: usize) -> (out: String)
    requires
        systems == systems_in_order(result_texts(results@)).len(),
    ensures
        out@ == status_text(result_texts(results@)),
{
    let passed: usize = count_results(Tally::Passed, results);
    let failed: usize = count_results(Tally::Failed, results);
    let pre_existing: usize = count_results(Tally::PreExisting, results);
    let non_deterministic: usize = count_results(Tally::NonDeterministic, results);
    let across = if systems > 1 {
        " across ".to_string().concat(decimal_usize(systems).as_str()).concat(" architectures")
    } else {
        "".to_string()
    };
    assert(result_texts(results@).len() == results@.len());
    "\n**Status**: ".to_string()
        .concat(decimal_usize(passed).as_str())
        .concat("/")
        .concat(decimal_usize(results.len()).as_str())
        .concat(" packages passed, ")
        .concat(decimal_usize(failed).as_str())
        .concat(" failed")
        .concat(show_count(" (", pre_existing, " pre-existing)").as_str())
        .concat(show_count(", ", non_deterministic, " non-deterministic").as_str())
        .concat(across.as_str())
        .concat("\n\n")
}

fn show_systems(
    results: &[FullEvalBuildResult],
    systems: &Vec<String>,
    log_url_base: Option<&str>,
    base_commit: Option<&str>,
    base_commit_short: Option<&str>,
) -> (out: String)
    requires
        base_commit matches Some(c) ==> cuts_cleanly(c@, 8),
    ensures
        out@ == systems_text(
            result_texts(results@),
            texts(systems@),
            systems@.len() > 1,
            link_text(log_url_base, base_commit_short),
            opt_str(base_commit),
        ),
{
    let ghost all = result_texts(results@);
    let ghost links = link_text(log_url_base, base_commit_short);
    let ghost commit = opt_str(base_commit);
    let total: usize = results.len();
    let mut attrs: Vec<String> = Vec::new();
    for i in 0..total
        invariant
            total == results@.len(),
            all == result_texts(results@),
            texts(attrs@) == attrs_of(all).take(i as int),
    {
        let ghost before = texts(attrs@);
        attrs.push(results[i].attr.clone());
        assert(all[i as int] == results@[i as int]@);
        assert(texts(attrs@) == before.push(attrs_of(all)[i as int]));
        assert(attrs_of(all).take(i + 1) == before.push(attrs_of(all)[i as int]));
    }
    assert(attrs_of(all).take(total as int) == attrs_of(all));
    let n: usize = systems.len();
    let multi = n > 1;
    let ghost names = texts(systems@);
    let mut out = String::new();
    assert(names.take(0) == Seq::<Seq<char>>::empty());
    for i in 0..n
        invariant
            n == systems@.len(),
            multi == (n > 1),
            names == texts(systems@),
            all == result_texts(results@),
            texts(attrs@) == attrs_of(all),
            links == link_text(log_url_base, base_commit_short),
            commit == opt_str(base_commit),
            base_commit matches Some(c) ==> cuts_cleanly(c@, 8),
            out@ == systems_text(all, names.take(i as int), multi, links, commit),
    {
        let system = systems[i].as_str();
        let head = if multi {
            "### ".to_string().concat(system).concat("\n\n")
        } else {
            "".to_string()
        };
        let introduced = show_section(
            Section::Introduced,
            results,
            &attrs,
            system,
            log_url_base,
            base_commit,
            base_commit_short,
        );
        let pre_existing = show_section(
            Section::PreExisting,
            results,
            &attrs,
            system,
            log_url_base,
            base_commit,
            base_commit_short,
        );
        let passed = show_section(
            Section::Passed,
            results,
            &attrs,
            system,
            log_url_base,
            base_commit,
            base_commit_short,
        );
        let text = head.concat(introduced.as_str())
            .concat(pre_existing.as_str())
            .concat(passed.as_str());
        proof {
            assert(names.take(i + 1).drop_last() == names.take(i as int));
            assert(names.take(i + 1).last() == system@);
            assert(text@ == system_text(all, system@, multi, links, commit));
        }
        out.append(text.as_str());
    }
    assert(names.take(n as int) == names);
    out
}

/// Writes the comment that sums up the results, which may be for several systems.
///
/// `log_url_base` is where the logs are found, `base_commit_short` the part of
/// the names of logs of the base branch that tells its commit. The commits are
/// shown by their first eight bytes, which have to end between two characters.
pub fn build_summary_comment(
    pr_num: u64,
    results: &[FullEvalBuildResult],
    log_url_base: Option<&str>,
    base_commit: Option<&str>,
    head_commit: Option<&str>,
    base_commit_short: Option<&str>,
    cli_command: Option<&str>,
    _remote_config: Option<&RemoteBuilderConfig>,
) -> (comment: String)
    requires
        base_commit matches Some(c) ==> cuts_cleanly(c@, 8),
        head_commit matches Some(c) ==> cuts_cleanly(c@, 8),
    ensures
        comment@ == comment_text(
            pr_num as nat,
            result_texts(results@),
            link_text(log_url_base, base_commit_short),
            opt_str(base_commit),
            opt_str(head_commit),
            opt_str(cli_command),
        ),
{
    let systems = list_systems(results);
    assert(texts(systems@).len() == systems@.len());
    let commits = show_commits(base_commit, head_commit);
    let command = show_command(cli_command);
    let status = show_status(results, systems.len());
    let body = show_systems(results, &systems, log_url_base, base_commit, base_commit_short);
    let all = "## srcbot: Full Evaluation Results for PR #".to_string()
        .concat(decimal_u64(pr_num).as_str())
        .concat("\n")
        .concat(commits.as_str())
        .concat(command.as_str())
        .concat(status.as_str())
        .concat(body.as_str());
    trim_end(all.as_str())
}

// ---------------------------------------------------------------------------
// What holds of the comment

/// A result stands in exactly one of the three sections.
pub proof fn law_one_section(r: ResultText)
    ensures
        in_section(Section::Introduced, r) || in_section(Section::PreExisting, r) || in_section(
            Section::Passed,
            r,
        ),
        !(in_section(Section::Introduced, r) && in_section(Section::PreExisting, r)),
        !(in_section(Section::Introduced, r) && in_section(Section::Passed, r)),
        !(in_section(Section::PreExisting, r) && in_section(Section::Passed, r)),
{
}

proof fn lemma_picks(results: Seq<ResultText>, system: Seq<char>, section: Section, n: int)
    requires
        0 <= n <= results.len(),
    ensures
        picks_before(results, system, section, n).no_duplicates(),
        forall|j: int|
            #![auto]
            picks_before(results, system, section, n).contains(j) == (0 <= j < n && system_of(
                results[j],
            ) == system && in_section(section, results[j])),
    decreases n,
{
    if n > 0 {
        lemma_picks(results, system, section, n - 1);
        let front = picks_before(results, system, section, n - 1);
        let all = picks_before(results, system, section, n);
        assert forall|j: int| #![auto] all.contains(j) == (0 <= j < n && system_of(results[j])
            == system && in_section(section, results[j])) by {
            if system_of(results[n - 1]) == system && in_section(section, results[n - 1]) {
                assert(all[all.len() - 1] == n - 1);
                if front.contains(j) {
                    let k = choose|k: int| 0 <= k < front.len() && front[k] == j;
                    assert(all[k] == j);
                }
                if all.contains(j) && j != n - 1 {
                    let k = choose|k: int| 0 <= k < all.len() && all[k] == j;
                    assert(front[k] == j);
                }
            }
        }
        assert forall|a: int, b: int|
            0 <= a < all.len() && 0 <= b < all.len() && a != b implies all[a] != all[b] by {
            if all.len() > front.len() {
                if a == front.len() {
                    assert(front.contains(front[b]));
                } else if b == front.len() {
                    assert(front.contains(front[a]));
                }
            }
        }
    }
}

/// A result stands in the rows of a section of a system exactly where it is of that
/// system and that section, and no result stands in a section twice.
pub proof fn law_section_rows(
    results: Seq<ResultText>,
    system: Seq<char>,
    section: Section,
    i: int,
)
    requires
        0 <= i < results.len(),
    ensures
        section_places(results, system, section).contains(i) == (system_of(results[i]) == system
            && in_section(section, results[i])),
        section_places(results, system, section).no_duplicates(),
{
    let picks = picks_before(results, system, section, results.len() as int);
    lemma_picks(results, system, section, results.len() as int);
    lemma_sorted_members(attrs_of(results), picks);
    assert(section_places(results, system, section).contains(i) == picks.contains(i));
    assert(picks.contains(i) == (system_of(results[i]) == system && in_section(
        section,
        results[i],
    )));
}

/// The rows of a section are sorted by attribute path.
pub proof fn law_section_sorted(
    results: Seq<ResultText>,
    system: Seq<char>,
    section: Section,
    i: int,
    j: int,
)
    requires
        0 <= i < j < section_places(results, system, section).len(),
    ensures
        !text_lt(
            attrs_of(results)[section_places(results, system, section)[j]],
            attrs_of(results)[section_places(results, system, section)[i]],
        ),
{
    law_sorted_in_order(
        attrs_of(results),
        picks_before(results, system, section, results.len() as int),
    );
}

proof fn lemma_systems_seen(results: Seq<ResultText>)
    ensures
        systems_seen(results).no_duplicates(),
        forall|i: int|
            0 <= i < results.len() ==> systems_seen(results).contains(
                system_of(#[trigger] results[i]),
            ),
        forall|k: int|
            0 <= k < systems_seen(results).len() ==> exists|i: int|
                0 <= i < results.len() && system_of(#[trigger] results[i]) == (
                #[trigger] systems_seen(results)[k]),
    decreases results.len(),
{
    if results.len() > 0 {
        let front = results.drop_last();
        lemma_systems_seen(front);
        let seen = systems_seen(front);
        let all = systems_seen(results);
        let system = system_of(results.last());
        assert forall|i: int| 0 <= i < results.len() implies all.contains(
            system_of(#[trigger] results[i]),
        ) by {
            if i < front.len() {
                assert(front[i] == results[i]);
                let k = choose|k: int| 0 <= k < seen.len() && seen[k] == system_of(results[i]);
                assert(all[k] == system_of(results[i]));
            } else if !seen.contains(system) {
                assert(all[seen.len() as int] == system);
            }
        }
        assert forall|k: int| 0 <= k < all.len() implies exists|i: int|
            0 <= i < results.len() && system_of(#[trigger] results[i]) == (#[trigger] all[k]) by {
            if k < seen.len() {
                assert(all[k] == seen[k]);
                let i = choose|i: int|
                    0 <= i < front.len() && system_of(#[trigger] front[i]) == seen[k];
                assert(results[i] == front[i]);
            } else {
                assert(results[results.len() - 1] == results.last());
            }
        }
        assert forall|a: int, b: int|
            0 <= a < all.len() && 0 <= b < all.len() && a != b implies all[a] != all[b] by {
            if all.len() > seen.len() {
                if a == seen.len() {
                    assert(seen.contains(seen[b]));
                } else if b == seen.len() {
                    assert(seen.contains(seen[a]));
                }
            }
        }
    }
}

/// Every result's system is shown, once; every system that is shown has a result;
/// and the local system, where it is shown, is the first.
pub proof fn law_systems_shown(results: Seq<ResultText>)
    ensures
        systems_in_order(results).no_duplicates(),
        forall|i: int|
            0 <= i < results.len() ==> systems_in_order(results).contains(
                system_of(#[trigger] results[i]),
            ),
        forall|k: int|
            0 <= k < systems_in_order(results).len() ==> exists|i: int|
                0 <= i < results.len() && system_of(#[trigger] results[i]) == (
                #[trigger] systems_in_order(results)[k]),
        systems_in_order(results).contains(LOCAL_SYSTEM@) ==> systems_in_order(results)[0]
            == LOCAL_SYSTEM@,
{
    let seen = systems_seen(results);
    let keys = system_keys(seen);
    let all = first_places(seen.len());
    let sorted = sorted_by(keys, all);
    let shown = systems_in_order(results);
    lemma_systems_seen(results);
    lemma_sorted_members(keys, all);
    law_sorted_in_order(keys, all);
    assert forall|a: int| 0 <= a < sorted.len() implies 0 <= #[trigger] sorted[a] < seen.len() by {
        assert(sorted.contains(sorted[a]));
        assert(all.contains(sorted[a]));
    }
    assert forall|a: int, b: int|
        0 <= a < shown.len() && 0 <= b < shown.len() && a != b implies shown[a] != shown[b] by {
        assert(sorted[a] != sorted[b]);
    }
    assert forall|i: int| 0 <= i < results.len() implies shown.contains(
        system_of(#[trigger] results[i]),
    ) by {
        let k = choose|k: int| 0 <= k < seen.len() && seen[k] == system_of(results[i]);
        assert(all[k] == k);
        assert(all.contains(k));
        assert(sorted.contains(k));
        let a = choose|a: int| 0 <= a < sorted.len() && sorted[a] == k;
        assert(shown[a] == seen[k]);
    }
    assert forall|k: int| 0 <= k < shown.len() implies exists|i: int|
        0 <= i < results.len() && system_of(#[trigger] results[i]) == (#[trigger] shown[k]) by {
        assert(shown[k] == seen[sorted[k]]);
    }
    if shown.contains(LOCAL_SYSTEM@) {
        let a = choose|a: int| 0 <= a < shown.len() && shown[a] == LOCAL_SYSTEM@;
        assert(keys[sorted[a]] == Seq::<char>::empty());
        if a > 0 {
            assert(!text_lt(keys[sorted[a]], keys[sorted[0]]));
            assert(keys[sorted[0]].len() == 0);
            let i = choose|i: int|
                0 <= i < results.len() && system_of(#[trigger] results[i]) == seen[sorted[0]];
            assert(LOCAL_SYSTEM@.len() > 0) by {
                reveal_strlit("x86_64-linux");
            }
            assert(seen[sorted[0]].len() > 0);
        }
    }
}

/// The systems behind the local one are sorted by name.
pub proof fn law_systems_sorted(results: Seq<ResultText>, i: int, j: int)
    requires
        0 <= i < j < systems_in_order(results).len(),
        systems_in_order(results)[i] != LOCAL_SYSTEM@,
    ensures
        systems_in_order(results)[j] != LOCAL_SYSTEM@,
        !text_lt(systems_in_order(results)[j], systems_in_order(results)[i]),
{
    let seen = systems_seen(results);
    let keys = system_keys(seen);
    let sorted = sorted_by(keys, first_places(seen.len()));
    law_systems_shown(results);
    lemma_sorted_members(keys, first_places(seen.len()));
    law_sorted_in_order(keys, first_places(seen.len()));
    assert(sorted.contains(sorted[i]) && sorted.contains(sorted[j]));
    assert(first_places(seen.len()).contains(sorted[i]));
    assert(first_places(seen.len()).contains(sorted[j]));
    if systems_in_order(results)[j] == LOCAL_SYSTEM@ {
        assert(systems_in_order(results).contains(LOCAL_SYSTEM@));
    }
    assert(!text_lt(keys[sorted[j]], keys[sorted[i]]));
}

/// A command without flags is shown as it is.
pub proof fn law_plain_command_unchanged(cmd: Seq<char>)
    requires
        !crate::search::contains(cmd, " --"@),
    ensures
        formatted_command(cmd) == cmd,
{
    reveal_strlit(" --");
    crate::search::lemma_find_contains(cmd, " --"@);
    assert(split(cmd, " --"@) == seq![cmd]);
}

// ---------------------------------------------------------------------------
// The order of the results

/// Whether no two results are of the same package and system.
pub open spec fn distinct_results(results: Seq<ResultText>) -> bool {
    forall|i: int, j: int|
        0 <= i < j < results.len() ==> (#[trigger] results[i]).attr != (#[trigger] results[j]).attr
            || system_of(results[i]) != system_of(results[j])
}

/// The rows of a section of a system.
spec fn section_rows(results: Seq<ResultText>, system: Seq<char>, section: Section) -> Seq<
    ResultText,
> {
    section_places(results, system, section).map_values(|i: int| results[i])
}

/// What the rows of a section are sorted by.
spec fn row_key() -> spec_fn(ResultText) -> Seq<char> {
    |r: ResultText| r.attr
}

proof fn lemma_section_rows(results: Seq<ResultText>, system: Seq<char>, section: Section)
    requires
        distinct_results(results),
    ensures
        strictly_sorted(section_rows(results, system, section), row_key()),
        forall|r: ResultText| #[trigger]
            section_rows(results, system, section).contains(r) == (results.contains(r)
                && system_of(r) == system && in_section(section, r)),
{
    let order = section_places(results, system, section);
    let rows = section_rows(results, system, section);
    let picks = picks_before(results, system, section, results.len() as int);
    lemma_picks(results, system, section, results.len() as int);
    lemma_sorted_members(attrs_of(results), picks);
    assert forall|k: int| 0 <= k < order.len() implies 0 <= #[trigger] order[k] < results.len()
        && system_of(results[order[k]]) == system && in_section(section, results[order[k]]) by {
        assert(order.contains(order[k]));
        assert(picks.contains(order[k]));
    }
    assert forall|a: int, b: int| 0 <= a < b < rows.len() implies text_lt(
        row_key()(#[trigger] rows[a]),
        row_key()(#[trigger] rows[b]),
    ) by {
        law_section_sorted(results, system, section, a, b);
        lemma_text_lt_total(rows[a].attr, rows[b].attr);
        assert(order[a] != order[b]);
        assert(rows[a] == results[order[a]] && rows[b] == results[order[b]]);
        if order[a] < order[b] {
            assert(results[order[a]].attr != results[order[b]].attr);
        } else {
            assert(results[order[b]].attr != results[order[a]].attr);
        }
        assert(attrs_of(results)[order[a]] == rows[a].attr);
        assert(attrs_of(results)[order[b]] == rows[b].attr);
    }
    assert forall|r: ResultText| #[trigger] rows.contains(r) == (results.contains(r) && system_of(r)
        == system && in_section(section, r)) by {
        if rows.contains(r) {
            let k = choose|k: int| 0 <= k < rows.len() && rows[k] == r;
            assert(results[order[k]] == r);
        }
        if results.contains(r) && system_of(r) == system && in_section(section, r) {
            let i = choose|i: int| 0 <= i < results.len() && results[i] == r;
            law_section_rows(results, system, section, i);
            let k = choose|k: int| 0 <= k < order.len() && order[k] == i;
            assert(rows[k] == r);
        }
    }
}

proof fn lemma_rows_text(
    section: Section,
    one: Seq<ResultText>,
    two: Seq<ResultText>,
    order1: Seq<int>,
    order2: Seq<int>,
    links: LinkText,
)
    requires
        order1.map_values(|i: int| one[i]) == order2.map_values(|i: int| two[i]),
    ensures
        rows_text(section, one, order1, links) == rows_text(section, two, order2, links),
    decreases order1.len(),
{
    let rows1 = order1.map_values(|i: int| one[i]);
    let rows2 = order2.map_values(|i: int| two[i]);
    assert(rows1.len() == order1.len() && rows2.len() == order2.len());
    if order1.len() > 0 {
        assert(order1.drop_last().map_values(|i: int| one[i]) == rows1.drop_last());
        assert(order2.drop_last().map_values(|i: int| two[i]) == rows2.drop_last());
        lemma_rows_text(section, one, two, order1.drop_last(), order2.drop_last(), links);
        assert(rows1[order1.len() - 1] == one[order1.last()]);
        assert(rows2[order2.len() - 1] == two[order2.last()]);
    }
}

proof fn lemma_same_items(one: Seq<ResultText>, two: Seq<ResultText>)
    requires
        one.to_multiset() == two.to_multiset(),
    ensures
        one.len() == two.len(),
        forall|r: ResultText|
            #![trigger one.contains(r)]
            #![trigger two.contains(r)]
            one.contains(r) == two.contains(r),
{
    broadcast use vstd::seq_lib::group_to_multiset_ensures;

    assert(one.len() == one.to_multiset().len());
    assert(two.len() == two.to_multiset().len());
    assert forall|r: ResultText|
        #![trigger one.contains(r)]
        #![trigger two.contains(r)]
        one.contains(r) == two.contains(r) by {
        assert(one.contains(r) == (one.to_multiset().count(r) > 0));
        assert(two.contains(r) == (two.to_multiset().count(r) > 0));
    }
}

proof fn lemma_tally_without(t: Tally, results: Seq<ResultText>, i: int)
    requires
        0 <= i < results.len(),
    ensures
        tally(t, results) == tally(t, results.remove(i)) + if counts(t, results[i]) {
            1nat
        } else {
            0nat
        },
    decreases results.len(),
{
    reveal(Seq::filter);
    let last = results.len() - 1;
    if i == last {
        assert(results.remove(i) == results.drop_last());
    } else {
        let front = results.drop_last();
        lemma_tally_without(t, front, i);
        let rest = results.remove(i);
        assert(rest.drop_last() == front.remove(i));
        assert(rest.last() == results.last());
        assert(front[i] == results[i]);
    }
}

proof fn lemma_tally_any_order(t: Tally, one: Seq<ResultText>, two: Seq<ResultText>)
    requires
        one.to_multiset() == two.to_multiset(),
    ensures
        tally(t, one) == tally(t, two),
    decreases one.len(),
{
    broadcast use vstd::seq_lib::group_to_multiset_ensures;

    lemma_same_items(one, two);
    if one.len() > 0 {
        let last = one.len() - 1;
        assert(one.contains(one[last]));
        assert(two.contains(one[last]));
        let i = choose|i: int| 0 <= i < two.len() && two[i] == one[last];
        lemma_tally_without(t, one, last);
        lemma_tally_without(t, two, i);
        assert(one.remove(last).to_multiset() == two.remove(i).to_multiset());
        lemma_tally_any_order(t, one.remove(last), two.remove(i));
    } else {
        assert(one == two);
    }
}

/// What systems are sorted by.
spec fn system_order() -> spec_fn(Seq<char>) -> Seq<char> {
    |s: Seq<char>| system_key(s)
}

proof fn lemma_systems_strict(results: Seq<ResultText>)
    ensures
        strictly_sorted(systems_in_order(results), system_order()),
{
    let seen = systems_seen(results);
    let keys = system_keys(seen);
    let all = first_places(seen.len());
    let sorted = sorted_by(keys, all);
    let shown = systems_in_order(results);
    law_systems_shown(results);
    lemma_sorted_members(keys, all);
    law_sorted_in_order(keys, all);
    assert forall|a: int, b: int| 0 <= a < b < shown.len() implies text_lt(
        system_order()(#[trigger] shown[a]),
        system_order()(#[trigger] shown[b]),
    ) by {
        assert(sorted.contains(sorted[a]) && sorted.contains(sorted[b]));
        assert(all.contains(sorted[a]) && all.contains(sorted[b]));
        assert(keys[sorted[a]] == system_key(shown[a]));
        assert(keys[sorted[b]] == system_key(shown[b]));
        assert(shown[a] != shown[b]);
        let i = choose|i: int|
            0 <= i < results.len() && system_of(#[trigger] results[i]) == shown[a];
        let j = choose|j: int|
            0 <= j < results.len() && system_of(#[trigger] results[j]) == shown[b];
        assert(LOCAL_SYSTEM@.len() > 0) by {
            reveal_strlit("x86_64-linux");
        }
        assert(shown[a].len() > 0 && shown[b].len() > 0);
        assert(system_key(shown[a]) != system_key(shown[b]));
        lemma_text_lt_total(system_key(shown[a]), system_key(shown[b]));
    }
}

proof fn lemma_systems_any_order(one: Seq<ResultText>, two: Seq<ResultText>)
    requires
        one.to_multiset() == two.to_multiset(),
    ensures
        systems_in_order(one) == systems_in_order(two),
{
    lemma_same_items(one, two);
    law_systems_shown(one);
    law_systems_shown(two);
    lemma_systems_strict(one);
    lemma_systems_strict(two);
    let a = systems_in_order(one);
    let b = systems_in_order(two);
    assert forall|s: Seq<char>| a.contains(s) == b.contains(s) by {
        if a.contains(s) {
            let k = choose|k: int| 0 <= k < a.len() && a[k] == s;
            let i = choose|i: int| 0 <= i < one.len() && system_of(#[trigger] one[i]) == a[k];
            assert(one.contains(one[i]));
            let j = choose|j: int| 0 <= j < two.len() && two[j] == one[i];
            assert(b.contains(system_of(two[j])));
        }
        if b.contains(s) {
            let k = choose|k: int| 0 <= k < b.len() && b[k] == s;
            let i = choose|i: int| 0 <= i < two.len() && system_of(#[trigger] two[i]) == b[k];
            assert(two.contains(two[i]));
            let j = choose|j: int| 0 <= j < one.len() && one[j] == two[i];
            assert(a.contains(system_of(one[j])));
        }
    }
    lemma_strictly_sorted_unique(a, b, system_order());
}

proof fn lemma_distinct_any_order(one: Seq<ResultText>, two: Seq<ResultText>)
    requires
        one.to_multiset() == two.to_multiset(),
        distinct_results(one),
    ensures
        distinct_results(two),
{
    broadcast use vstd::seq_lib::group_to_multiset_ensures;

    lemma_same_items(one, two);
    assert(one.no_duplicates());
    one.lemma_multiset_has_no_duplicates();
    two.lemma_multiset_has_no_duplicates_conv();
    assert forall|i: int, j: int| 0 <= i < j < two.len() implies (#[trigger] two[i]).attr != (
    #[trigger] two[j]).attr || system_of(two[i]) != system_of(two[j]) by {
        assert(two[i] != two[j]);
        assert(two.contains(two[i]) && two.contains(two[j]));
        let a = choose|a: int| 0 <= a < one.len() && one[a] == two[i];
        let b = choose|b: int| 0 <= b < one.len() && one[b] == two[j];
        if a < b {
            assert(one[a].attr != one[b].attr || system_of(one[a]) != system_of(one[b]));
        } else {
            assert(one[b].attr != one[a].attr || system_of(one[b]) != system_of(one[a]));
        }
    }
}

proof fn lemma_section_any_order(
    section: Section,
    one: Seq<ResultText>,
    two: Seq<ResultText>,
    system: Seq<char>,
    links: LinkText,
    base_commit: Option<Seq<char>>,
)
    requires
        one.to_multiset() == two.to_multiset(),
        distinct_results(one),
    ensures
        section_text(section, one, system, links, base_commit) == section_text(
            section,
            two,
            system,
            links,
            base_commit,
        ),
{
    lemma_same_items(one, two);
    lemma_distinct_any_order(one, two);
    lemma_section_rows(one, system, section);
    lemma_section_rows(two, system, section);
    let rows1 = section_rows(one, system, section);
    let rows2 = section_rows(two, system, section);
    assert forall|r: ResultText| rows1.contains(r) == rows2.contains(r) by {
        assert(one.contains(r) == two.contains(r));
    }
    lemma_strictly_sorted_unique(rows1, rows2, row_key());
    let order1 = section_places(one, system, section);
    let order2 = section_places(two, system, section);
    assert(rows1.len() == order1.len() && rows2.len() == order2.len());
    lemma_rows_text(section, one, two, order1, order2, links);
}

proof fn lemma_systems_text_any_order(
    one: Seq<ResultText>,
    two: Seq<ResultText>,
    systems: Seq<Seq<char>>,
    multi_arch: bool,
    links: LinkText,
    base_commit: Option<Seq<char>>,
)
    requires
        one.to_multiset() == two.to_multiset(),
        distinct_results(one),
    ensures
        systems_text(one, systems, multi_arch, links, base_commit) == systems_text(
            two,
            systems,
            multi_arch,
            links,
            base_commit,
        ),
    decreases systems.len(),
{
    if systems.len() > 0 {
        lemma_systems_text_any_order(one, two, systems.drop_last(), multi_arch, links, base_commit);
        let system = systems.last();
        lemma_section_any_order(Section::Introduced, one, two, system, links, base_commit);
        lemma_section_any_order(Section::PreExisting, one, two, system, links, base_commit);
        lemma_section_any_order(Section::Passed, one, two, system, links, base_commit);
    }
}

/// The comment is the same for any order of the results, where no two are of the same
/// package and system.
pub proof fn law_any_order_same_comment(
    pr_num: nat,
    one: Seq<ResultText>,
    two: Seq<ResultText>,
    links: LinkText,
    base_commit: Option<Seq<char>>,
    head_commit: Option<Seq<char>>,
    cli_command: Option<Seq<char>>,
)
    requires
        one.to_multiset() == two.to_multiset(),
        distinct_results(one),
    ensures
        comment_text(pr_num, one, links, base_commit, head_commit, cli_command) == comment_text(
            pr_num,
            two,
            links,
            base_commit,
            head_commit,
            cli_command,
        ),
{
    lemma_same_items(one, two);
    lemma_systems_any_order(one, two);
    lemma_tally_any_order(Tally::Passed, one, two);
    lemma_tally_any_order(Tally::Failed, one, two);
    lemma_tally_any_order(Tally::PreExisting, one, two);
    lemma_tally_any_order(Tally::NonDeterministic, one, two);
    let systems = systems_in_order(one);
    lemma_systems_text_any_order(one, two, systems, systems.len() > 1, links, base_commit);
}

// ---------------------------------------------------------------------------
// Everything is shown

/// In which section a result stands: a success among the packages that passed; a failure
/// among those of the base branch exactly where it is marked so, else among those that
/// the pull request brought.
pub proof fn law_section_of_result(r: ResultText)
    ensures
        in_section(Section::Passed, r) <==> r.success,
        in_section(Section::PreExisting, r) <==> !r.success && r.false_positive,
        in_section(Section::Introduced, r) <==> !r.success && !r.false_positive,
{
}

/// What is counted: successes, failures, failures that are marked as those of the base
/// branch, and results of which building again showed a mismatch.
pub proof fn law_tallies(results: Seq<ResultText>)
    ensures
        tally(Tally::Passed, results) == results.filter(|r: ResultText| r.success).len(),
        tally(Tally::Failed, results) == results.filter(|r: ResultText| !r.success).len(),
        tally(Tally::PreExisting, results) == results.filter(
            |r: ResultText| !r.success && r.false_positive,
        ).len(),
        tally(Tally::NonDeterministic, results) == results.filter(
            |r: ResultText| r.non_deterministic,
        ).len(),
{
    assert((|r: ResultText| counts(Tally::Passed, r)) =~= (|r: ResultText| r.success));
    assert((|r: ResultText| counts(Tally::Failed, r)) =~= (|r: ResultText| !r.success));
    assert((|r: ResultText| counts(Tally::PreExisting, r)) =~= (|r: ResultText|
        !r.success && r.false_positive));
    assert((|r: ResultText| counts(Tally::NonDeterministic, r)) =~= (|r: ResultText|
        r.non_deterministic));
}

/// A result is for the system that it names, and for the local one where it names none.
pub proof fn law_system_of_result(r: ResultText)
    ensures
        r.system != Seq::<char>::empty() ==> system_of(r) == r.system,
        r.system == Seq::<char>::empty() ==> system_of(r) == "x86_64-linux"@,
{
    if r.system.len() == 0 {
        assert(r.system == Seq::<char>::empty());
    }
}

proof fn lemma_picks_count(results: Seq<ResultText>, system: Seq<char>, section: Section, n: int)
    requires
        0 <= n <= results.len(),
    ensures
        picks_before(results, system, section, n).len() == results.take(n).filter(
            |r: ResultText| system_of(r) == system && in_section(section, r),
        ).len(),
    decreases n,
{
    reveal(Seq::filter);
    if n > 0 {
        lemma_picks_count(results, system, section, n - 1);
        assert(results.take(n).drop_last() == results.take(n - 1));
        assert(results.take(n).last() == results[n - 1]);
    }
}

/// A section of a system has as many rows as there are results of that system and that
/// section.
pub proof fn law_section_count(results: Seq<ResultText>, system: Seq<char>, section: Section)
    ensures
        section_places(results, system, section).len() == results.filter(
            |r: ResultText| system_of(r) == system && in_section(section, r),
        ).len(),
{
    let n = results.len() as int;
    lemma_picks_count(results, system, section, n);
    lemma_sorted_members(attrs_of(results), picks_before(results, system, section, n));
    assert(results.take(n) == results);
}

proof fn lemma_sums(a: Seq<char>, b: Seq<char>, c: Seq<char>)
    ensures
        a + b + c == a + (b + c),
        a + Seq::<char>::empty() == a,
        Seq::<char>::empty() + a == a,
{
    assert(a + b + c =~= a + (b + c));
    assert(a + Seq::<char>::empty() =~= a);
    assert(Seq::<char>::empty() + a =~= a);
}

#[verifier::rlimit(40)]
proof fn lemma_five_parts(a: Seq<char>, b: Seq<char>, c: Seq<char>, d: Seq<char>, e: Seq<char>)
    ensures
        crate::search::starts_with(a + b + c + d + e, a),
        contains(a + b + c + d + e, b),
        contains(a + b + c + d + e, c),
        contains(a + b + c + d + e, d),
        contains(a + b + c + d + e, e),
{
    let all = a + b + c + d + e;
    assert(all.subrange(0, a.len() as int) =~= a);
    assert(all =~= a + b + (c + d + e));
    lemma_contains_middle(a, b, c + d + e);
    assert(all =~= (a + b) + c + (d + e));
    lemma_contains_middle(a + b, c, d + e);
    lemma_contains_middle(a + b + c, d, e);
    assert(all =~= (a + b + c + d) + e + Seq::<char>::empty());
    lemma_contains_middle(a + b + c + d, e, Seq::empty());
}

/// The rows of a table stand one behind the other, each for its result.
pub proof fn law_rows_in_turn(
    section: Section,
    results: Seq<ResultText>,
    one: Seq<int>,
    two: Seq<int>,
    links: LinkText,
    i: int,
)
    ensures
        rows_text(section, results, Seq::empty(), links).len() == 0,
        rows_text(section, results, seq![i], links) == row_text(section, results[i], links),
        rows_text(section, results, one + two, links) == rows_text(section, results, one, links)
            + rows_text(section, results, two, links),
    decreases two.len(),
{
    assert(seq![i].drop_last() == Seq::<int>::empty());
    assert(rows_text(section, results, Seq::empty(), links) + row_text(section, results[i], links)
        == row_text(section, results[i], links));
    if two.len() == 0 {
        assert(one + two == one);
        assert(rows_text(section, results, one, links) + Seq::<char>::empty() == rows_text(
            section,
            results,
            one,
            links,
        ));
    } else {
        law_rows_in_turn(section, results, one, two.drop_last(), links, i);
        assert((one + two).drop_last() == one + two.drop_last());
        assert((one + two).last() == two.last());
        let a = rows_text(section, results, one, links);
        let b = rows_text(section, results, two.drop_last(), links);
        let c = row_text(section, results[two.last()], links);
        lemma_sums(a, b, c);
    }
}

proof fn lemma_row_in_rows(
    section: Section,
    results: Seq<ResultText>,
    order: Seq<int>,
    links: LinkText,
    k: int,
)
    requires
        0 <= k < order.len(),
    ensures
        contains(
            rows_text(section, results, order, links),
            row_text(section, results[order[k]], links),
        ),
{
    let front = order.take(k);
    let rest = order.skip(k + 1);
    law_rows_in_turn(section, results, front, seq![order[k]], links, order[k]);
    law_rows_in_turn(section, results, front + seq![order[k]], rest, links, order[k]);
    assert(front + seq![order[k]] + rest == order);
    lemma_contains_middle(
        rows_text(section, results, front, links),
        row_text(section, results[order[k]], links),
        rows_text(section, results, rest, links),
    );
}

/// The texts that a list of names stands for, one behind the other.
spec fn pieces(show: spec_fn(Seq<char>) -> Seq<char>, names: Seq<Seq<char>>) -> Seq<char>
    decreases names.len(),
{
    if names.len() == 0 {
        Seq::empty()
    } else {
        pieces(show, names.drop_last()) + show(names.last())
    }
}

proof fn lemma_pieces(
    show: spec_fn(Seq<char>) -> Seq<char>,
    one: Seq<Seq<char>>,
    two: Seq<Seq<char>>,
    name: Seq<char>,
)
    ensures
        pieces(show, Seq::empty()) == Seq::<char>::empty(),
        pieces(show, seq![name]) == show(name),
        pieces(show, one + two) == pieces(show, one) + pieces(show, two),
    decreases two.len(),
{
    let nothing = Seq::<char>::empty();
    assert(seq![name].drop_last() =~= Seq::<Seq<char>>::empty());
    assert(seq![name].last() == name);
    assert(pieces(show, seq![name].drop_last()) == nothing);
    assert(pieces(show, seq![name]) == nothing + show(name));
    lemma_sums(show(name), nothing, nothing);
    let a = pieces(show, one);
    if two.len() == 0 {
        assert(one + two =~= one);
        lemma_sums(a, nothing, nothing);
    } else {
        lemma_pieces(show, one, two.drop_last(), name);
        assert((one + two).drop_last() =~= one + two.drop_last());
        assert((one + two).last() == two.last());
        lemma_sums(a, pieces(show, two.drop_last()), show(two.last()));
    }
}

proof fn lemma_systems_are_pieces(
    results: Seq<ResultText>,
    systems: Seq<Seq<char>>,
    multi_arch: bool,
    links: LinkText,
    base_commit: Option<Seq<char>>,
)
    ensures
        systems_text(results, systems, multi_arch, links, base_commit) == pieces(
            |s: Seq<char>| system_text(results, s, multi_arch, links, base_commit),
            systems,
        ),
    decreases systems.len(),
{
    if systems.len() > 0 {
        lemma_systems_are_pieces(results, systems.drop_last(), multi_arch, links, base_commit);
    }
}

/// What is shown of several systems is what is shown of each, one behind the other.
pub proof fn law_systems_in_turn(
    results: Seq<ResultText>,
    one: Seq<Seq<char>>,
    two: Seq<Seq<char>>,
    system: Seq<char>,
    multi_arch: bool,
    links: LinkText,
    base_commit: Option<Seq<char>>,
)
    ensures
        systems_text(results, Seq::empty(), multi_arch, links, base_commit).len() == 0,
        systems_text(results, seq![system], multi_arch, links, base_commit) == system_text(
            results,
            system,
            multi_arch,
            links,
            base_commit,
        ),
        systems_text(results, one + two, multi_arch, links, base_commit) == systems_text(
            results,
            one,
            multi_arch,
            links,
            base_commit,
        ) + systems_text(results, two, multi_arch, links, base_commit),
{
    let show = |s: Seq<char>| system_text(results, s, multi_arch, links, base_commit);
    lemma_systems_are_pieces(results, seq![system], multi_arch, links, base_commit);
    lemma_systems_are_pieces(results, one, multi_arch, links, base_commit);
    lemma_systems_are_pieces(results, two, multi_arch, links, base_commit);
    lemma_systems_are_pieces(results, one + two, multi_arch, links, base_commit);
    lemma_pieces(show, one, two, system);
}

/// A section that has rows shows its head with the number of the rows, the rows and its
/// end; one that has none shows nothing.
#[verifier::rlimit(40)]
pub proof fn law_section_shows(
    section: Section,
    results: Seq<ResultText>,
    system: Seq<char>,
    links: LinkText,
    base_commit: Option<Seq<char>>,
)
    ensures
        ({
            let order = section_places(results, system, section);
            let text = section_text(section, results, system, links, base_commit);
            &&& order.len() == 0 ==> text.len() == 0
            &&& order.len() > 0 ==> text == section_head(section, order.len(), base_commit)
                + rows_text(section, results, order, links) + "\n</details>\n\n"@
            &&& order.len() > 0 ==> contains(
                text,
                section_head(section, order.len(), base_commit) + rows_text(
                    section,
                    results,
                    order,
                    links,
                ) + "\n</details>"@,
            )
        }),
{
    reveal_strlit("");
    let order = section_places(results, system, section);
    let head = section_head(section, order.len(), base_commit);
    let rows = rows_text(section, results, order, links);
    let text = section_text(section, results, system, links, base_commit);
    if order.len() > 0 {
        lemma_section_end();
        let part = head + rows + "\n</details>"@;
        assert(text == Seq::<char>::empty() + part + "\n\n"@);
        lemma_contains_middle(Seq::empty(), part, "\n\n"@);
    }
}

proof fn lemma_section_end()
    ensures
        "\n</details>\n\n"@ == "\n</details>"@ + "\n\n"@,
        "\n</details>"@.len() > 0,
        !is_space("\n</details>"@.last()),
{
    reveal_strlit("\n</details>\n\n");
    reveal_strlit("\n</details>");
    reveal_strlit("\n\n");
    assert("\n</details>\n\n"@ =~= "\n</details>"@ + "\n\n"@);
}

/// What is shown of a system is its three sections, whether or not there are several
/// systems; and where there are several, the name of the system stands above them.
#[verifier::rlimit(40)]
pub proof fn law_system_shows_sections(
    section: Section,
    results: Seq<ResultText>,
    system: Seq<char>,
    multi_arch: bool,
    links: LinkText,
    base_commit: Option<Seq<char>>,
)
    ensures
        contains(
            system_text(results, system, multi_arch, links, base_commit),
            section_text(section, results, system, links, base_commit),
        ),
        system_text(results, system, true, links, base_commit) == "### "@ + system + "\n\n"@
            + system_text(results, system, false, links, base_commit),
        system_text(results, system, false, links, base_commit) == section_text(
            Section::Introduced,
            results,
            system,
            links,
            base_commit,
        ) + section_text(Section::PreExisting, results, system, links, base_commit) + section_text(
            Section::Passed,
            results,
            system,
            links,
            base_commit,
        ),
{
    reveal_strlit("");
    let head = if multi_arch {
        "### "@ + system + "\n\n"@
    } else {
        ""@
    };
    let a = section_text(Section::Introduced, results, system, links, base_commit);
    let b = section_text(Section::PreExisting, results, system, links, base_commit);
    let c = section_text(Section::Passed, results, system, links, base_commit);
    let text = system_text(results, system, multi_arch, links, base_commit);
    let nothing = Seq::<char>::empty();
    lemma_five_parts(head, a, b, c, nothing);
    lemma_sums(head + a + b + c, nothing, nothing);
    let name = "### "@ + system + "\n\n"@;
    assert(""@ + a =~= a);
    assert(name + a + b + c =~= name + (a + b + c));
}

/// What ends with no white space stays where the end of a text is trimmed.
proof fn lemma_kept_by_trim(s: Seq<char>, part: Seq<char>)
    requires
        contains(s, part),
        part.len() > 0,
        !is_space(part.last()),
    ensures
        contains(trimmed_end(s), part),
{
    let i = choose|i: int| occurs_at(s, part, i);
    let n = i + part.len() - 1;
    assert(s.subrange(i, i + part.len())[part.len() - 1] == s[n]);
    law_trim_end_keeps(s, n);
    let out = trimmed_end(s);
    assert(out.subrange(i, i + part.len()) =~= s.subrange(i, i + part.len()));
    assert(occurs_at(out, part, i));
}

#[verifier::rlimit(40)]
proof fn lemma_comment_body(
    pr_num: nat,
    results: Seq<ResultText>,
    links: LinkText,
    base_commit: Option<Seq<char>>,
    head_commit: Option<Seq<char>>,
    cli_command: Option<Seq<char>>,
    part: Seq<char>,
)
    requires
        contains(
            systems_text(
                results,
                systems_in_order(results),
                systems_in_order(results).len() > 1,
                links,
                base_commit,
            ),
            part,
        ),
        part.len() > 0,
        !is_space(part.last()),
    ensures
        contains(
            comment_text(pr_num, results, links, base_commit, head_commit, cli_command),
            part,
        ),
{
    let systems = systems_in_order(results);
    let body = systems_text(results, systems, systems.len() > 1, links, base_commit);
    let front = "## srcbot: Full Evaluation Results for PR #"@ + decimal(pr_num) + "\n"@
        + commits_text(base_commit, head_commit) + command_text(cli_command) + status_text(results);
    let all = front + body;
    assert(all == front + body + Seq::<char>::empty());
    lemma_contains_middle(front, body, Seq::empty());
    lemma_contains_within(all, body, part);
    lemma_kept_by_trim(all, part);
}

proof fn lemma_system_in_systems(
    results: Seq<ResultText>,
    systems: Seq<Seq<char>>,
    multi_arch: bool,
    links: LinkText,
    base_commit: Option<Seq<char>>,
    j: int,
)
    requires
        0 <= j < systems.len(),
    ensures
        contains(
            systems_text(results, systems, multi_arch, links, base_commit),
            system_text(results, systems[j], multi_arch, links, base_commit),
        ),
{
    let one = systems.take(j);
    let two = systems.skip(j + 1);
    let here = seq![systems[j]];
    law_systems_in_turn(results, one, here, systems[j], multi_arch, links, base_commit);
    law_systems_in_turn(results, one + here, two, systems[j], multi_arch, links, base_commit);
    assert(one + here + two == systems);
    lemma_contains_middle(
        systems_text(results, one, multi_arch, links, base_commit),
        system_text(results, systems[j], multi_arch, links, base_commit),
        systems_text(results, two, multi_arch, links, base_commit),
    );
}

#[verifier::rlimit(40)]
proof fn lemma_row_in_section(
    section: Section,
    results: Seq<ResultText>,
    links: LinkText,
    base_commit: Option<Seq<char>>,
    i: int,
)
    requires
        0 <= i < results.len(),
        in_section(section, results[i]),
    ensures
        ({
            let system = system_of(results[i]);
            let order = section_places(results, system, section);
            let row = row_text(section, results[i], links);
            let rows = rows_text(section, results, order, links);
            let own = section_text(section, results, system, links, base_commit);
            let part = section_head(section, order.len(), base_commit) + rows + "\n</details>"@;
            &&& contains(rows, row)
            &&& contains(part, row)
            &&& contains(own, part)
            &&& contains(own, row)
            &&& part.len() > 0
            &&& !is_space(part.last())
        }),
{
    let system = system_of(results[i]);
    let order = section_places(results, system, section);
    let row = row_text(section, results[i], links);
    let rows = rows_text(section, results, order, links);
    let own = section_text(section, results, system, links, base_commit);
    let head = section_head(section, order.len(), base_commit);
    let part = head + rows + "\n</details>"@;
    law_section_rows(results, system, section, i);
    let k = choose|k: int| 0 <= k < order.len() && order[k] == i;
    lemma_row_in_rows(section, results, order, links, k);
    law_section_shows(section, results, system, links, base_commit);
    lemma_contains_middle(head, rows, "\n</details>"@);
    lemma_contains_within(part, rows, row);
    lemma_contains_within(own, part, row);
    lemma_section_end();
    assert(part.last() == "\n</details>"@.last());
}

/// Every result stands in the comment, whether or not there are several systems. What is
/// shown of its system holds the section that it belongs to, with the number of results
/// that stand in it; that section holds the row of the result; and the comment holds all
/// of this.
#[verifier::rlimit(40)]
pub proof fn law_every_result_is_shown(
    pr_num: nat,
    results: Seq<ResultText>,
    links: LinkText,
    base_commit: Option<Seq<char>>,
    head_commit: Option<Seq<char>>,
    cli_command: Option<Seq<char>>,
    section: Section,
    i: int,
)
    requires
        0 <= i < results.len(),
        in_section(section, results[i]),
    ensures
        ({
            let system = system_of(results[i]);
            let systems = systems_in_order(results);
            let multi = systems.len() > 1;
            let order = section_places(results, system, section);
            let row = row_text(section, results[i], links);
            let rows = rows_text(section, results, order, links);
            let own = section_text(section, results, system, links, base_commit);
            let shown = system_text(results, system, multi, links, base_commit);
            let comment = comment_text(
                pr_num,
                results,
                links,
                base_commit,
                head_commit,
                cli_command,
            );
            &&& contains(rows, row)
            &&& contains(own, row)
            &&& contains(shown, own)
            &&& contains(systems_text(results, systems, multi, links, base_commit), shown)
            &&& contains(
                comment,
                section_head(
                    section,
                    results.filter(
                        |r: ResultText| system_of(r) == system && in_section(section, r),
                    ).len(),
                    base_commit,
                ) + rows + "\n</details>"@,
            )
            &&& contains(comment, row)
        }),
{
    let system = system_of(results[i]);
    let systems = systems_in_order(results);
    let multi = systems.len() > 1;
    let order = section_places(results, system, section);
    let row = row_text(section, results[i], links);
    let rows = rows_text(section, results, order, links);
    let own = section_text(section, results, system, links, base_commit);
    let shown = system_text(results, system, multi, links, base_commit);
    let body = systems_text(results, systems, multi, links, base_commit);
    let part = section_head(section, order.len(), base_commit) + rows + "\n</details>"@;
    lemma_row_in_section(section, results, links, base_commit, i);
    law_system_shows_sections(section, results, system, multi, links, base_commit);
    law_systems_shown(results);
    let j = choose|j: int| 0 <= j < systems.len() && systems[j] == system;
    lemma_system_in_systems(results, systems, multi, links, base_commit, j);
    lemma_contains_within(body, shown, own);
    lemma_contains_within(body, own, part);
    lemma_comment_body(
        pr_num,
        results,
        links,
        base_commit,
        head_commit,
        cli_command,
        part,
    );
    law_section_count(results, system, section);
    lemma_contains_within(
        comment_text(pr_num, results, links, base_commit, head_commit, cli_command),
        part,
        row,
    );
}

/// What stands above a table tells which section it is and how many rows it has.
#[verifier::rlimit(40)]
pub proof fn law_section_head_tells(n: nat, base_commit: Option<Seq<char>>)
    ensures
        contains(
            section_head(Section::Introduced, n, base_commit),
            "Failed Packages (introduced by this PR) - "@ + decimal(n) + " packages"@,
        ),
        contains(
            section_head(Section::PreExisting, n, base_commit),
            "Pre-existing Failures (false positives) - "@ + decimal(n) + " packages"@,
        ),
        contains(
            section_head(Section::Passed, n, base_commit),
            decimal(n) + " packages passed"@,
        ),
        base_commit matches Some(c) ==> contains(
            section_head(Section::PreExisting, n, base_commit),
            "`"@ + byte_prefix(c, 8) + "`"@,
        ),
{
    lemma_head_words();
    let d = decimal(n);
    let open = "<details>\n<summary>"@;
    let a = "Failed Packages (introduced by this PR) - "@ + d + " packages"@;
    let a_rest = "</summary>\n\n| Package | Steps |\n|---------|-------|\n"@;
    assert(section_head(Section::Introduced, n, base_commit) == open + a + a_rest);
    lemma_contains_middle(open, a, a_rest);
    let b = "Pre-existing Failures (false positives) - "@ + d + " packages"@;
    let note = match base_commit {
        Some(commit) => "These packages also fail on the base branch (`"@ + short_commit(commit)
            + "`).\n\n"@,
        None => "These packages also fail on the base branch.\n\n"@,
    };
    let table = "| Package | Steps |\n|---------|-------|\n"@;
    let b_rest = "</summary>\n\n"@ + note + table;
    assert(section_head(Section::PreExisting, n, base_commit) == open + b + b_rest);
    lemma_contains_middle(open, b, b_rest);
    let c = d + " packages passed"@;
    let c_rest = "</summary>\n\n| Package | Steps Built |\n|---------|-------------|\n"@;
    assert(section_head(Section::Passed, n, base_commit) == open + c + c_rest);
    lemma_contains_middle(open, c, c_rest);
    if base_commit is Some {
        let short = byte_prefix(base_commit->0, 8);
        let mid = "`"@ + short + "`"@;
        let front = open + b + "</summary>\n\n"@ + "These packages also fail on the base branch ("@;
        let back = ").\n\n"@ + table;
        assert(section_head(Section::PreExisting, n, base_commit) == front + mid + back);
        lemma_contains_middle(front, mid, back);
    }
}

#[verifier::rlimit(40)]
proof fn lemma_head_words()
    ensures
        "<details>\n<summary>Failed Packages (introduced by this PR) - "@
            == "<details>\n<summary>"@ + "Failed Packages (introduced by this PR) - "@,
        " packages</summary>\n\n| Package | Steps |\n|---------|-------|\n"@ == " packages"@
            + "</summary>\n\n| Package | Steps |\n|---------|-------|\n"@,
        "<details>\n<summary>Pre-existing Failures (false positives) - "@
            == "<details>\n<summary>"@ + "Pre-existing Failures (false positives) - "@,
        " packages</summary>\n\n"@ == " packages"@ + "</summary>\n\n"@,
        " packages passed</summary>\n\n| Package | Steps Built |\n|---------|-------------|\n"@
            == " packages passed"@
            + "</summary>\n\n| Package | Steps Built |\n|---------|-------------|\n"@,
        "These packages also fail on the base branch (`"@
            == "These packages also fail on the base branch ("@ + "`"@,
        "`).\n\n"@ == "`"@ + ").\n\n"@,
{
    reveal_strlit("<details>\n<summary>Failed Packages (introduced by this PR) - ");
    reveal_strlit("<details>\n<summary>");
    reveal_strlit("Failed Packages (introduced by this PR) - ");
    assert("<details>\n<summary>Failed Packages (introduced by this PR) - "@
        =~= "<details>\n<summary>"@ + "Failed Packages (introduced by this PR) - "@);
    reveal_strlit(" packages</summary>\n\n| Package | Steps |\n|---------|-------|\n");
    reveal_strlit(" packages");
    reveal_strlit("</summary>\n\n| Package | Steps |\n|---------|-------|\n");
    assert(" packages</summary>\n\n| Package | Steps |\n|---------|-------|\n"@ =~= " packages"@
        + "</summary>\n\n| Package | Steps |\n|---------|-------|\n"@);
    reveal_strlit("<details>\n<summary>Pre-existing Failures (false positives) - ");
    reveal_strlit("Pre-existing Failures (false positives) - ");
    assert("<details>\n<summary>Pre-existing Failures (false positives) - "@
        =~= "<details>\n<summary>"@ + "Pre-existing Failures (false positives) - "@);
    reveal_strlit(" packages</summary>\n\n");
    reveal_strlit("</summary>\n\n");
    assert(" packages</summary>\n\n"@ =~= " packages"@ + "</summary>\n\n"@);
    reveal_strlit(
        " packages passed</summary>\n\n| Package | Steps Built |\n|---------|-------------|\n",
    );
    reveal_strlit(" packages passed");
    reveal_strlit("</summary>\n\n| Package | Steps Built |\n|---------|-------------|\n");
    assert(
    " packages passed</summary>\n\n| Package | Steps Built |\n|---------|-------------|\n"@
        =~= " packages passed"@
        + "</summary>\n\n| Package | Steps Built |\n|---------|-------------|\n"@);
    reveal_strlit("These packages also fail on the base branch (`");
    reveal_strlit("These packages also fail on the base branch (");
    reveal_strlit("`");
    assert("These packages also fail on the base branch (`"@
        =~= "These packages also fail on the base branch ("@ + "`"@);
    reveal_strlit("`).\n\n");
    reveal_strlit(").\n\n");
    assert("`).\n\n"@ =~= "`"@ + ").\n\n"@);
}

/// The row of a result begins with its attribute path, marked in the one case that it
/// passed and building it again showed a mismatch; and it holds the steps of the result,
/// with their outcomes unless it passed.
#[verifier::rlimit(40)]
pub proof fn law_row_tells(section: Section, r: ResultText, links: LinkText)
    ensures
        section is Passed && r.non_deterministic ==> row_text(section, r, links) == "| "@ + r.attr
            + " (non-deterministic)"@ + " | "@ + steps_text(r, links, false) + " |\n"@,
        section is Passed && !r.non_deterministic ==> row_text(section, r, links) == "| "@ + r.attr
            + " | "@ + steps_text(r, links, false) + " |\n"@,
        !(section is Passed) ==> row_text(section, r, links) == "| "@ + r.attr + " | "@
            + steps_text(r, links, true) + " |\n"@,
{
    reveal_strlit("");
    assert("| "@ + r.attr + ""@ == "| "@ + r.attr);
}

proof fn lemma_part_in_join(parts: Seq<Seq<char>>, sep: Seq<char>, k: int)
    requires
        0 <= k < parts.len(),
    ensures
        contains(join(parts, sep), parts[k]),
    decreases parts.len(),
{
    if parts.len() == 1 {
        let nothing = Seq::<char>::empty();
        assert(parts[k] == nothing + parts[k] + nothing);
        lemma_contains_middle(nothing, parts[k], nothing);
    } else if k == parts.len() - 1 {
        let front = join(parts.drop_last(), sep) + sep;
        assert(join(parts, sep) == front + parts[k] + Seq::<char>::empty());
        lemma_contains_middle(front, parts[k], Seq::empty());
    } else {
        let front = parts.drop_last();
        lemma_part_in_join(front, sep, k);
        let nothing = Seq::<char>::empty();
        let rest = sep + parts.last();
        assert(join(parts, sep) == nothing + join(front, sep) + rest);
        lemma_contains_middle(nothing, join(front, sep), rest);
        lemma_contains_within(join(parts, sep), join(front, sep), parts[k]);
    }
}

proof fn lemma_link_words()
    ensures
        ".log)"@ == ".log"@ + ")"@,
        ".log) (passed)"@ == ".log"@ + ") (passed)"@,
        ".log) (failed)"@ == ".log"@ + ") (failed)"@,
        ".log), [after]("@ == ".log"@ + "), [after]("@,
{
    reveal_strlit(".log)");
    reveal_strlit(".log");
    reveal_strlit(")");
    reveal_strlit(".log) (passed)");
    reveal_strlit(") (passed)");
    reveal_strlit(".log) (failed)");
    reveal_strlit(") (failed)");
    reveal_strlit(".log), [after](");
    reveal_strlit("), [after](");
    assert(".log)"@ =~= ".log"@ + ")"@);
    assert(".log) (passed)"@ =~= ".log"@ + ") (passed)"@);
    assert(".log) (failed)"@ =~= ".log"@ + ") (failed)"@);
    assert(".log), [after]("@ =~= ".log"@ + "), [after]("@);
}

/// How a step is shown: without an address for the logs by its name; with one and no
/// outcomes wanted, as a link to its log; else with its outcome too, and where it failed
/// and there is a log of it on the base branch, with links to both logs.
#[verifier::rlimit(40)]
pub proof fn law_step_tells(
    r: ResultText,
    base: Seq<char>,
    commit: Seq<char>,
    links: LinkText,
    name: Seq<char>,
    ok: bool,
)
    requires
        base == or_empty(links.base),
        commit == or_empty(links.commit),
    ensures
        ({
            let text = step_text(r, base, commit, style_of(r, links, true), (name, ok));
            let plain = step_text(r, base, commit, style_of(r, links, false), (name, ok));
            let log = base + "/"@ + system_of(r) + "."@ + attr_safe(r.attr) + "."@ + name;
            &&& links.base is None ==> text == name && plain == name
            &&& links.base is Some ==> plain == "["@ + name + "]("@ + log + ".log)"@
            &&& links.base is Some && ok ==> text == "["@ + name + "]("@ + log + ".log) (passed)"@
            &&& links.base is Some && !ok && links.commit is Some && r.on_base ==> text == name
                + " (failed): [before]("@ + log + ".base-"@ + commit + ".log), [after]("@ + log
                + ".log)"@
            &&& links.base is Some && !ok && !(links.commit is Some && r.on_base) ==> text == "["@
                + name + "]("@ + log + ".log) (failed)"@
        }),
{
    lemma_link_words();
    let log = base + "/"@ + system_of(r) + "."@ + attr_safe(r.attr) + "."@ + name;
    let url = url_under(base, log_name(system_of(r), r.attr, name));
    assert(url =~= log + ".log"@);
    let old_url = url_under(base, base_log_name(system_of(r), r.attr, name, commit));
    assert(old_url =~= log + ".base-"@ + commit + ".log"@);
    lemma_link_sums(name, log, commit);
}

#[verifier::rlimit(40)]
proof fn lemma_link_sums(name: Seq<char>, log: Seq<char>, commit: Seq<char>)
    ensures
        "["@ + name + "]("@ + (log + ".log"@) + ")"@ == "["@ + name + "]("@ + log + (".log"@
            + ")"@),
        "["@ + name + "]("@ + (log + ".log"@) + ") (passed)"@ == "["@ + name + "]("@ + log + (
        ".log"@ + ") (passed)"@),
        "["@ + name + "]("@ + (log + ".log"@) + ") (failed)"@ == "["@ + name + "]("@ + log + (
        ".log"@ + ") (failed)"@),
        name + " (failed): [before]("@ + (log + ".base-"@ + commit + ".log"@) + "), [after]("@ + (
        log + ".log"@) + ")"@ == name + " (failed): [before]("@ + log + ".base-"@ + commit + (
        ".log"@ + "), [after]("@) + log + (".log"@ + ")"@),
{
    assert("["@ + name + "]("@ + (log + ".log"@) + ")"@ =~= "["@ + name + "]("@ + log + (".log"@
        + ")"@));
    assert("["@ + name + "]("@ + (log + ".log"@) + ") (passed)"@ =~= "["@ + name + "]("@ + log + (
    ".log"@ + ") (passed)"@));
    assert("["@ + name + "]("@ + (log + ".log"@) + ") (failed)"@ =~= "["@ + name + "]("@ + log + (
    ".log"@ + ") (failed)"@));
    assert(name + " (failed): [before]("@ + (log + ".base-"@ + commit + ".log"@) + "), [after]("@
        + (log + ".log"@) + ")"@ =~= name + " (failed): [before]("@ + log + ".base-"@ + commit + (
    ".log"@ + "), [after]("@) + log + (".log"@ + ")"@));
}

/// The steps are shown in their order, the package behind them, with a dot between them
/// where outcomes are shown and else a comma.
pub proof fn law_steps_in_order(r: ResultText, links: LinkText, labelled: bool)
    ensures
        steps_text(r, links, labelled) == join(
            Seq::new(
                r.steps.len() + 1,
                |k: int|
                    step_text(
                        r,
                        or_empty(links.base),
                        or_empty(links.commit),
                        style_of(r, links, labelled),
                        if k < r.steps.len() {
                            (r.steps[k].0, r.steps[k].1)
                        } else {
                            ("package"@, r.success)
                        },
                    ),
            ),
            if labelled && links.base is Some {
                " · "@
            } else {
                ", "@
            },
        ),
        links.base matches Some(base) ==> or_empty(links.base) == base,
        links.commit matches Some(commit) ==> or_empty(links.commit) == commit,
{
    let style = style_of(r, links, labelled);
    let show = |s: (Seq<char>, bool)|
        step_text(r, or_empty(links.base), or_empty(links.commit), style, s);
    let parts = steps_of(r).map_values(show);
    let shown = Seq::new(
        r.steps.len() + 1,
        |k: int|
            step_text(
                r,
                or_empty(links.base),
                or_empty(links.commit),
                style,
                if k < r.steps.len() {
                    (r.steps[k].0, r.steps[k].1)
                } else {
                    ("package"@, r.success)
                },
            ),
    );
    assert forall|k: int| 0 <= k < parts.len() implies #[trigger] parts[k] == shown[k] by {
        if k < r.steps.len() {
            assert(steps_of(r)[k] == (r.steps[k].0, r.steps[k].1));
        } else {
            assert(steps_of(r)[k] == ("package"@, r.success));
        }
    }
    assert(parts =~= shown);
}

/// Every step of a result stands in its row.
pub proof fn law_every_step_is_shown(r: ResultText, links: LinkText, labelled: bool, k: int)
    requires
        0 <= k < r.steps.len(),
    ensures
        contains(
            steps_text(r, links, labelled),
            step_text(
                r,
                or_empty(links.base),
                or_empty(links.commit),
                style_of(r, links, labelled),
                (r.steps[k].0, r.steps[k].1),
            ),
        ),
{
    let style = style_of(r, links, labelled);
    let show = |s: (Seq<char>, bool)|
        step_text(r, or_empty(links.base), or_empty(links.commit), style, s);
    let parts = steps_of(r).map_values(show);
    assert(steps_of(r)[k] == (r.steps[k].0, r.steps[k].1));
    assert(parts[k] == show((r.steps[k].0, r.steps[k].1)));
    lemma_part_in_join(parts, step_separator(style), k);
}

proof fn lemma_comment_is_trimmed(
    pr_num: nat,
    results: Seq<ResultText>,
    links: LinkText,
    base_commit: Option<Seq<char>>,
    head_commit: Option<Seq<char>>,
    cli_command: Option<Seq<char>>,
)
    ensures
        comment_text(pr_num, results, links, base_commit, head_commit, cli_command)
            == trimmed_end(
            "## srcbot: Full Evaluation Results for PR #"@ + decimal(pr_num) + "\n"@ + commits_text(
                base_commit,
                head_commit,
            ) + command_text(cli_command) + status_text(results) + systems_text(
                results,
                systems_in_order(results),
                systems_in_order(results).len() > 1,
                links,
                base_commit,
            ),
        ),
{
}

/// The comment begins with the number of the pull request. Up to white space at its end,
/// it holds the commits, the command, the line that counts the results and then what is
/// shown of each system, and nothing else.
#[verifier::rlimit(40)]
pub proof fn law_comment_tells(
    pr_num: nat,
    results: Seq<ResultText>,
    links: LinkText,
    base_commit: Option<Seq<char>>,
    head_commit: Option<Seq<char>>,
    cli_command: Option<Seq<char>>,
)
    ensures
        exists|end: Seq<char>|
            ({
                let text = #[trigger] (comment_text(
                    pr_num,
                    results,
                    links,
                    base_commit,
                    head_commit,
                    cli_command,
                ) + end);
                &&& forall|k: int| 0 <= k < end.len() ==> is_space(#[trigger] end[k])
                &&& text == "## srcbot: Full Evaluation Results for PR #"@ + decimal(pr_num)
                    + "\n"@ + commits_text(base_commit, head_commit) + command_text(cli_command)
                    + status_text(results) + systems_text(
                    results,
                    systems_in_order(results),
                    systems_in_order(results).len() > 1,
                    links,
                    base_commit,
                )
                &&& crate::search::starts_with(
                    text,
                    "## srcbot: Full Evaluation Results for PR #"@ + decimal(pr_num) + "\n"@,
                )
                &&& contains(text, commits_text(base_commit, head_commit))
                &&& contains(text, command_text(cli_command))
                &&& contains(text, status_text(results))
            }),
{
    let systems = systems_in_order(results);
    let a = "## srcbot: Full Evaluation Results for PR #"@ + decimal(pr_num) + "\n"@;
    let b = commits_text(base_commit, head_commit);
    let c = command_text(cli_command);
    let d = status_text(results);
    let e = systems_text(results, systems, systems.len() > 1, links, base_commit);
    let all = a + b + c + d + e;
    lemma_comment_is_trimmed(pr_num, results, links, base_commit, head_commit, cli_command);
    let comment = comment_text(pr_num, results, links, base_commit, head_commit, cli_command);
    law_trim_takes_only_space(all);
    let end = choose|end: Seq<char>|
        all == #[trigger] (trimmed_end(all) + end) && (forall|k: int|
            0 <= k < end.len() ==> is_space(#[trigger] end[k]));
    assert(comment + end == all);
    lemma_five_parts(a, b, c, d, e);
}

/// The line that counts the results tells how many passed, of how many, and how many
/// failed; and where there are some, how many failures are there on the base branch too,
/// how many results showed a mismatch and, where there are several, of how many systems.
#[verifier::rlimit(40)]
pub proof fn law_status_tells(results: Seq<ResultText>)
    ensures
        ({
            let text = status_text(results);
            let passed = results.filter(|r: ResultText| r.success).len();
            let failed = results.filter(|r: ResultText| !r.success).len();
            let there = results.filter(|r: ResultText| !r.success && r.false_positive).len();
            let odd = results.filter(|r: ResultText| r.non_deterministic).len();
            let systems = systems_in_order(results).len();
            &&& crate::search::starts_with(
                text,
                "\n**Status**: "@ + decimal(passed) + "/"@ + decimal(results.len())
                    + " packages passed, "@ + decimal(failed) + " failed"@,
            )
            &&& there > 0 ==> contains(text, " ("@ + decimal(there) + " pre-existing)"@)
            &&& odd > 0 ==> contains(text, ", "@ + decimal(odd) + " non-deterministic"@)
            &&& systems > 1 ==> contains(text, " across "@ + decimal(systems) + " architectures"@)
            &&& text == "\n**Status**: "@ + decimal(passed) + "/"@ + decimal(results.len())
                + " packages passed, "@ + decimal(failed) + " failed"@ + (if there > 0 {
                " ("@ + decimal(there) + " pre-existing)"@
            } else {
                ""@
            }) + (if odd > 0 {
                ", "@ + decimal(odd) + " non-deterministic"@
            } else {
                ""@
            }) + (if systems > 1 {
                " across "@ + decimal(systems) + " architectures"@
            } else {
                ""@
            }) + "\n\n"@
        }),
{
    law_tallies(results);
    reveal_strlit("");
    let text = status_text(results);
    let passed = tally(Tally::Passed, results);
    let failed = tally(Tally::Failed, results);
    let there = tally(Tally::PreExisting, results);
    let odd = tally(Tally::NonDeterministic, results);
    let systems = systems_in_order(results).len();
    let a = "\n**Status**: "@ + decimal(passed) + "/"@ + decimal(results.len())
        + " packages passed, "@ + decimal(failed) + " failed"@;
    let b = count_note(" ("@, there, " pre-existing)"@);
    let c = count_note(", "@, odd, " non-deterministic"@);
    let d = if systems > 1 {
        " across "@ + decimal(systems) + " architectures"@
    } else {
        ""@
    };
    let e = "\n\n"@;
    assert(text == a + b + c + d + e);
    assert(text.subrange(0, a.len() as int) == a);
    assert(text == a + b + (c + d + e));
    lemma_contains_middle(a, b, c + d + e);
    assert(text == (a + b) + c + (d + e));
    lemma_contains_middle(a + b, c, d + e);
    lemma_contains_middle(a + b + c, d, e);
}

/// The commits that are known are shown by their first eight bytes, each as what it is,
/// and none else.
pub proof fn law_commits_tell(base: Seq<char>, head: Seq<char>)
    ensures
        ({
            let b = byte_prefix(base, 8);
            let h = byte_prefix(head, 8);
            &&& contains(commits_text(Some(base), Some(head)), "base commit `"@ + b + "`"@)
            &&& contains(commits_text(Some(base), Some(head)), "head of PR commit `"@ + h + "`"@)
            &&& contains(commits_text(Some(base), None), "base commit: `"@ + b + "`"@)
            &&& contains(commits_text(None, Some(head)), "head of PR commit: `"@ + h + "`"@)
            &&& commits_text(None, None).len() == 0
        }),
{
    reveal_strlit("");
    lemma_commit_words(byte_prefix(base, 8), byte_prefix(head, 8));
}

#[verifier::rlimit(40)]
proof fn lemma_commit_words(b: Seq<char>, h: Seq<char>)
    ensures
        contains(
            "\ncompared base commit `"@ + b + "` against head of PR commit `"@ + h + "`\n"@,
            "base commit `"@ + b + "`"@,
        ),
        contains(
            "\ncompared base commit `"@ + b + "` against head of PR commit `"@ + h + "`\n"@,
            "head of PR commit `"@ + h + "`"@,
        ),
        contains("\nbase commit: `"@ + b + "`\n"@, "base commit: `"@ + b + "`"@),
        contains("\nhead of PR commit: `"@ + h + "`\n"@, "head of PR commit: `"@ + h + "`"@),
{
    reveal_strlit("\ncompared base commit `");
    reveal_strlit("\ncompared ");
    reveal_strlit("base commit `");
    reveal_strlit("` against head of PR commit `");
    reveal_strlit("`");
    reveal_strlit(" against ");
    reveal_strlit("head of PR commit `");
    reveal_strlit("`\n");
    reveal_strlit("\n");
    reveal_strlit("\nbase commit: `");
    reveal_strlit("base commit: `");
    reveal_strlit("\nhead of PR commit: `");
    reveal_strlit("head of PR commit: `");
    let tick = "`"@;
    let feed = "\n"@;
    assert("\ncompared base commit `"@ =~= "\ncompared "@ + "base commit `"@);
    assert("` against head of PR commit `"@ =~= tick + " against "@ + "head of PR commit `"@);
    assert("`\n"@ =~= tick + feed);
    assert("\nbase commit: `"@ =~= feed + "base commit: `"@);
    assert("\nhead of PR commit: `"@ =~= feed + "head of PR commit: `"@);
    let both = "\ncompared base commit `"@ + b + "` against head of PR commit `"@ + h + "`\n"@;
    let one = "base commit `"@ + b + tick;
    let two = "head of PR commit `"@ + h + tick;
    assert(both =~= "\ncompared "@ + one + (" against "@ + two + feed));
    lemma_contains_middle("\ncompared "@, one, " against "@ + two + feed);
    assert(both =~= ("\ncompared "@ + one + " against "@) + two + feed);
    lemma_contains_middle("\ncompared "@ + one + " against "@, two, feed);
    let three = "base commit: `"@ + b + tick;
    assert("\nbase commit: `"@ + b + "`\n"@ =~= feed + three + feed);
    lemma_contains_middle(feed, three, feed);
    let four = "head of PR commit: `"@ + h + tick;
    assert("\nhead of PR commit: `"@ + h + "`\n"@ =~= feed + four + feed);
    lemma_contains_middle(feed, four, feed);
}

/// A command that is known and not empty is shown, each of its flags on a line of its
/// own and nothing of it lost; another is not.
#[verifier::rlimit(40)]
pub proof fn law_command_tells(cmd: Seq<char>)
    ensures
        cmd.len() > 0 ==> contains(
            command_text(Some(cmd)),
            "```bash\n"@ + formatted_command(cmd) + "\n```"@,
        ),
        cmd.len() == 0 ==> command_text(Some(cmd)).len() == 0,
        command_text(None).len() == 0,
        formatted_command(cmd) == join(split(cmd, " --"@), " \\\n  --"@),
        join(split(cmd, " --"@), " --"@) == cmd,
{
    reveal_strlit("");
    reveal_strlit(" --");
    crate::search::law_split_joins_back(cmd, " --"@);
    if cmd.len() > 0 {
        reveal_strlit("\n<details>\n<summary>Command</summary>\n\n```bash\n");
        reveal_strlit("\n<details>\n<summary>Command</summary>\n\n");
        reveal_strlit("```bash\n");
        reveal_strlit("\n```\n</details>\n");
        reveal_strlit("\n```");
        reveal_strlit("\n</details>\n");
        let front = "\n<details>\n<summary>Command</summary>\n\n"@;
        let back = "\n</details>\n"@;
        assert("\n<details>\n<summary>Command</summary>\n\n```bash\n"@ =~= front
            + "```bash\n"@);
        assert("\n```\n</details>\n"@ =~= "\n```"@ + back);
        let mid = "```bash\n"@ + formatted_command(cmd) + "\n```"@;
        assert(command_text(Some(cmd)) == front + mid + back);
        lemma_contains_middle(front, mid, back);
    }
}

/// The log of a step is named by the system, the attribute path and the step, and that of
/// a build on the base branch by its commit too: logs of different systems, steps or
/// commits do not get in each other's way where the other parts are the same.
#[verifier::rlimit(40)]
pub proof fn law_log_names(
    system: Seq<char>,
    attr: Seq<char>,
    step: Seq<char>,
    other: Seq<char>,
    commit: Seq<char>,
)
    ensures
        log_name(system, attr, step) == system + "."@ + attr_safe(attr) + "."@ + step + ".log"@,
        base_log_name(system, attr, step, commit) == system + "."@ + attr_safe(attr) + "."@ + step
            + ".base-"@ + commit + ".log"@,
        step != other ==> log_name(system, attr, step) != log_name(system, attr, other),
        system != other ==> log_name(system, attr, step) != log_name(other, attr, step),
        commit != other ==> base_log_name(system, attr, step, commit) != base_log_name(
            system,
            attr,
            step,
            other,
        ),
{
    if log_name(system, attr, step) == log_name(system, attr, other) {
        lemma_middle_same(system + "."@ + attr_safe(attr) + "."@, step, other, ".log"@);
    }
    let back = "."@ + attr_safe(attr) + "."@ + step + ".log"@;
    assert(log_name(system, attr, step) == Seq::<char>::empty() + system + back);
    assert(log_name(other, attr, step) == Seq::<char>::empty() + other + back);
    if log_name(system, attr, step) == log_name(other, attr, step) {
        lemma_middle_same(Seq::empty(), system, other, back);
    }
    if base_log_name(system, attr, step, commit) == base_log_name(system, attr, step, other) {
        lemma_middle_same(
            system + "."@ + attr_safe(attr) + "."@ + step + ".base-"@,
            commit,
            other,
            ".log"@,
        );
    }
}

proof fn lemma_middle_same(a: Seq<char>, one: Seq<char>, two: Seq<char>, b: Seq<char>)
    requires
        a + one + b == a + two + b,
    ensures
        one == two,
{
    let s = a + one + b;
    let u = a + two + b;
    assert(s.len() == u.len());
    assert(s.len() == a.len() + one.len() + b.len());
    assert(u.len() == a.len() + two.len() + b.len());
    let k = a.len() as int;
    let n = one.len() as int;
    assert(one =~= s.subrange(k, k + n));
    assert(two =~= u.subrange(k, k + n));
}

} // verus!
