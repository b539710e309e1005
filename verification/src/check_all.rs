//! Building an intermediate attribute of every package of a set.

use vstd::prelude::*;
use vstd::utf8::is_ascii_chars;

use crate::attr_map::{inserted, AttrMap};
use crate::full_eval::{drv_of, has_intermediate};
use crate::full_eval_types::{eval_texts, EvalJobOutput, EvalText};
use crate::numbers::{decimal, decimal_usize};
use crate::order::places;
use crate::outside::{ascii_lower, lowercased, to_lower};
use crate::search::{
    contains, lemma_contains_middle, lemma_contains_within, lines, lines_of, str_contains,
};
use crate::text::{chars_of, copy_opt, join, join_all, no_texts, opt_text, push_text, texts};
use crate::types::{intermediates, INTERMEDIATE_ATTRS};

verus! {

// ---------------------------------------------------------------------------
// Failures

/// What kind of failure a build ended in.
#[derive(Clone, Copy, PartialEq, Eq, Structural, Debug)]
pub enum FailureType {
    HashMismatch,
    NotFound404,
    EvalError,
    Unknown,
}

impl FailureType {
    /// The name of a kind of failure.
    pub open spec fn name(self) -> Seq<char> {
        match self {
            FailureType::HashMismatch => "Hash mismatch"@,
            FailureType::NotFound404 => "404 Not Found"@,
            FailureType::EvalError => "Eval error"@,
            FailureType::Unknown => "Unknown"@,
        }
    }

    /// Names a kind of failure.
    pub fn to_string(&self) -> (name: String)
        ensures
            name@ == self.name(),
    {
        match self {
            FailureType::HashMismatch => "Hash mismatch".to_string(),
            FailureType::NotFound404 => "404 Not Found".to_string(),
            FailureType::EvalError => "Eval error".to_string(),
            FailureType::Unknown => "Unknown".to_string(),
        }
    }
}

/// The kind of failure that a log in small letters tells of.
pub open spec fn failure_in(log: Seq<char>) -> FailureType {
    if contains(log, "hash mismatch"@) || contains(log, "got:"@) || contains(log, "specified:"@) {
        FailureType::HashMismatch
    } else if contains(log, "404"@) || contains(log, "not found"@) || contains(
        log,
        "could not be found"@,
    ) || contains(log, "does not exist"@) {
        FailureType::NotFound404
    } else {
        FailureType::Unknown
    }
}

/// Tells the kind of failure from a log in small letters.
pub fn classify_lowered(log: &str) -> (kind: FailureType)
    ensures
        kind == failure_in(log@),
{
    if str_contains(log, "hash mismatch") || str_contains(log, "got:") || str_contains(
        log,
        "specified:",
    ) {
        FailureType::HashMismatch
    } else if str_contains(log, "404") || str_contains(log, "not found") || str_contains(
        log,
        "could not be found",
    ) || str_contains(log, "does not exist") {
        FailureType::NotFound404
    } else {
        FailureType::Unknown
    }
}

/// Tells the kind of failure from a log. Capitals make no difference.
pub fn classify_failure(logs: &str) -> (kind: FailureType)
    ensures
        kind == failure_in(lowercased(logs@)),
        is_ascii_chars(logs@) ==> kind == failure_in(logs@.map_values(|c: char| ascii_lower(c))),
{
    classify_lowered(to_lower(logs).as_str())
}

/// A build that failed.
#[derive(Debug, Clone)]
pub struct BuildFailure {
    pub attr: String,
    pub intermediate: String,
    pub failure_type: FailureType,
    pub log_path: Option<String>,
    /// The first lines of the log.
    pub error_snippet: String,
}

/// What a failure says.
#[verifier::ext_equal]
pub struct FailureText {
    pub attr: Seq<char>,
    pub intermediate: Seq<char>,
    pub kind: FailureType,
    pub log_path: Option<Seq<char>>,
    pub snippet: Seq<char>,
}

impl View for BuildFailure {
    type V = FailureText;

    open spec fn view(&self) -> FailureText {
        FailureText {
            attr: self.attr@,
            intermediate: self.intermediate@,
            kind: self.failure_type,
            log_path: opt_text(self.log_path),
            snippet: self.error_snippet@,
        }
    }
}

/// What a list of failures says.
pub open spec fn failure_texts(list: Seq<BuildFailure>) -> Seq<FailureText> {
    list.map_values(|f: BuildFailure| f@)
}

/// The first `n` lines of a text.
pub open spec fn head_lines(s: Seq<char>, n: int) -> Seq<char> {
    let all = lines(s);
    join(
        if all.len() <= n {
            all
        } else {
            all.take(n)
        },
        "\n"@,
    )
}

/// Takes the first `n` lines of a text.
pub fn first_lines(s: &str, n: usize) -> (out: String)
    ensures
        out@ == head_lines(s@, n as int),
{
    let all = lines_of(s);
    let ghost every = texts(all@);
    let total: usize = all.len();
    let end: usize = if total <= n { total } else { n };
    let mut head = no_texts();
    for i in 0..end
        invariant
            every == texts(all@),
            end <= all@.len(),
            texts(head@) == every.take(i as int),
    {
        push_text(&mut head, all[i].as_str());
        assert(every.take(i + 1) == every.take(i as int).push(all@[i as int]@));
    }
    assert(every.take(total as int) == every);
    join_all(&head, "\n")
}

/// How many lines of a log are kept of a failure.
pub const SNIPPET_LINES: usize = 10;

/// The failure that a log tells of.
pub open spec fn failure_of(attr: Seq<char>, intermediate: Seq<char>, logs: Seq<char>) -> FailureText {
    FailureText {
        attr,
        intermediate,
        kind: failure_in(lowercased(logs)),
        log_path: None,
        snippet: head_lines(logs, SNIPPET_LINES as int),
    }
}

/// Makes the failure that a log tells of.
pub fn make_failure(attr: &str, intermediate: &str, logs: &str) -> (failure: BuildFailure)
    ensures
        failure@ == failure_of(attr@, intermediate@, logs@),
{
    BuildFailure {
        attr: attr.to_string(),
        intermediate: intermediate.to_string(),
        failure_type: classify_failure(logs),
        log_path: None,
        error_snippet: first_lines(logs, SNIPPET_LINES),
    }
}

/// Copies a failure.
pub fn copy_failure(failure: &BuildFailure) -> (out: BuildFailure)
    ensures
        out@ == failure@,
{
    BuildFailure {
        attr: failure.attr.clone(),
        intermediate: failure.intermediate.clone(),
        failure_type: failure.failure_type,
        log_path: copy_opt(&failure.log_path),
        error_snippet: failure.error_snippet.clone(),
    }
}

// ---------------------------------------------------------------------------
// Summaries

/// What came of building one intermediate attribute.
#[derive(Debug, Clone)]
pub struct IntermediateSummary {
    pub attempted: usize,
    pub passed: usize,
    pub failed: usize,
    pub failures: Vec<BuildFailure>,
}

/// What a summary says.
#[verifier::ext_equal]
pub struct SummaryText {
    pub attempted: int,
    pub passed: int,
    pub failed: int,
    pub failures: Seq<FailureText>,
}

impl View for IntermediateSummary {
    type V = SummaryText;

    open spec fn view(&self) -> SummaryText {
        SummaryText {
            attempted: self.attempted as int,
            passed: self.passed as int,
            failed: self.failed as int,
            failures: failure_texts(self.failures@),
        }
    }
}

/// A summary before anything was built.
pub open spec fn fresh_summary(attempted: int) -> SummaryText {
    SummaryText { attempted, passed: 0, failed: 0, failures: Seq::empty() }
}

impl Default for IntermediateSummary {
    fn default() -> (summary: Self)
        ensures
            summary@ == fresh_summary(0),
    {
        let summary = IntermediateSummary {
            attempted: 0,
            passed: 0,
            failed: 0,
            failures: Vec::new(),
        };
        assert(summary@.failures == Seq::<FailureText>::empty());
        summary
    }
}

/// One build that ended.
pub struct OutcomeText {
    pub attr: Seq<char>,
    pub intermediate: Seq<char>,
    pub success: bool,
    pub logs: Seq<char>,
}

/// A summary after a build ended.
pub open spec fn recorded(s: SummaryText, o: OutcomeText) -> SummaryText {
    if o.success {
        SummaryText { passed: s.passed + 1, ..s }
    } else {
        SummaryText {
            failed: s.failed + 1,
            failures: s.failures.push(failure_of(o.attr, o.intermediate, o.logs)),
            ..s
        }
    }
}

/// A summary after a list of builds ended.
pub open spec fn recorded_all(s: SummaryText, outcomes: Seq<OutcomeText>) -> SummaryText
    decreases outcomes.len(),
{
    if outcomes.len() == 0 {
        s
    } else {
        recorded(recorded_all(s, outcomes.drop_last()), outcomes.last())
    }
}

impl IntermediateSummary {
    /// A summary before anything was built.
    pub fn start(attempted: usize) -> (summary: Self)
        ensures
            summary@ == fresh_summary(attempted as int),
    {
        let summary = IntermediateSummary {
            attempted,
            passed: 0,
            failed: 0,
            failures: Vec::new(),
        };
        assert(summary@.failures == Seq::<FailureText>::empty());
        summary
    }

    /// Records a build that ended. No more builds may end than were attempted.
    pub fn record(&mut self, attr: &str, intermediate: &str, success: bool, logs: &str)
        requires
            old(self).passed + old(self).failed < old(self).attempted,
        ensures
            final(self)@ == recorded(
                old(self)@,
                (OutcomeText {
                    attr: attr@,
                    intermediate: intermediate@,
                    success,
                    logs: logs@,
                }),
            ),
    {
        if success {
            self.passed = self.passed + 1;
        } else {
            self.failed = self.failed + 1;
            let failure = make_failure(attr, intermediate, logs);
            let ghost before = failure_texts(self.failures@);
            let ghost what = failure@;
            self.failures.push(failure);
            assert(failure_texts(self.failures@) == before.push(what));
        }
    }
}

/// How many builds of a list failed.
pub open spec fn failures_among(outcomes: Seq<OutcomeText>) -> nat
    decreases outcomes.len(),
{
    if outcomes.len() == 0 {
        0
    } else {
        failures_among(outcomes.drop_last()) + if outcomes.last().success {
            0nat
        } else {
            1nat
        }
    }
}

/// Once builds have ended, those that passed and those that failed add up to them,
/// the failures are those that failed, and one is listed for each.
pub proof fn law_summary_adds_up(attempted: int, outcomes: Seq<OutcomeText>)
    ensures
        ({
            let s = recorded_all(fresh_summary(attempted), outcomes);
            &&& s.attempted == attempted
            &&& s.passed + s.failed == outcomes.len()
            &&& s.failed == failures_among(outcomes)
            &&& s.failures.len() == s.failed
        }),
    decreases outcomes.len(),
{
    if outcomes.len() > 0 {
        law_summary_adds_up(attempted, outcomes.drop_last());
    }
}

/// What came of building all intermediate attributes.
#[derive(Debug)]
pub struct CheckAllSummary {
    pub total_packages: usize,
    pub eval_errors: usize,
    pub per_intermediate: AttrMap<IntermediateSummary>,
}

impl Default for CheckAllSummary {
    fn default() -> (summary: Self)
        ensures
            summary.total_packages == 0,
            summary.eval_errors == 0,
            summary.per_intermediate@.len() == 0,
    {
        CheckAllSummary {
            total_packages: 0,
            eval_errors: 0,
            per_intermediate: AttrMap::new(),
        }
    }
}

impl CheckAllSummary {
    /// Whether no build failed.
    pub open spec fn no_failures(&self) -> bool {
        forall|i: int|
            0 <= i < self.per_intermediate@.len() ==> (#[trigger] self.per_intermediate@[i]).1.failed
                == 0
    }

    /// Tells whether no build failed.
    pub fn all_passed(&self) -> (yes: bool)
        ensures
            yes == self.no_failures(),
    {
        let n: usize = self.per_intermediate.len();
        for i in 0..n
            invariant
                n == self.per_intermediate@.len(),
                forall|k: int|
                    0 <= k < i ==> (#[trigger] self.per_intermediate@[k]).1.failed == 0,
        {
            if self.per_intermediate.value_at(i).failed != 0 {
                assert(self.per_intermediate@[i as int].1.failed != 0);
                return false;
            }
        }
        true
    }

    /// Keeps the summary of an intermediate attribute.
    pub fn finish(&mut self, intermediate: &str, summary: IntermediateSummary)
        ensures
            final(self).per_intermediate@ == inserted(
                old(self).per_intermediate@,
                intermediate@,
                summary,
            ),
            final(self).total_packages == old(self).total_packages,
            final(self).eval_errors == old(self).eval_errors,
    {
        self.per_intermediate.insert(intermediate.to_string(), summary);
    }
}

/// The failures of the first `n` intermediate attributes.
pub open spec fn failures_before(
    entries: Seq<(Seq<char>, IntermediateSummary)>,
    n: int,
) -> Seq<FailureText>
    decreases n,
{
    if n <= 0 {
        Seq::empty()
    } else {
        failures_before(entries, n - 1) + failure_texts(entries[n - 1].1.failures@)
    }
}

/// Lists all failures.
pub fn all_failures(summary: &CheckAllSummary) -> (out: Vec<BuildFailure>)
    ensures
        failure_texts(out@) == failures_before(
            summary.per_intermediate@,
            summary.per_intermediate@.len() as int,
        ),
{
    let n: usize = summary.per_intermediate.len();
    let ghost entries = summary.per_intermediate@;
    let mut out: Vec<BuildFailure> = Vec::new();
    assert(failure_texts(out@) == failures_before(entries, 0));
    for i in 0..n
        invariant
            n == entries.len(),
            entries == summary.per_intermediate@,
            failure_texts(out@) == failures_before(entries, i as int),
    {
        let part = summary.per_intermediate.value_at(i);
        let ghost front = failures_before(entries, i as int);
        let ghost own = failure_texts(part.failures@);
        let m: usize = part.failures.len();
        assert(front + own.take(0) == front);
        for k in 0..m
            invariant
                m == part.failures@.len(),
                own == failure_texts(part.failures@),
                failure_texts(out@) == front + own.take(k as int),
        {
            let copy = copy_failure(&part.failures[k]);
            let ghost before = failure_texts(out@);
            let ghost here = copy@;
            out.push(copy);
            assert(failure_texts(out@) == before.push(here));
            assert(own[k as int] == here);
            assert(front + own.take(k + 1) == (front + own.take(k as int)).push(here));
        }
        assert(own.take(m as int) == own);
    }
    out
}

/// How many failures of a list are of a kind.
pub open spec fn kind_count(failures: Seq<FailureText>, kind: FailureType) -> nat {
    failures.filter(|f: FailureText| f.kind == kind).len()
}

/// Counts the failures of a kind.
pub fn count_kind(failures: &Vec<BuildFailure>, kind: FailureType) -> (count: usize)
    ensures
        count == kind_count(failure_texts(failures@), kind),
{
    let n: usize = failures.len();
    let ghost all = failure_texts(failures@);
    let mut count: usize = 0;
    proof {
        reveal(Seq::filter);
    }
    for i in 0..n
        invariant
            n == failures@.len(),
            all == failure_texts(failures@),
            count <= i,
            count == kind_count(all.take(i as int), kind),
    {
        proof {
            reveal(Seq::filter);
            assert(all.take(i + 1).drop_last() == all.take(i as int));
            assert(all.take(i + 1).last() == failures@[i as int]@);
        }
        if failures[i].failure_type == kind {
            count = count + 1;
        }
    }
    assert(all.take(n as int) == all);
    count
}

/// Every failure is of one of the four kinds.
pub proof fn law_kinds_add_up(failures: Seq<FailureText>)
    ensures
        kind_count(failures, FailureType::HashMismatch) + kind_count(
            failures,
            FailureType::NotFound404,
        ) + kind_count(failures, FailureType::EvalError) + kind_count(
            failures,
            FailureType::Unknown,
        ) == failures.len(),
    decreases failures.len(),
{
    reveal(Seq::filter);
    if failures.len() > 0 {
        law_kinds_add_up(failures.drop_last());
    }
}

// ---------------------------------------------------------------------------
// Which packages

/// The places among the first `n` packages whose evaluation went through.
pub open spec fn valid_before(packages: Seq<EvalText>, n: int) -> Seq<int>
    decreases n,
{
    if n <= 0 {
        Seq::empty()
    } else if packages[n - 1].failed {
        valid_before(packages, n - 1)
    } else {
        valid_before(packages, n - 1).push(n - 1)
    }
}

/// The places of the packages that are looked at: those whose evaluation went
/// through, up to a limit.
pub open spec fn selected(packages: Seq<EvalText>, limit: Option<usize>) -> Seq<int> {
    let valid = valid_before(packages, packages.len() as int);
    match limit {
        Some(l) => if l < valid.len() {
            valid.take(l as int)
        } else {
            valid
        },
        None => valid,
    }
}

/// How many evaluations failed.
pub open spec fn error_count(packages: Seq<EvalText>) -> int {
    packages.len() - valid_before(packages, packages.len() as int).len()
}

/// Begins with the packages: the summary with their number and the number of those
/// whose evaluation failed, and the places of those that are looked at.
pub fn start_check(packages: &Vec<EvalJobOutput>, limit: Option<usize>) -> (out: (
    CheckAllSummary,
    Vec<usize>,
))
    ensures
        out.0.total_packages == packages@.len(),
        out.0.eval_errors == error_count(eval_texts(packages@)),
        out.0.per_intermediate@.len() == 0,
        places(out.1@) == selected(eval_texts(packages@), limit),
        forall|j: int| 0 <= j < out.1@.len() ==> #[trigger] out.1@[j] < packages@.len(),
{
    let n: usize = packages.len();
    let ghost all = eval_texts(packages@);
    let mut valid: Vec<usize> = Vec::new();
    assert(places(valid@) == valid_before(all, 0));
    for i in 0..n
        invariant
            n == packages@.len(),
            all == eval_texts(packages@),
            valid@.len() <= i,
            places(valid@) == valid_before(all, i as int),
            forall|j: int| 0 <= j < valid@.len() ==> #[trigger] valid@[j] < i,
    {
        assert(all[i as int] == packages@[i as int]@);
        if packages[i].error.is_none() {
            let ghost before = places(valid@);
            valid.push(i);
            assert(places(valid@) == before.push(i as int));
        }
    }
    let ghost every = places(valid@);
    let total: usize = valid.len();
    assert(every.len() == total);
    let mut summary = CheckAllSummary::default();
    summary.total_packages = n;
    summary.eval_errors = n - total;
    let keep: usize = match limit {
        Some(l) => if l < total {
            l
        } else {
            total
        },
        None => total,
    };
    let mut chosen: Vec<usize> = Vec::new();
    for i in 0..keep
        invariant
            keep <= valid@.len(),
            n == packages@.len(),
            every == places(valid@),
            forall|j: int| 0 <= j < valid@.len() ==> #[trigger] valid@[j] < n,
            forall|j: int| 0 <= j < chosen@.len() ==> #[trigger] chosen@[j] < n,
            places(chosen@) == every.take(i as int),
    {
        let ghost before = places(chosen@);
        let place: usize = valid[i];
        chosen.push(place);
        assert(every[i as int] == place as int);
        assert(places(chosen@) == before.push(place as int));
        assert(every.take(i + 1) == before.push(place as int));
    }
    assert(every.take(total as int) == every);
    (summary, chosen)
}

/// No more packages are looked at than the limit says, and none whose evaluation
/// failed.
pub proof fn law_selected(packages: Seq<EvalText>, limit: Option<usize>)
    ensures
        limit matches Some(l) ==> selected(packages, limit).len() <= l,
        forall|j: int|
            0 <= j < selected(packages, limit).len() ==> 0 <= (#[trigger] selected(
                packages,
                limit,
            )[j]) < packages.len() && !packages[selected(packages, limit)[j]].failed,
        0 <= error_count(packages) <= packages.len(),
{
    lemma_valid_before(packages, packages.len() as int);
}

proof fn lemma_valid_before(packages: Seq<EvalText>, n: int)
    requires
        0 <= n <= packages.len(),
    ensures
        valid_before(packages, n).len() <= n,
        forall|j: int|
            0 <= j < valid_before(packages, n).len() ==> 0 <= (#[trigger] valid_before(
                packages,
                n,
            )[j]) < n && !packages[valid_before(packages, n)[j]].failed,
    decreases n,
{
    if n > 0 {
        lemma_valid_before(packages, n - 1);
    }
}

/// The places of the packages that have an intermediate attribute.
pub open spec fn having(packages: Seq<EvalText>, chosen: Seq<int>, name: Seq<char>) -> Seq<int> {
    chosen.filter(|i: int| drv_of(packages[i].ints, name) is Some)
}

/// Lists the places of the packages that have an intermediate attribute.
pub fn packages_having(
    packages: &Vec<EvalJobOutput>,
    chosen: &Vec<usize>,
    name: &str,
) -> (out: Vec<usize>)
    requires
        forall|j: int| 0 <= j < chosen@.len() ==> #[trigger] chosen@[j] < packages@.len(),
    ensures
        places(out@) == having(eval_texts(packages@), places(chosen@), name@),
{
    let n: usize = chosen.len();
    let ghost all = eval_texts(packages@);
    let ghost every = places(chosen@);
    let mut out: Vec<usize> = Vec::new();
    proof {
        reveal(Seq::filter);
        assert(places(out@) == having(all, every.take(0), name@));
    }
    for i in 0..n
        invariant
            n == chosen@.len(),
            all == eval_texts(packages@),
            every == places(chosen@),
            forall|j: int| 0 <= j < chosen@.len() ==> #[trigger] chosen@[j] < packages@.len(),
            places(out@) == having(all, every.take(i as int), name@),
    {
        let k: usize = chosen[i];
        proof {
            reveal(Seq::filter);
            assert(every.take(i + 1).drop_last() == every.take(i as int));
            assert(every.take(i + 1).last() == k as int);
            assert(all[k as int] == packages@[k as int]@);
        }
        if has_intermediate(&packages[k], name) {
            let ghost before = places(out@);
            out.push(k);
            assert(places(out@) == before.push(k as int));
        }
    }
    assert(every.take(n as int) == every);
    out
}

/// The first intermediate attribute of the list, at or after `from`, that a chosen
/// package has.
pub open spec fn tier_to_check(packages: Seq<EvalText>, chosen: Seq<int>, from: int) -> Option<int>
    decreases intermediates().len() - from,
{
    if from >= intermediates().len() {
        None
    } else if having(packages, chosen, intermediates()[from]).len() > 0 {
        Some(from)
    } else {
        tier_to_check(packages, chosen, from + 1)
    }
}

/// Finds the next intermediate attribute that a chosen package has, and the places of
/// the packages that have it.
pub fn next_check_work(
    packages: &Vec<EvalJobOutput>,
    chosen: &Vec<usize>,
    from: usize,
) -> (work: Option<(usize, Vec<usize>)>)
    requires
        forall|j: int| 0 <= j < chosen@.len() ==> #[trigger] chosen@[j] < packages@.len(),
    ensures
        match work {
            Some((tier, with_it)) => tier < 15 && tier_to_check(
                eval_texts(packages@),
                places(chosen@),
                from as int,
            ) == Some(tier as int) && places(with_it@) == having(
                eval_texts(packages@),
                places(chosen@),
                intermediates()[tier as int],
            ),
            None => tier_to_check(eval_texts(packages@), places(chosen@), from as int) is None,
        },
{
    let ghost all = eval_texts(packages@);
    let ghost every = places(chosen@);
    let mut tier: usize = from;
    while tier < 15
        invariant
            all == eval_texts(packages@),
            every == places(chosen@),
            forall|j: int| 0 <= j < chosen@.len() ==> #[trigger] chosen@[j] < packages@.len(),
            tier_to_check(all, every, from as int) == tier_to_check(all, every, tier as int),
        decreases 15 - tier,
    {
        let name = INTERMEDIATE_ATTRS[tier];
        assert(intermediates()[tier as int] == name@);
        let with_it = packages_having(packages, chosen, name);
        assert(places(with_it@).len() == with_it@.len());
        if with_it.len() > 0 {
            return Some((tier, with_it));
        }
        tier = tier + 1;
    }
    None
}

/// No intermediate attribute that a chosen package has is passed over.
pub proof fn law_no_tier_passed_over(
    packages: Seq<EvalText>,
    chosen: Seq<int>,
    from: int,
    tier: int,
)
    requires
        0 <= from <= tier < intermediates().len(),
        having(packages, chosen, intermediates()[tier]).len() > 0,
    ensures
        tier_to_check(packages, chosen, from) matches Some(first) && from <= first <= tier
            && having(packages, chosen, intermediates()[first]).len() > 0,
    decreases tier - from,
{
    if having(packages, chosen, intermediates()[from]).len() == 0 {
        law_no_tier_passed_over(packages, chosen, from + 1, tier);
    }
}

/// The attribute path of a package of a set.
pub fn attr_in_set(pkgset: &str, attr: &str) -> (out: String)
    ensures
        out@ == (if pkgset@.len() == 0 {
            attr@
        } else {
            pkgset@ + "."@ + attr@
        }),
{
    if pkgset.is_empty() {
        attr.to_string()
    } else {
        pkgset.to_string().concat(".").concat(attr)
    }
}

// ---------------------------------------------------------------------------
// The table

/// So many spaces.
pub open spec fn spaces(n: int) -> Seq<char> {
    Seq::new(if n < 0 { 0 } else { n as nat }, |i: int| ' ')
}

/// A text with spaces behind it, up to a width.
pub open spec fn padded_right(s: Seq<char>, width: int) -> Seq<char> {
    s + spaces(width - s.len())
}

/// A text with spaces before it, up to a width.
pub open spec fn padded_left(s: Seq<char>, width: int) -> Seq<char> {
    spaces(width - s.len()) + s
}

fn make_spaces(n: usize) -> (out: String)
    ensures
        out@ == spaces(n as int),
{
    let mut out = String::new();
    assert(spaces(0) == Seq::<char>::empty());
    for i in 0..n
        invariant
            out@ == spaces(i as int),
    {
        out.push(' ');
        assert(spaces(i + 1) == spaces(i as int).push(' '));
    }
    out
}

fn missing_width(s: &str, width: usize) -> (n: usize)
    ensures
        spaces(n as int) == spaces(width - s@.len()),
{
    let chars = chars_of(s);
    let len: usize = chars.len();
    if len < width {
        width - len
    } else {
        assert(spaces(0) == spaces(width - s@.len()));
        0
    }
}

/// Puts spaces behind a text, up to a width.
pub fn pad_right(s: &str, width: usize) -> (out: String)
    ensures
        out@ == padded_right(s@, width as int),
{
    s.to_string().concat(make_spaces(missing_width(s, width)).as_str())
}

/// Puts spaces before a text, up to a width.
pub fn pad_left(s: &str, width: usize) -> (out: String)
    ensures
        out@ == padded_left(s@, width as int),
{
    make_spaces(missing_width(s, width)).concat(s)
}

/// The cells of a row of the table.
pub open spec fn table_row_text(
    name: Seq<char>,
    attempted: Seq<char>,
    passed: Seq<char>,
    failed: Seq<char>,
    rate: Seq<char>,
) -> Seq<char> {
    padded_right(name, 16) + " | "@ + padded_left(attempted, 9) + " | "@ + padded_left(passed, 6)
        + " | "@ + padded_left(failed, 6) + " | "@ + rate
}

fn table_row(name: &str, attempted: &str, passed: &str, failed: &str, rate: &str) -> (row: String)
    ensures
        row@ == table_row_text(name@, attempted@, passed@, failed@, rate@),
{
    pad_right(name, 16)
        .concat(" | ")
        .concat(pad_left(attempted, 9).as_str())
        .concat(" | ")
        .concat(pad_left(passed, 6).as_str())
        .concat(" | ")
        .concat(pad_left(failed, 6).as_str())
        .concat(" | ")
        .concat(rate)
}

/// The head of the table.
pub fn table_head() -> (row: String)
    ensures
        row@ == table_row_text(
            "Intermediate"@,
            "Attempted"@,
            "Passed"@,
            "Failed"@,
            padded_left("Pass Rate"@, 9),
        ),
{
    let rate = pad_left("Pass Rate", 9);
    table_row("Intermediate", "Attempted", "Passed", "Failed", rate.as_str())
}

/// The row of an intermediate attribute. The rate of those that passed, in percent
/// with one digit behind the point, is handed in.
pub fn summary_row(name: &str, summary: &IntermediateSummary, rate: &str) -> (row: String)
    ensures
        row@ == table_row_text(
            name@,
            decimal(summary.attempted as nat),
            decimal(summary.passed as nat),
            decimal(summary.failed as nat),
            padded_left(rate@, 8) + "%"@,
        ),
{
    let percent = pad_left(rate, 8).concat("%");
    table_row(
        name,
        decimal_usize(summary.attempted).as_str(),
        decimal_usize(summary.passed).as_str(),
        decimal_usize(summary.failed).as_str(),
        percent.as_str(),
    )
}

/// What stands above the table.
pub fn table_title(summary: &CheckAllSummary, pkgset: &str) -> (out: String)
    ensures
        out@ == "\n============================================================\n           check-all Summary: "@
            + (if pkgset@.len() == 0 {
            "all packages"@
        } else {
            pkgset@
        }) + "\n============================================================\nTotal packages evaluated: "@
            + decimal(summary.total_packages as nat) + "\nEvaluation errors: "@ + decimal(
            summary.eval_errors as nat,
        ) + "\n\n"@,
{
    let name = if pkgset.is_empty() {
        "all packages"
    } else {
        pkgset
    };
    "\n============================================================\n           check-all Summary: ".to_string()
        .concat(name)
        .concat(
        "\n============================================================\nTotal packages evaluated: ",
    )
        .concat(decimal_usize(summary.total_packages).as_str())
        .concat("\nEvaluation errors: ")
        .concat(decimal_usize(summary.eval_errors).as_str())
        .concat("\n\n")
}

/// A line of the breakdown, where there are failures of the kind.
pub open spec fn kind_line(failures: Seq<FailureText>, kind: FailureType) -> Seq<char> {
    if kind_count(failures, kind) == 0 {
        ""@
    } else {
        "  "@ + kind.name() + ": "@ + decimal(kind_count(failures, kind)) + "\n"@
    }
}

fn show_kind(failures: &Vec<BuildFailure>, kind: FailureType) -> (line: String)
    ensures
        line@ == kind_line(failure_texts(failures@), kind),
{
    let count: usize = count_kind(failures, kind);
    if count == 0 {
        "".to_string()
    } else {
        "  ".to_string()
            .concat(kind.to_string().as_str())
            .concat(": ")
            .concat(decimal_usize(count).as_str())
            .concat("\n")
    }
}

/// What stands below the table: the failures by kind, where there are any.
pub open spec fn breakdown_text(failures: Seq<FailureText>) -> Seq<char> {
    if failures.len() == 0 {
        ""@
    } else {
        "\nFailure Breakdown:\n"@ + kind_line(failures, FailureType::HashMismatch) + kind_line(
            failures,
            FailureType::NotFound404,
        ) + kind_line(failures, FailureType::EvalError) + kind_line(failures, FailureType::Unknown)
    }
}

/// Counts the failures by kind.
pub fn failure_breakdown(summary: &CheckAllSummary) -> (out: String)
    ensures
        out@ == breakdown_text(
            failures_before(
                summary.per_intermediate@,
                summary.per_intermediate@.len() as int,
            ),
        ),
{
    let failures = all_failures(summary);
    assert(failure_texts(failures@).len() == failures@.len());
    if failures.len() == 0 {
        "".to_string()
    } else {
        "\nFailure Breakdown:\n".to_string()
            .concat(show_kind(&failures, FailureType::HashMismatch).as_str())
            .concat(show_kind(&failures, FailureType::NotFound404).as_str())
            .concat(show_kind(&failures, FailureType::EvalError).as_str())
            .concat(show_kind(&failures, FailureType::Unknown).as_str())
    }
}

// ---------------------------------------------------------------------------
// What holds of a check

/// What a log tells: of a hash mismatch where it holds one of its signs, whatever else it
/// holds; else of something that was not found where it holds a sign of that; else of
/// nothing that is known.
pub proof fn law_failure_signs(log: Seq<char>)
    ensures
        failure_in(log) == FailureType::HashMismatch <==> contains(log, "hash mismatch"@)
            || contains(log, "got:"@) || contains(log, "specified:"@),
        failure_in(log) == FailureType::NotFound404 <==> failure_in(log)
            != FailureType::HashMismatch && (contains(log, "404"@) || contains(log, "not found"@)
            || contains(log, "could not be found"@) || contains(log, "does not exist"@)),
        failure_in(log) != FailureType::EvalError,
{
}

/// What is kept of a failure: the package, the attribute, the kind that its log tells of,
/// whatever its capitals, and the first ten lines of the log.
pub proof fn law_failure_says(attr: Seq<char>, intermediate: Seq<char>, logs: Seq<char>)
    ensures
        failure_of(attr, intermediate, logs).attr == attr,
        failure_of(attr, intermediate, logs).intermediate == intermediate,
        failure_of(attr, intermediate, logs).kind == failure_in(lowercased(logs)),
        lines(logs).len() <= 10 ==> failure_of(attr, intermediate, logs).snippet == join(
            lines(logs),
            "\n"@,
        ),
        lines(logs).len() > 10 ==> failure_of(attr, intermediate, logs).snippet == join(
            lines(logs).take(10),
            "\n"@,
        ),
{
}

/// The first lines of a text: all of them where there are no more than asked for, else
/// that many from the front.
pub proof fn law_head_lines(s: Seq<char>, n: int)
    requires
        0 <= n,
    ensures
        lines(s).len() <= n ==> head_lines(s, n) == join(lines(s), "\n"@),
        lines(s).len() > n ==> head_lines(s, n) == join(lines(s).take(n), "\n"@),
{
}

/// Once builds have ended, as many passed as were successes, and the failures are those
/// that were none, each with its package, attribute and log, in their order.
pub proof fn law_summary_lists_failures(attempted: int, outcomes: Seq<OutcomeText>)
    ensures
        ({
            let s = recorded_all(fresh_summary(attempted), outcomes);
            &&& s.attempted == attempted
            &&& s.passed == outcomes.filter(|o: OutcomeText| o.success).len()
            &&& s.failed == outcomes.filter(|o: OutcomeText| !o.success).len()
            &&& s.failures == outcomes.filter(|o: OutcomeText| !o.success).map_values(
                |o: OutcomeText| failure_of(o.attr, o.intermediate, o.logs),
            )
        }),
    decreases outcomes.len(),
{
    reveal(Seq::filter);
    let bad = |o: OutcomeText| !o.success;
    let what = |o: OutcomeText| failure_of(o.attr, o.intermediate, o.logs);
    if outcomes.len() > 0 {
        law_summary_lists_failures(attempted, outcomes.drop_last());
        let front = outcomes.drop_last().filter(bad);
        let last = outcomes.last();
        assert(front.push(last).map_values(what) == front.map_values(what).push(what(last)));
    } else {
        assert(outcomes.filter(bad).map_values(what) == Seq::<FailureText>::empty());
    }
}

/// A summary says how many builds were tried, passed and failed, and its failures.
pub proof fn law_summary_says_all(s: IntermediateSummary)
    ensures
        s@.attempted == s.attempted,
        s@.passed == s.passed,
        s@.failed == s.failed,
        s@.failures.len() == s.failures@.len(),
        forall|k: int|
            0 <= k < s.failures@.len() ==> (#[trigger] s@.failures[k]).attr == s.failures@[k].attr@
                && s@.failures[k].intermediate == s.failures@[k].intermediate@
                && s@.failures[k].kind == s.failures@[k].failure_type && s@.failures[k].snippet
                == s.failures@[k].error_snippet@,
{
}

/// A check passed exactly where no intermediate attribute has a build that failed.
pub proof fn law_one_failure_is_enough(summary: CheckAllSummary, i: int)
    requires
        0 <= i < summary.per_intermediate@.len(),
    ensures
        summary.per_intermediate@[i].1.failed > 0 ==> !summary.no_failures(),
        (forall|k: int|
            0 <= k < summary.per_intermediate@.len() ==> (
            #[trigger] summary.per_intermediate@[k]).1.failed == 0) ==> summary.no_failures(),
{
}

/// The failures of all intermediate attributes are those of each, one behind the other.
pub proof fn law_all_failures_listed(
    entries: Seq<(Seq<char>, IntermediateSummary)>,
    n: int,
    i: int,
    k: int,
)
    requires
        0 <= i < n <= entries.len(),
        0 <= k < entries[i].1.failures@.len(),
    ensures
        failures_before(entries, n).contains(entries[i].1.failures@[k]@),
        failures_before(entries, n) == failures_before(entries, n - 1) + failure_texts(
            entries[n - 1].1.failures@,
        ),
        failures_before(entries, 0).len() == 0,
    decreases n,
{
    let what = entries[i].1.failures@[k]@;
    let front = failures_before(entries, n - 1);
    let own = failure_texts(entries[n - 1].1.failures@);
    let all = failures_before(entries, n);
    if i == n - 1 {
        assert(own[k] == what);
        assert(all[front.len() + k] == what);
    } else {
        law_all_failures_listed(entries, n - 1, i, k);
        let j = choose|j: int| 0 <= j < front.len() && front[j] == what;
        assert(all[j] == what);
    }
}

/// A failure counts for its own kind and for no other.
pub proof fn law_kind_counts(failures: Seq<FailureText>, f: FailureText, kind: FailureType)
    ensures
        kind_count(Seq::empty(), kind) == 0,
        kind_count(failures.push(f), kind) == kind_count(failures, kind) + if f.kind == kind {
            1nat
        } else {
            0nat
        },
{
    reveal(Seq::filter);
    assert(failures.push(f).drop_last() == failures);
}

proof fn lemma_valid_complete(packages: Seq<EvalText>, n: int)
    requires
        0 <= n <= packages.len(),
    ensures
        forall|i: int, j: int|
            0 <= i < j < valid_before(packages, n).len() ==> #[trigger] valid_before(packages, n)[i]
                < #[trigger] valid_before(packages, n)[j],
        forall|i: int|
            0 <= i < n && !(#[trigger] packages[i]).failed ==> valid_before(packages, n).contains(
                i,
            ),
        n - valid_before(packages, n).len() == packages.take(n).filter(
            |p: EvalText| p.failed,
        ).len(),
    decreases n,
{
    reveal(Seq::filter);
    if n > 0 {
        lemma_valid_complete(packages, n - 1);
        lemma_valid_before(packages, n - 1);
        let front = valid_before(packages, n - 1);
        let all = valid_before(packages, n);
        assert(packages.take(n).drop_last() == packages.take(n - 1));
        assert(packages.take(n).last() == packages[n - 1]);
        assert forall|i: int, j: int| 0 <= i < j < all.len() implies #[trigger] all[i]
            < #[trigger] all[j] by {
            assert(all[i] == front[i]);
            if j < front.len() {
                assert(all[j] == front[j]);
            }
        }
        assert forall|i: int| 0 <= i < n && !(#[trigger] packages[i]).failed implies all.contains(
            i,
        ) by {
            if i < n - 1 {
                assert(front.contains(i));
                let k = choose|k: int| 0 <= k < front.len() && front[k] == i;
                assert(all[k] == i);
            } else {
                assert(all[front.len() as int] == i);
            }
        }
    }
}

/// Without a limit every package whose evaluation went through is looked at, in order;
/// with one, as many of these as it says, from the front. The others are counted as
/// errors, whatever the limit.
pub proof fn law_all_valid_are_selected(packages: Seq<EvalText>, limit: usize)
    ensures
        forall|i: int|
            0 <= i < packages.len() && !(#[trigger] packages[i]).failed ==> selected(
                packages,
                None,
            ).contains(i),
        forall|i: int, j: int|
            0 <= i < j < selected(packages, None).len() ==> #[trigger] selected(packages, None)[i]
                < #[trigger] selected(packages, None)[j],
        selected(packages, None).len() <= limit ==> selected(packages, Some(limit)) == selected(
            packages,
            None,
        ),
        selected(packages, None).len() > limit ==> selected(packages, Some(limit)) == selected(
            packages,
            None,
        ).take(limit as int),
        error_count(packages) == packages.filter(|p: EvalText| p.failed).len(),
        error_count(packages) + selected(packages, None).len() == packages.len(),
{
    let n = packages.len() as int;
    lemma_valid_complete(packages, n);
    assert(packages.take(n) == packages);
    let valid = valid_before(packages, n);
    assert(valid.take(valid.len() as int) == valid);
}

/// A chosen package is built for an attribute exactly where it has a derivation for it;
/// the order is kept.
pub proof fn law_having(packages: Seq<EvalText>, chosen: Seq<int>, name: Seq<char>, i: int)
    ensures
        having(packages, chosen, name).contains(i) <==> chosen.contains(i) && drv_of(
            packages[i].ints,
            name,
        ) is Some,
        having(packages, chosen, name) == chosen.filter(
            |k: int| drv_of(packages[k].ints, name) is Some,
        ),
{
    let keep = |k: int| drv_of(packages[k].ints, name) is Some;
    let list = having(packages, chosen, name);
    if chosen.contains(i) && keep(i) {
        let k = choose|k: int| 0 <= k < chosen.len() && chosen[k] == i;
        chosen.lemma_filter_contains(keep, k);
    }
    if list.contains(i) {
        chosen.lemma_filter_contains_rev(keep, i);
        let k = choose|k: int| 0 <= k < list.len() && list[k] == i;
        chosen.lemma_filter_pred(keep, k);
    }
}

/// The attribute that is built next is the first from a place on that a chosen package
/// has, and there is none exactly where no chosen package has one.
pub proof fn law_next_tier_to_check(packages: Seq<EvalText>, chosen: Seq<int>, from: int)
    requires
        0 <= from,
    ensures
        match tier_to_check(packages, chosen, from) {
            Some(tier) => from <= tier < intermediates().len() && having(
                packages,
                chosen,
                intermediates()[tier],
            ).len() > 0 && (forall|t: int|
                from <= t < tier ==> having(packages, chosen, #[trigger] intermediates()[t]).len()
                    == 0),
            None => forall|t: int|
                from <= t < intermediates().len() ==> having(
                    packages,
                    chosen,
                    #[trigger] intermediates()[t],
                ).len() == 0,
        },
    decreases intermediates().len() - from,
{
    if from < intermediates().len() && having(packages, chosen, intermediates()[from]).len() == 0 {
        law_next_tier_to_check(packages, chosen, from + 1);
    }
}

/// Padding adds nothing but spaces, on one side, and only up to the width.
pub proof fn law_padding(s: Seq<char>, width: int)
    ensures
        s.len() >= width ==> padded_right(s, width) == s && padded_left(s, width) == s,
        s.len() <= width ==> padded_right(s, width).len() == width && padded_left(s, width).len()
            == width,
        padded_right(s, width).take(s.len() as int) == s,
        padded_left(s, width).skip(padded_left(s, width).len() - s.len()) == s,
        forall|k: int|
            s.len() <= k < padded_right(s, width).len() ==> #[trigger] padded_right(s, width)[k]
                == ' ',
        forall|k: int|
            0 <= k < padded_left(s, width).len() - s.len() ==> #[trigger] padded_left(s, width)[k]
                == ' ',
{
    if s.len() >= width {
        assert(padded_right(s, width) =~= s);
        assert(padded_left(s, width) =~= s);
    }
    assert(padded_right(s, width).take(s.len() as int) =~= s);
    assert(padded_left(s, width).skip(padded_left(s, width).len() - s.len()) =~= s);
}

/// A kind of failure has a line below the table exactly where there are failures of it,
/// and the line tells how many.
#[verifier::rlimit(40)]
pub proof fn law_breakdown_tells(failures: Seq<FailureText>, kind: FailureType)
    ensures
        failures.len() == 0 ==> breakdown_text(failures).len() == 0,
        kind_count(failures, kind) == 0 ==> kind_line(failures, kind).len() == 0,
        kind_count(failures, kind) > 0 ==> contains(
            breakdown_text(failures),
            kind.name() + ": "@ + decimal(kind_count(failures, kind)) + "\n"@,
        ),
{
    reveal_strlit("");
    failures.lemma_filter_len(|f: FailureText| f.kind == kind);
    let a = kind_line(failures, FailureType::HashMismatch);
    let b = kind_line(failures, FailureType::NotFound404);
    let c = kind_line(failures, FailureType::EvalError);
    let d = kind_line(failures, FailureType::Unknown);
    let head = "\nFailure Breakdown:\n"@;
    if kind_count(failures, kind) > 0 {
        assert(failures.len() > 0);
        lemma_breakdown_parts(head, a, b, c, d);
        let line = kind_line(failures, kind);
        let count = decimal(kind_count(failures, kind));
        let part = kind.name() + ": "@ + count + "\n"@;
        lemma_line_part(kind.name(), count);
        lemma_contains_within(breakdown_text(failures), line, part);
    }
}

proof fn lemma_line_part(name: Seq<char>, count: Seq<char>)
    ensures
        contains("  "@ + name + ": "@ + count + "\n"@, name + ": "@ + count + "\n"@),
{
    let part = name + ": "@ + count + "\n"@;
    assert("  "@ + name + ": "@ + count + "\n"@ =~= "  "@ + part + Seq::<char>::empty());
    lemma_contains_middle("  "@, part, Seq::empty());
}

#[verifier::rlimit(40)]
proof fn lemma_breakdown_parts(
    head: Seq<char>,
    a: Seq<char>,
    b: Seq<char>,
    c: Seq<char>,
    d: Seq<char>,
)
    ensures
        contains(head + a + b + c + d, a),
        contains(head + a + b + c + d, b),
        contains(head + a + b + c + d, c),
        contains(head + a + b + c + d, d),
{
    let all = head + a + b + c + d;
    assert(all =~= head + a + (b + c + d));
    lemma_contains_middle(head, a, b + c + d);
    assert(all =~= (head + a) + b + (c + d));
    lemma_contains_middle(head + a, b, c + d);
    lemma_contains_middle(head + a + b, c, d);
    assert(all =~= (head + a + b + c) + d + Seq::<char>::empty());
    lemma_contains_middle(head + a + b + c, d, Seq::empty());
}

/// The kinds of failure have different names, which say what they are.
pub proof fn law_kind_names_differ(one: FailureType, two: FailureType)
    requires
        one != two,
    ensures
        one.name() != two.name(),
        FailureType::HashMismatch.name() == "Hash mismatch"@,
        FailureType::NotFound404.name() == "404 Not Found"@,
        FailureType::EvalError.name() == "Eval error"@,
        FailureType::Unknown.name() == "Unknown"@,
{
    reveal_strlit("Hash mismatch");
    reveal_strlit("404 Not Found");
    reveal_strlit("Eval error");
    reveal_strlit("Unknown");
    assert(one.name()[0] != two.name()[0]);
}

/// A row of the table holds its cells in turn, the name to the left and the numbers to the
/// right, in columns of fixed width.
#[verifier::rlimit(40)]
pub proof fn law_table_row(
    name: Seq<char>,
    attempted: Seq<char>,
    passed: Seq<char>,
    failed: Seq<char>,
    rate: Seq<char>,
)
    ensures
        table_row_text(name, attempted, passed, failed, rate) == join(
            seq![
                padded_right(name, 16),
                padded_left(attempted, 9),
                padded_left(passed, 6),
                padded_left(failed, 6),
                rate,
            ],
            " | "@,
        ),
{
    let cells = seq![
        padded_right(name, 16),
        padded_left(attempted, 9),
        padded_left(passed, 6),
        padded_left(failed, 6),
        rate,
    ];
    reveal_with_fuel(join, 5);
    assert(cells.drop_last().last() == cells[3]);
    assert(cells.drop_last().drop_last().last() == cells[2]);
    assert(cells.drop_last().drop_last().drop_last().last() == cells[1]);
    assert(cells.drop_last().drop_last().drop_last().drop_last().first() == cells[0]);
}

} // verus!
