//! The results of building the changed packages for one system: what is to be
//! built next, and what each build that ends changes.

use vstd::prelude::*;

use crate::attr_map::{distinct_names, lemma_place_from, lookup, place_of, AttrMap};
use crate::text::{list_contains, same_text, texts};
use crate::types::{
    changed_texts, copy_steps, intermediates, law_intermediates_distinct, result_texts,
    step_texts, ChangedPackage, ChangedText, FullEvalBuildResult, ResultText, INTERMEDIATE_ATTRS,
};

verus! {

// ---------------------------------------------------------------------------
// Finding a result

/// The place of the first result for a package, at or after place `from`.
pub open spec fn result_from(results: Seq<ResultText>, attr: Seq<char>, from: int) -> Option<int>
    decreases results.len() - from,
{
    if from >= results.len() {
        None
    } else if results[from].attr == attr {
        Some(from)
    } else {
        result_from(results, attr, from + 1)
    }
}

/// The place of the result for a package.
pub open spec fn result_place(results: Seq<ResultText>, attr: Seq<char>) -> Option<int> {
    result_from(results, attr, 0)
}

/// A place that was found is the first with the package; where none was found there
/// is none.
pub proof fn lemma_result_from(results: Seq<ResultText>, attr: Seq<char>, from: int)
    requires
        0 <= from <= results.len(),
    ensures
        result_from(results, attr, from) matches Some(i) ==> from <= i < results.len()
            && results[i].attr == attr && (forall|j: int|
            from <= j < i ==> (#[trigger] results[j]).attr != attr),
        result_from(results, attr, from) is None ==> (forall|j: int|
            from <= j < results.len() ==> (#[trigger] results[j]).attr != attr),
    decreases results.len() - from,
{
    if from < results.len() && results[from].attr != attr {
        lemma_result_from(results, attr, from + 1);
    }
}

fn find_result(results: &Vec<FullEvalBuildResult>, attr: &str) -> (place: Option<usize>)
    ensures
        match place {
            Some(i) => i < results@.len() && result_place(result_texts(results@), attr@) == Some(
                i as int,
            ),
            None => result_place(result_texts(results@), attr@) is None,
        },
{
    let n: usize = results.len();
    let ghost all = result_texts(results@);
    let mut i: usize = 0;
    while i < n
        invariant
            i <= n,
            n == results@.len(),
            all == result_texts(results@),
            result_place(all, attr@) == result_from(all, attr@, i as int),
        decreases n - i,
    {
        assert(all[i as int].attr == results@[i as int].attr@);
        if same_text(results[i].attr.as_str(), attr) {
            return Some(i);
        }
        i = i + 1;
    }
    None
}

// ---------------------------------------------------------------------------
// Starting

/// The steps that an earlier run left for a package.
pub open spec fn saved_steps(
    saved: Seq<(Seq<char>, Vec<(String, bool, String)>)>,
    attr: Seq<char>,
) -> Seq<(Seq<char>, bool, Seq<char>)> {
    match lookup(saved, attr) {
        Some(steps) => step_texts(steps@),
        None => Seq::empty(),
    }
}

/// A package of which nothing was built in this run.
pub open spec fn fresh_result(
    system: Seq<char>,
    attr: Seq<char>,
    steps: Seq<(Seq<char>, bool, Seq<char>)>,
) -> ResultText {
    ResultText {
        attr,
        system,
        steps,
        success: false,
        logs: Seq::empty(),
        false_positive: false,
        non_deterministic: false,
        on_base: true,
    }
}

/// The results at the start: one for each package, with the steps that an earlier
/// run left.
pub open spec fn started(
    system: Seq<char>,
    packages: Seq<ChangedText>,
    saved: Seq<(Seq<char>, Vec<(String, bool, String)>)>,
) -> Seq<ResultText>
    decreases packages.len(),
{
    if packages.len() == 0 {
        Seq::empty()
    } else {
        let front = started(system, packages.drop_last(), saved);
        let attr = packages.last().attr;
        if result_place(front, attr) is Some {
            front
        } else {
            front.push(fresh_result(system, attr, saved_steps(saved, attr)))
        }
    }
}

/// Makes the results at the start.
pub fn start_results(
    system: &str,
    packages: &Vec<ChangedPackage>,
    saved: &AttrMap<Vec<(String, bool, String)>>,
) -> (results: Vec<FullEvalBuildResult>)
    ensures
        result_texts(results@) == started(system@, changed_texts(packages@), saved@),
{
    let n: usize = packages.len();
    let ghost all = changed_texts(packages@);
    let mut results: Vec<FullEvalBuildResult> = Vec::new();
    assert(result_texts(results@) == started(system@, all.take(0), saved@));
    for i in 0..n
        invariant
            n == packages@.len(),
            all == changed_texts(packages@),
            result_texts(results@) == started(system@, all.take(i as int), saved@),
    {
        proof {
            assert(all.take(i + 1).drop_last() == all.take(i as int));
            assert(all.take(i + 1).last() == packages@[i as int]@);
        }
        let attr = packages[i].attr.as_str();
        if find_result(&results, attr).is_none() {
            let steps = match saved.get(attr) {
                Some(steps) => copy_steps(steps),
                None => Vec::new(),
            };
            assert(step_texts(steps@) == saved_steps(saved@, attr@));
            let result = FullEvalBuildResult {
                attr: attr.to_string(),
                system: system.to_string(),
                intermediate_results: steps,
                package_success: false,
                package_logs: String::new(),
                is_false_positive: false,
                is_non_deterministic: false,
                exists_on_base: true,
            };
            let ghost before = result_texts(results@);
            let ghost here = fresh_result(system@, attr@, saved_steps(saved@, attr@));
            assert(result@ == here);
            results.push(result);
            assert(result_texts(results@) == before.push(here));
        }
    }
    assert(all.take(n as int) == all);
    results
}

/// The steps that an earlier run left for a package are those that it kept under the
/// package's name, as they are.
pub proof fn law_saved_steps(
    saved: Seq<(Seq<char>, Vec<(String, bool, String)>)>,
    attr: Seq<char>,
    i: int,
)
    requires
        distinct_names(saved),
    ensures
        0 <= i < saved.len() && saved[i].0 == attr ==> saved_steps(saved, attr) == step_texts(
            saved[i].1@,
        ),
        (forall|k: int| 0 <= k < saved.len() ==> (#[trigger] saved[k]).0 != attr) ==> saved_steps(
            saved,
            attr,
        ).len() == 0,
{
    lemma_place_from(saved, attr, 0);
    if 0 <= i < saved.len() && saved[i].0 == attr {
        let k = place_of(saved, attr)->0;
        if k < i {
            assert(saved[k].0 != saved[i].0);
        }
    }
}

/// Where no package is listed twice, each has its result in its own place: it is for the
/// system, has the steps that an earlier run left for the package, and nothing else was
/// found out yet.
pub proof fn law_started_in_order(
    system: Seq<char>,
    packages: Seq<ChangedText>,
    saved: Seq<(Seq<char>, Vec<(String, bool, String)>)>,
)
    requires
        forall|i: int, j: int|
            0 <= i < j < packages.len() ==> (#[trigger] packages[i]).attr != (
            #[trigger] packages[j]).attr,
    ensures
        started(system, packages, saved).len() == packages.len(),
        forall|i: int|
            0 <= i < packages.len() ==> {
                let r = #[trigger] started(system, packages, saved)[i];
                &&& r.attr == packages[i].attr
                &&& r.system == system
                &&& r.steps == saved_steps(saved, packages[i].attr)
                &&& !r.success
                &&& r.logs.len() == 0
                &&& !r.false_positive
                &&& !r.non_deterministic
                &&& r.on_base
            },
    decreases packages.len(),
{
    if packages.len() > 0 {
        let shorter = packages.drop_last();
        assert forall|i: int, j: int| 0 <= i < j < shorter.len() implies (
        #[trigger] shorter[i]).attr != (#[trigger] shorter[j]).attr by {
            assert(shorter[i] == packages[i] && shorter[j] == packages[j]);
        }
        law_started_in_order(system, shorter, saved);
        let front = started(system, shorter, saved);
        let all = started(system, packages, saved);
        let last = packages.len() - 1;
        lemma_result_from(front, packages.last().attr, 0);
        if result_place(front, packages.last().attr) is Some {
            let k = result_place(front, packages.last().attr)->0;
            assert(front[k].attr == shorter[k].attr);
            assert(packages[k].attr != packages[last].attr);
            assert(false);
        }
        assert forall|i: int| 0 <= i < packages.len() implies {
            let r = #[trigger] all[i];
            &&& r.attr == packages[i].attr
            &&& r.system == system
            &&& r.steps == saved_steps(saved, packages[i].attr)
            &&& !r.success
            &&& r.logs.len() == 0
            &&& !r.false_positive
            &&& !r.non_deterministic
            &&& r.on_base
        } by {
            if i < last {
                assert(all[i] == front[i]);
                assert(shorter[i] == packages[i]);
            }
        }
    }
}

/// Whether no package has two results.
pub open spec fn one_each(results: Seq<ResultText>) -> bool {
    forall|i: int, j: int|
        0 <= i < j < results.len() ==> (#[trigger] results[i]).attr != (
        #[trigger] results[j]).attr
}

/// At the start every package has exactly one result, no other does, and nothing
/// counts as built or as a false positive.
pub proof fn law_started(
    system: Seq<char>,
    packages: Seq<ChangedText>,
    saved: Seq<(Seq<char>, Vec<(String, bool, String)>)>,
)
    ensures
        one_each(started(system, packages, saved)),
        forall|i: int|
            0 <= i < packages.len() ==> result_place(
                started(system, packages, saved),
                (#[trigger] packages[i]).attr,
            ) is Some,
        forall|j: int|
            0 <= j < started(system, packages, saved).len() ==> exists|i: int|
                0 <= i < packages.len() && (#[trigger] packages[i]).attr == (
                #[trigger] started(system, packages, saved)[j]).attr,
        forall|j: int|
            0 <= j < started(system, packages, saved).len() ==> !(#[trigger] started(
                system,
                packages,
                saved,
            )[j]).success && !started(system, packages, saved)[j].false_positive,
    decreases packages.len(),
{
    let all = started(system, packages, saved);
    if packages.len() > 0 {
        let shorter = packages.drop_last();
        let last = packages.last();
        law_started(system, shorter, saved);
        let front = started(system, shorter, saved);
        lemma_result_from(front, last.attr, 0);
        assert forall|i: int| 0 <= i < packages.len() implies result_place(
            all,
            (#[trigger] packages[i]).attr,
        ) is Some by {
            lemma_result_from(all, packages[i].attr, 0);
            if i < shorter.len() {
                assert(shorter[i] == packages[i]);
                lemma_result_from(front, packages[i].attr, 0);
                let k = result_place(front, packages[i].attr)->0;
                assert(all[k] == front[k]);
            } else if all.len() > front.len() {
                assert(all[front.len() as int].attr == packages[i].attr);
            }
        }
        assert forall|j: int| 0 <= j < all.len() implies exists|i: int|
            0 <= i < packages.len() && (#[trigger] packages[i]).attr == (#[trigger] all[j]).attr by {
            if j < front.len() {
                assert(all[j] == front[j]);
                let i = choose|i: int|
                    0 <= i < shorter.len() && (#[trigger] shorter[i]).attr == front[j].attr;
                assert(packages[i] == shorter[i]);
            } else {
                assert(packages[packages.len() - 1].attr == all[j].attr);
            }
        }
        assert forall|j: int| 0 <= j < all.len() implies !(#[trigger] all[j]).success
            && !all[j].false_positive by {
            if j < front.len() {
                assert(all[j] == front[j]);
            }
        }
        assert forall|i: int, j: int| 0 <= i < j < all.len() implies (#[trigger] all[i]).attr != (
        #[trigger] all[j]).attr by {
            if j < front.len() {
                assert(all[i] == front[i] && all[j] == front[j]);
            } else {
                assert(all[i] == front[i]);
            }
        }
    }
}

// ---------------------------------------------------------------------------
// Tiers

/// Whether a result has a step with a name.
pub open spec fn has_step(r: ResultText, name: Seq<char>) -> bool {
    exists|k: int| 0 <= k < r.steps.len() && (#[trigger] r.steps[k]).0 == name
}

/// Whether a package needs an intermediate attribute built: it changed, and its
/// result has no step for it yet.
pub open spec fn needs(p: ChangedText, results: Seq<ResultText>, tier: Seq<char>) -> bool {
    p.changed.contains(tier) && match result_place(results, p.attr) {
        Some(i) => !has_step(results[i], tier),
        None => true,
    }
}

/// The packages that need an intermediate attribute built.
pub open spec fn needing(packages: Seq<ChangedText>, results: Seq<ResultText>, tier: Seq<char>) -> Seq<
    Seq<char>,
>
    decreases packages.len(),
{
    if packages.len() == 0 {
        Seq::empty()
    } else {
        let front = needing(packages.drop_last(), results, tier);
        if needs(packages.last(), results, tier) {
            front.push(packages.last().attr)
        } else {
            front
        }
    }
}

fn step_is_there(steps: &Vec<(String, bool, String)>, name: &str) -> (yes: bool)
    ensures
        yes == (exists|k: int|
            0 <= k < step_texts(steps@).len() && (#[trigger] step_texts(steps@)[k]).0 == name@),
{
    let n: usize = steps.len();
    for i in 0..n
        invariant
            n == steps@.len(),
            forall|k: int| 0 <= k < i ==> (#[trigger] step_texts(steps@)[k]).0 != name@,
    {
        assert(step_texts(steps@)[i as int].0 == steps@[i as int].0@);
        if same_text(steps[i].0.as_str(), name) {
            return true;
        }
    }
    false
}

/// Lists the packages that need an intermediate attribute built.
pub fn packages_needing(
    packages: &Vec<ChangedPackage>,
    results: &Vec<FullEvalBuildResult>,
    tier: &str,
) -> (attrs: Vec<String>)
    ensures
        texts(attrs@) == needing(changed_texts(packages@), result_texts(results@), tier@),
{
    let n: usize = packages.len();
    let ghost all = changed_texts(packages@);
    let ghost known = result_texts(results@);
    let mut attrs: Vec<String> = Vec::new();
    assert(texts(attrs@) == needing(all.take(0), known, tier@));
    for i in 0..n
        invariant
            n == packages@.len(),
            all == changed_texts(packages@),
            known == result_texts(results@),
            texts(attrs@) == needing(all.take(i as int), known, tier@),
    {
        proof {
            assert(all.take(i + 1).drop_last() == all.take(i as int));
            assert(all.take(i + 1).last() == packages@[i as int]@);
        }
        let mut wanted = list_contains(&packages[i].changed_intermediates, tier);
        if wanted {
            match find_result(results, packages[i].attr.as_str()) {
                Some(k) => {
                    assert(known[k as int] == results@[k as int]@);
                    let there = step_is_there(&results[k].intermediate_results, tier);
                    assert(there == has_step(known[k as int], tier@));
                    if there {
                        wanted = false;
                    }
                },
                None => {},
            }
        }
        assert(wanted == needs(packages@[i as int]@, known, tier@));
        if wanted {
            let ghost before = texts(attrs@);
            attrs.push(packages[i].attr.clone());
            assert(texts(attrs@) == before.push(packages@[i as int].attr@));
        }
    }
    assert(all.take(n as int) == all);
    attrs
}

/// A package is listed exactly where it needs the attribute.
pub proof fn law_needing(
    packages: Seq<ChangedText>,
    results: Seq<ResultText>,
    tier: Seq<char>,
    attr: Seq<char>,
)
    ensures
        needing(packages, results, tier).contains(attr) <==> exists|i: int|
            0 <= i < packages.len() && (#[trigger] packages[i]).attr == attr && needs(
                packages[i],
                results,
                tier,
            ),
    decreases packages.len(),
{
    let all = needing(packages, results, tier);
    if packages.len() > 0 {
        let shorter = packages.drop_last();
        law_needing(shorter, results, tier, attr);
        let front = needing(shorter, results, tier);
        if all.contains(attr) {
            let k = choose|k: int| 0 <= k < all.len() && all[k] == attr;
            if k < front.len() {
                assert(front[k] == attr);
                let i = choose|i: int|
                    0 <= i < shorter.len() && (#[trigger] shorter[i]).attr == attr && needs(
                        shorter[i],
                        results,
                        tier,
                    );
                assert(packages[i] == shorter[i]);
            } else {
                assert(packages[packages.len() - 1].attr == attr);
            }
        }
        if exists|i: int|
            0 <= i < packages.len() && (#[trigger] packages[i]).attr == attr && needs(
                packages[i],
                results,
                tier,
            ) {
            let i = choose|i: int|
                0 <= i < packages.len() && (#[trigger] packages[i]).attr == attr && needs(
                    packages[i],
                    results,
                    tier,
                );
            if i < shorter.len() {
                assert(shorter[i] == packages[i]);
                assert(front.contains(attr));
                let k = choose|k: int| 0 <= k < front.len() && front[k] == attr;
                assert(all[k] == attr);
            } else {
                assert(all[front.len() as int] == attr);
            }
        }
    }
}

/// A package needs an attribute exactly where it changed and no step of that name stands
/// in the first result of the package.
pub proof fn law_needs(p: ChangedText, results: Seq<ResultText>, tier: Seq<char>)
    ensures
        !p.changed.contains(tier) ==> !needs(p, results, tier),
        p.changed.contains(tier) && (forall|i: int|
            0 <= i < results.len() ==> (#[trigger] results[i]).attr != p.attr) ==> needs(
            p,
            results,
            tier,
        ),
        forall|i: int|
            0 <= i < results.len() && (#[trigger] results[i]).attr == p.attr && (forall|j: int|
                0 <= j < i ==> (#[trigger] results[j]).attr != p.attr) && p.changed.contains(tier)
                ==> (needs(p, results, tier) <==> forall|k: int|
                0 <= k < results[i].steps.len() ==> (#[trigger] results[i].steps[k]).0 != tier),
{
    lemma_result_from(results, p.attr, 0);
}

/// The packages that need an attribute are listed in their order, each as often as it is
/// there.
pub proof fn law_needing_in_order(
    packages: Seq<ChangedText>,
    results: Seq<ResultText>,
    tier: Seq<char>,
)
    ensures
        needing(packages, results, tier) == packages.filter(
            |p: ChangedText| needs(p, results, tier),
        ).map_values(|p: ChangedText| p.attr),
    decreases packages.len(),
{
    reveal(Seq::filter);
    let keep = |p: ChangedText| needs(p, results, tier);
    let name = |p: ChangedText| p.attr;
    if packages.len() > 0 {
        law_needing_in_order(packages.drop_last(), results, tier);
        let front = packages.drop_last().filter(keep);
        assert(front.push(packages.last()).map_values(name) == front.map_values(name).push(
            packages.last().attr,
        ));
    } else {
        assert(packages.filter(keep).map_values(name) == Seq::<Seq<char>>::empty());
    }
}

/// The first tier, at or after `from`, for which a package needs a build.
pub open spec fn tier_with_work(
    packages: Seq<ChangedText>,
    results: Seq<ResultText>,
    from: int,
) -> Option<int>
    decreases intermediates().len() - from,
{
    if from >= intermediates().len() {
        None
    } else if needing(packages, results, intermediates()[from]).len() > 0 {
        Some(from)
    } else {
        tier_with_work(packages, results, from + 1)
    }
}

/// Finds the next tier for which packages need a build, and these packages. Where
/// there is none, it is time for the packages themselves.
pub fn next_tier_work(
    packages: &Vec<ChangedPackage>,
    results: &Vec<FullEvalBuildResult>,
    from: usize,
) -> (work: Option<(usize, Vec<String>)>)
    ensures
        match work {
            Some((tier, attrs)) => tier < 15 && tier_with_work(
                changed_texts(packages@),
                result_texts(results@),
                from as int,
            ) == Some(tier as int) && texts(attrs@) == needing(
                changed_texts(packages@),
                result_texts(results@),
                intermediates()[tier as int],
            ),
            None => tier_with_work(
                changed_texts(packages@),
                result_texts(results@),
                from as int,
            ) is None,
        },
{
    let ghost all = changed_texts(packages@);
    let ghost known = result_texts(results@);
    let mut tier: usize = from;
    while tier < 15
        invariant
            all == changed_texts(packages@),
            known == result_texts(results@),
            tier_with_work(all, known, from as int) == tier_with_work(all, known, tier as int),
        decreases 15 - tier,
    {
        let name = INTERMEDIATE_ATTRS[tier];
        assert(intermediates()[tier as int] == name@);
        let attrs = packages_needing(packages, results, name);
        assert(texts(attrs@).len() == attrs@.len());
        if attrs.len() > 0 {
            return Some((tier, attrs));
        }
        tier = tier + 1;
    }
    None
}

proof fn lemma_no_work(packages: Seq<ChangedText>, results: Seq<ResultText>, from: int, tier: int)
    requires
        tier_with_work(packages, results, from) is None,
        from <= tier < intermediates().len(),
    ensures
        needing(packages, results, intermediates()[tier]).len() == 0,
    decreases tier - from,
{
    if from < tier {
        lemma_no_work(packages, results, from + 1, tier);
    }
}

/// Where no tier has work left, every intermediate attribute of the list that
/// changed was built, for every package.
pub proof fn law_no_work_left(
    packages: Seq<ChangedText>,
    results: Seq<ResultText>,
    i: int,
    tier: int,
)
    requires
        tier_with_work(packages, results, 0) is None,
        0 <= i < packages.len(),
        0 <= tier < intermediates().len(),
        packages[i].changed.contains(intermediates()[tier]),
    ensures
        result_place(results, packages[i].attr) matches Some(k) && has_step(
            results[k],
            intermediates()[tier],
        ),
{
    lemma_no_work(packages, results, 0, tier);
    law_needing(packages, results, intermediates()[tier], packages[i].attr);
    if needs(packages[i], results, intermediates()[tier]) {
        let list = needing(packages, results, intermediates()[tier]);
        assert(list.contains(packages[i].attr));
    }
}

// ---------------------------------------------------------------------------
// Looking at the base branch

/// What building on the base branch showed of a build that failed.
#[derive(Clone, Copy, PartialEq, Eq, Structural, Debug)]
pub enum BaseVerdict {
    /// It was not looked at.
    Unchecked,
    /// The package is not there on the base branch.
    NewPackage,
    /// It fails on the base branch too.
    BaseFails,
    /// It builds on the base branch.
    BaseBuilds,
}

/// What was built.
#[derive(Clone, Copy, PartialEq, Eq, Structural, Debug)]
pub enum BuildKind {
    Intermediate,
    Package,
    Tests,
}

/// What happened last in looking at the base branch.
#[derive(Clone, Copy, PartialEq, Eq, Structural, Debug)]
pub enum BaseEvent {
    /// The build on the side of the pull request ended.
    BuildEnded { success: bool, worktree: bool },
    /// A worktree of the base branch was to be made.
    WorktreeTried { made: bool },
    /// The package was looked for on the base branch.
    AttrSought { found: bool },
    /// The build on the base branch ended.
    BaseBuilt { success: bool },
}

/// What to do next in looking at the base branch.
#[derive(Clone, Copy, PartialEq, Eq, Structural, Debug)]
pub enum BaseAction {
    MakeWorktree,
    SeekAttr,
    BuildBase,
    Settle { verdict: BaseVerdict },
}

/// The next thing to do. Only failures are looked at, and only if asked for. For an
/// intermediate attribute and for tests the worktree is made where there is none; for
/// a package it has to be there.
pub open spec fn base_action(kind: BuildKind, enabled: bool, event: BaseEvent) -> BaseAction {
    match event {
        BaseEvent::BuildEnded { success, worktree } => if success || !enabled {
            BaseAction::Settle { verdict: BaseVerdict::Unchecked }
        } else if worktree {
            BaseAction::SeekAttr
        } else if kind != BuildKind::Package {
            BaseAction::MakeWorktree
        } else {
            BaseAction::Settle { verdict: BaseVerdict::Unchecked }
        },
        BaseEvent::WorktreeTried { made } => if made {
            BaseAction::SeekAttr
        } else {
            BaseAction::Settle { verdict: BaseVerdict::Unchecked }
        },
        BaseEvent::AttrSought { found } => if found {
            BaseAction::BuildBase
        } else {
            BaseAction::Settle { verdict: BaseVerdict::NewPackage }
        },
        BaseEvent::BaseBuilt { success } => if success {
            BaseAction::Settle { verdict: BaseVerdict::BaseBuilds }
        } else {
            BaseAction::Settle { verdict: BaseVerdict::BaseFails }
        },
    }
}

/// Decides what to do next in looking at the base branch.
pub fn next_base_action(kind: BuildKind, enabled: bool, event: BaseEvent) -> (action: BaseAction)
    ensures
        action == base_action(kind, enabled, event),
{
    match event {
        BaseEvent::BuildEnded { success, worktree } => {
            if success || !enabled {
                BaseAction::Settle { verdict: BaseVerdict::Unchecked }
            } else if worktree {
                BaseAction::SeekAttr
            } else {
                match kind {
                    BuildKind::Intermediate => BaseAction::MakeWorktree,
                    BuildKind::Tests => BaseAction::MakeWorktree,
                    BuildKind::Package => BaseAction::Settle { verdict: BaseVerdict::Unchecked },
                }
            }
        },
        BaseEvent::WorktreeTried { made } => {
            if made {
                BaseAction::SeekAttr
            } else {
                BaseAction::Settle { verdict: BaseVerdict::Unchecked }
            }
        },
        BaseEvent::AttrSought { found } => {
            if found {
                BaseAction::BuildBase
            } else {
                BaseAction::Settle { verdict: BaseVerdict::NewPackage }
            }
        },
        BaseEvent::BaseBuilt { success } => {
            if success {
                BaseAction::Settle { verdict: BaseVerdict::BaseBuilds }
            } else {
                BaseAction::Settle { verdict: BaseVerdict::BaseFails }
            }
        },
    }
}

/// A failure is taken for one of the base branch only after a build on the base
/// branch failed.
pub proof fn law_base_fails_was_built(kind: BuildKind, enabled: bool, event: BaseEvent)
    requires
        base_action(kind, enabled, event) == (BaseAction::Settle {
            verdict: BaseVerdict::BaseFails,
        }),
    ensures
        event == (BaseEvent::BaseBuilt { success: false }),
{
}

/// A build that succeeded is not looked at on the base branch.
pub proof fn law_success_is_not_checked(kind: BuildKind, enabled: bool, worktree: bool)
    ensures
        base_action(kind, enabled, BaseEvent::BuildEnded { success: true, worktree }) == (
        BaseAction::Settle { verdict: BaseVerdict::Unchecked }),
{
}

/// Once the build on the base branch ended, the verdict is settled by how it ended and
/// by nothing else: a failure is one of the base branch too exactly where that build
/// failed, whatever was built.
pub proof fn law_base_build_settles(kind: BuildKind, enabled: bool, success: bool)
    ensures
        base_action(kind, enabled, BaseEvent::BaseBuilt { success }) is Settle,
        base_action(kind, enabled, BaseEvent::BaseBuilt { success })->verdict
            == BaseVerdict::BaseFails <==> !success,
        base_action(kind, enabled, BaseEvent::BaseBuilt { success })->verdict
            == BaseVerdict::BaseBuilds <==> success,
{
}

/// A package counts as new exactly where it was looked for on the base branch and not
/// found; one that was found is built there.
pub proof fn law_new_package_was_sought(kind: BuildKind, enabled: bool, event: BaseEvent)
    ensures
        base_action(kind, enabled, event) == (BaseAction::Settle {
            verdict: BaseVerdict::NewPackage,
        }) <==> event == (BaseEvent::AttrSought { found: false }),
        base_action(kind, enabled, event) == BaseAction::BuildBase <==> event == (
        BaseEvent::AttrSought { found: true }),
        base_action(kind, enabled, event) == (BaseAction::Settle {
            verdict: BaseVerdict::BaseBuilds,
        }) <==> event == (BaseEvent::BaseBuilt { success: true }),
{
}

/// A package is looked for on the base branch exactly where there is a worktree of it:
/// one that was there when a build failed that is to be looked at, or one that was made.
/// One is made exactly where such a build was not that of a package and none is there.
pub proof fn law_worktree_before_search(kind: BuildKind, enabled: bool, event: BaseEvent)
    ensures
        base_action(kind, enabled, event) == BaseAction::SeekAttr <==> (event == (
        BaseEvent::WorktreeTried { made: true }) || (enabled && event == (BaseEvent::BuildEnded {
            success: false,
            worktree: true,
        }))),
        base_action(kind, enabled, event) == BaseAction::MakeWorktree <==> (enabled && kind
            != BuildKind::Package && event == (BaseEvent::BuildEnded {
            success: false,
            worktree: false,
        })),
{
}

/// What a look at the base branch finds there.
pub struct BaseFacts {
    /// There was a worktree when the build ended.
    pub worktree: bool,
    /// One can be made.
    pub made: bool,
    /// The package is there.
    pub found: bool,
    /// It builds there.
    pub builds: bool,
}

/// What happens when something is done in looking at the base branch.
pub open spec fn base_answer(action: BaseAction, facts: BaseFacts) -> Option<BaseEvent> {
    match action {
        BaseAction::MakeWorktree => Some(BaseEvent::WorktreeTried { made: facts.made }),
        BaseAction::SeekAttr => Some(BaseEvent::AttrSought { found: facts.found }),
        BaseAction::BuildBase => Some(BaseEvent::BaseBuilt { success: facts.builds }),
        BaseAction::Settle { .. } => None,
    }
}

/// The verdict that is reached within `fuel` further things to do.
pub open spec fn verdict_after(
    kind: BuildKind,
    enabled: bool,
    event: BaseEvent,
    facts: BaseFacts,
    fuel: nat,
) -> Option<BaseVerdict>
    decreases fuel,
{
    let action = base_action(kind, enabled, event);
    match base_answer(action, facts) {
        None => Some(action->verdict),
        Some(next) => if fuel == 0 {
            None
        } else {
            verdict_after(kind, enabled, next, facts, (fuel - 1) as nat)
        },
    }
}

/// What comes of looking at a build on the base branch, from its end to the verdict. It
/// is looked at exactly where it failed, where that was asked for and where a worktree
/// of the base branch is there or, unless it was the build of a package, can be made.
/// Then a package that is not there is new, and of one that is there the verdict is
/// whether it builds there.
pub proof fn law_whole_look_at_base(
    kind: BuildKind,
    enabled: bool,
    success: bool,
    facts: BaseFacts,
)
    ensures
        ({
            let verdict = verdict_after(
                kind,
                enabled,
                BaseEvent::BuildEnded { success, worktree: facts.worktree },
                facts,
                3,
            );
            let looked = enabled && !success && (facts.worktree || (facts.made && kind
                != BuildKind::Package));
            &&& verdict is Some
            &&& verdict == Some(BaseVerdict::Unchecked) <==> !looked
            &&& verdict == Some(BaseVerdict::NewPackage) <==> looked && !facts.found
            &&& verdict == Some(BaseVerdict::BaseFails) <==> looked && facts.found && !facts.builds
            &&& verdict == Some(BaseVerdict::BaseBuilds) <==> looked && facts.found && facts.builds
        }),
{
    reveal_with_fuel(verdict_after, 5);
}

/// Claims the making of the worktree: only the first to claim it makes it.
pub fn claim_worktree(exists: &mut bool) -> (make: bool)
    ensures
        make == !*old(exists),
        *final(exists),
{
    if *exists {
        false
    } else {
        *exists = true;
        true
    }
}

// ---------------------------------------------------------------------------
// Recording

/// A result after a step of it was built.
pub open spec fn with_step(
    r: ResultText,
    name: Seq<char>,
    success: bool,
    logs: Seq<char>,
    non_deterministic: bool,
    verdict: BaseVerdict,
) -> ResultText {
    ResultText {
        steps: r.steps.push((name, success, logs)),
        non_deterministic: r.non_deterministic || non_deterministic,
        on_base: r.on_base && verdict != BaseVerdict::NewPackage,
        false_positive: r.false_positive || verdict == BaseVerdict::BaseFails,
        ..r
    }
}

/// A result after its package was built.
pub open spec fn with_package(
    r: ResultText,
    success: bool,
    logs: Seq<char>,
    verdict: BaseVerdict,
) -> ResultText {
    ResultText {
        success,
        logs,
        on_base: r.on_base && verdict != BaseVerdict::NewPackage,
        false_positive: r.false_positive || verdict == BaseVerdict::BaseFails,
        ..r
    }
}

/// The results after a step of a package was built; a package without a result
/// changes nothing.
pub open spec fn step_recorded(
    results: Seq<ResultText>,
    attr: Seq<char>,
    name: Seq<char>,
    success: bool,
    logs: Seq<char>,
    non_deterministic: bool,
    verdict: BaseVerdict,
) -> Seq<ResultText> {
    match result_place(results, attr) {
        Some(i) => results.update(
            i,
            with_step(results[i], name, success, logs, non_deterministic, verdict),
        ),
        None => results,
    }
}

/// The results after a package was built.
pub open spec fn package_recorded(
    results: Seq<ResultText>,
    attr: Seq<char>,
    success: bool,
    logs: Seq<char>,
    verdict: BaseVerdict,
) -> Seq<ResultText> {
    match result_place(results, attr) {
        Some(i) => results.update(i, with_package(results[i], success, logs, verdict)),
        None => results,
    }
}

/// What recording a build does to the first result of its package. A step is added
/// behind the others, with its outcome and log, and the package counts as it did. A
/// package that was built gets its outcome and log and keeps its steps. Tests are added
/// as a step, and where they fail the package is no success. In each case the result is
/// marked as a failure of the base branch exactly where it was or the verdict says so,
/// and as there on the base branch exactly where it was and the verdict does not say
/// that the package is new; its name and system stay.
pub proof fn law_recorded_says(
    results: Seq<ResultText>,
    i: int,
    name: Seq<char>,
    success: bool,
    logs: Seq<char>,
    non_deterministic: bool,
    verdict: BaseVerdict,
)
    requires
        0 <= i < results.len(),
        forall|j: int| 0 <= j < i ==> (#[trigger] results[j]).attr != results[i].attr,
    ensures
        ({
            let r = results[i];
            let step = step_recorded(
                results,
                r.attr,
                name,
                success,
                logs,
                non_deterministic,
                verdict,
            )[i];
            let package = package_recorded(results, r.attr, success, logs, verdict)[i];
            let tests = tests_recorded(results, r.attr, success, logs, verdict)[i];
            &&& step.steps == r.steps.push((name, success, logs))
            &&& step.success == r.success && step.logs == r.logs
            &&& step.non_deterministic <==> r.non_deterministic || non_deterministic
            &&& package.steps == r.steps
            &&& package.success == success && package.logs == logs
            &&& package.non_deterministic == r.non_deterministic
            &&& tests.steps == r.steps.push(("tests"@, success, logs))
            &&& tests.success <==> r.success && success
            &&& tests.logs == r.logs && tests.non_deterministic == r.non_deterministic
            &&& step.attr == r.attr && package.attr == r.attr && tests.attr == r.attr
            &&& step.system == r.system && package.system == r.system && tests.system == r.system
            &&& step.false_positive <==> r.false_positive || verdict == BaseVerdict::BaseFails
            &&& package.false_positive <==> r.false_positive || verdict == BaseVerdict::BaseFails
            &&& tests.false_positive <==> r.false_positive || verdict == BaseVerdict::BaseFails
            &&& step.on_base <==> r.on_base && verdict != BaseVerdict::NewPackage
            &&& package.on_base <==> r.on_base && verdict != BaseVerdict::NewPackage
            &&& tests.on_base <==> r.on_base && verdict != BaseVerdict::NewPackage
        }),
{
    lemma_result_from(results, results[i].attr, 0);
}

/// Recording changes at most the first result of a package: every other stays as it is,
/// and none comes or goes.
pub proof fn law_recording_touches_one(
    results: Seq<ResultText>,
    attr: Seq<char>,
    name: Seq<char>,
    success: bool,
    logs: Seq<char>,
    non_deterministic: bool,
    verdict: BaseVerdict,
    i: int,
)
    requires
        0 <= i < results.len(),
        results[i].attr != attr || exists|j: int|
            0 <= j < i && (#[trigger] results[j]).attr == attr,
    ensures
        step_recorded(results, attr, name, success, logs, non_deterministic, verdict).len()
            == results.len(),
        step_recorded(results, attr, name, success, logs, non_deterministic, verdict)[i]
            == results[i],
        package_recorded(results, attr, success, logs, verdict).len() == results.len(),
        package_recorded(results, attr, success, logs, verdict)[i] == results[i],
        tests_recorded(results, attr, success, logs, verdict).len() == results.len(),
        tests_recorded(results, attr, success, logs, verdict)[i] == results[i],
{
    lemma_result_from(results, attr, 0);
}

fn settle(result: &mut FullEvalBuildResult, verdict: BaseVerdict)
    ensures
        final(result)@ == (ResultText {
            on_base: old(result)@.on_base && verdict != BaseVerdict::NewPackage,
            false_positive: old(result)@.false_positive || verdict == BaseVerdict::BaseFails,
            ..old(result)@
        }),
        final(result).intermediate_results@ == old(result).intermediate_results@,
{
    match verdict {
        BaseVerdict::NewPackage => {
            result.exists_on_base = false;
        },
        BaseVerdict::BaseFails => {
            result.is_false_positive = true;
        },
        _ => {},
    }
}

/// Records that a step of a package was built.
pub fn record_step(
    results: &mut Vec<FullEvalBuildResult>,
    attr: &str,
    name: String,
    success: bool,
    logs: String,
    non_deterministic: bool,
    verdict: BaseVerdict,
)
    ensures
        result_texts(final(results)@) == step_recorded(
            result_texts(old(results)@),
            attr@,
            name@,
            success,
            logs@,
            non_deterministic,
            verdict,
        ),
{
    let ghost before = results@;
    let place = find_result(results, attr);
    if let Some(i) = place {
        let mut result = take_out(results, i);
        let ghost was = result@;
        let ghost step = (name@, success, logs@);
        settle(&mut result, verdict);
        if non_deterministic {
            result.is_non_deterministic = true;
        }
        let ghost steps = step_texts(result.intermediate_results@);
        result.intermediate_results.push((name, success, logs));
        assert(step_texts(result.intermediate_results@) == steps.push(step));
        let ghost here = result@;
        assert(here == with_step(was, step.0, success, step.2, non_deterministic, verdict));
        results.set(i, result);
        assert(result_texts(results@) == result_texts(before).update(i as int, here));
    }
}

/// Records that a package was built.
pub fn record_package(
    results: &mut Vec<FullEvalBuildResult>,
    attr: &str,
    success: bool,
    logs: String,
    verdict: BaseVerdict,
)
    ensures
        result_texts(final(results)@) == package_recorded(
            result_texts(old(results)@),
            attr@,
            success,
            logs@,
            verdict,
        ),
{
    let ghost before = results@;
    let place = find_result(results, attr);
    if let Some(i) = place {
        let mut result = take_out(results, i);
        settle(&mut result, verdict);
        result.package_success = success;
        result.package_logs = logs;
        let ghost here = result@;
        results.set(i, result);
        assert(result_texts(results@) == result_texts(before).update(i as int, here));
    }
}

/// The step under which the tests of a package are recorded.
pub const TESTS_STEP: &'static str = "tests";

/// A result after the tests of its package were built: where they fail it is no
/// success.
pub open spec fn with_tests(
    r: ResultText,
    success: bool,
    logs: Seq<char>,
    verdict: BaseVerdict,
) -> ResultText {
    ResultText {
        steps: r.steps.push((TESTS_STEP@, success, logs)),
        success: r.success && success,
        on_base: r.on_base && verdict != BaseVerdict::NewPackage,
        false_positive: r.false_positive || verdict == BaseVerdict::BaseFails,
        ..r
    }
}

/// The results after the tests of a package were built.
pub open spec fn tests_recorded(
    results: Seq<ResultText>,
    attr: Seq<char>,
    success: bool,
    logs: Seq<char>,
    verdict: BaseVerdict,
) -> Seq<ResultText> {
    match result_place(results, attr) {
        Some(i) => results.update(i, with_tests(results[i], success, logs, verdict)),
        None => results,
    }
}

/// Records that the tests of a package were built.
pub fn record_tests(
    results: &mut Vec<FullEvalBuildResult>,
    attr: &str,
    success: bool,
    logs: String,
    verdict: BaseVerdict,
)
    ensures
        result_texts(final(results)@) == tests_recorded(
            result_texts(old(results)@),
            attr@,
            success,
            logs@,
            verdict,
        ),
{
    let ghost before = results@;
    let place = find_result(results, attr);
    if let Some(i) = place {
        let mut result = take_out(results, i);
        let ghost was = result@;
        let ghost step = (TESTS_STEP@, success, logs@);
        settle(&mut result, verdict);
        let ghost steps = step_texts(result.intermediate_results@);
        result.intermediate_results.push((TESTS_STEP.to_string(), success, logs));
        assert(step_texts(result.intermediate_results@) == steps.push(step));
        if !success {
            result.package_success = false;
        }
        let ghost here = result@;
        assert(here == with_tests(was, success, step.2, verdict));
        results.set(i, result);
        assert(result_texts(results@) == result_texts(before).update(i as int, here));
    }
}

/// Takes a result out of its place, leaving an empty one there.
fn take_out(results: &mut Vec<FullEvalBuildResult>, i: usize) -> (result: FullEvalBuildResult)
    requires
        i < old(results)@.len(),
    ensures
        result == old(results)@[i as int],
        final(results)@.len() == old(results)@.len(),
        forall|k: int|
            0 <= k < old(results)@.len() && k != i ==> #[trigger] final(results)@[k] == old(
                results,
            )@[k],
{
    let mut result = FullEvalBuildResult {
        attr: String::new(),
        system: String::new(),
        intermediate_results: Vec::new(),
        package_success: false,
        package_logs: String::new(),
        is_false_positive: false,
        is_non_deterministic: false,
        exists_on_base: false,
    };
    results.set_and_swap(i, &mut result);
    result
}

// ---------------------------------------------------------------------------
// Final packages

/// Whether every step of a list succeeded.
pub open spec fn no_step_failed(steps: Seq<(Seq<char>, bool, Seq<char>)>) -> bool {
    forall|k: int| 0 <= k < steps.len() ==> (#[trigger] steps[k]).1
}

/// Whether every step of a result succeeded.
pub open spec fn all_steps_ok(r: ResultText) -> bool {
    no_step_failed(r.steps)
}

/// The packages whose steps all succeeded.
pub open spec fn ready(results: Seq<ResultText>) -> Seq<Seq<char>>
    decreases results.len(),
{
    if results.len() == 0 {
        Seq::empty()
    } else if all_steps_ok(results.last()) {
        ready(results.drop_last()).push(results.last().attr)
    } else {
        ready(results.drop_last())
    }
}

fn steps_ok(steps: &Vec<(String, bool, String)>) -> (yes: bool)
    ensures
        yes == no_step_failed(step_texts(steps@)),
{
    let n: usize = steps.len();
    for i in 0..n
        invariant
            n == steps@.len(),
            forall|k: int| 0 <= k < i ==> (#[trigger] step_texts(steps@)[k]).1,
    {
        assert(step_texts(steps@)[i as int].1 == steps@[i as int].1);
        if !steps[i].1 {
            return false;
        }
    }
    true
}

/// Lists the packages whose steps all succeeded: these are built in the end.
pub fn packages_ready(results: &Vec<FullEvalBuildResult>) -> (attrs: Vec<String>)
    ensures
        texts(attrs@) == ready(result_texts(results@)),
{
    let n: usize = results.len();
    let ghost all = result_texts(results@);
    let mut attrs: Vec<String> = Vec::new();
    assert(texts(attrs@) == ready(all.take(0)));
    for i in 0..n
        invariant
            n == results@.len(),
            all == result_texts(results@),
            texts(attrs@) == ready(all.take(i as int)),
    {
        proof {
            assert(all.take(i + 1).drop_last() == all.take(i as int));
            assert(all.take(i + 1).last() == results@[i as int]@);
        }
        let ok = steps_ok(&results[i].intermediate_results);
        assert(ok == all_steps_ok(results@[i as int]@));
        if ok {
            let ghost before = texts(attrs@);
            attrs.push(results[i].attr.clone());
            assert(texts(attrs@) == before.push(results@[i as int].attr@));
        }
    }
    assert(all.take(n as int) == all);
    attrs
}

/// A package is built in the end exactly where none of its steps failed.
pub proof fn law_ready(results: Seq<ResultText>, attr: Seq<char>)
    ensures
        ready(results).contains(attr) <==> exists|i: int|
            0 <= i < results.len() && (#[trigger] results[i]).attr == attr && all_steps_ok(
                results[i],
            ),
    decreases results.len(),
{
    let all = ready(results);
    if results.len() > 0 {
        let shorter = results.drop_last();
        law_ready(shorter, attr);
        let front = ready(shorter);
        if all.contains(attr) {
            let k = choose|k: int| 0 <= k < all.len() && all[k] == attr;
            if k < front.len() {
                assert(front[k] == attr);
                let i = choose|i: int|
                    0 <= i < shorter.len() && (#[trigger] shorter[i]).attr == attr
                        && all_steps_ok(shorter[i]);
                assert(results[i] == shorter[i]);
            } else {
                assert(results[results.len() - 1].attr == attr);
            }
        }
        if exists|i: int|
            0 <= i < results.len() && (#[trigger] results[i]).attr == attr && all_steps_ok(
                results[i],
            ) {
            let i = choose|i: int|
                0 <= i < results.len() && (#[trigger] results[i]).attr == attr && all_steps_ok(
                    results[i],
                );
            if i < shorter.len() {
                assert(shorter[i] == results[i]);
                assert(front.contains(attr));
                let k = choose|k: int| 0 <= k < front.len() && front[k] == attr;
                assert(all[k] == attr);
            } else {
                assert(all[front.len() as int] == attr);
            }
        }
    }
}

/// The packages whose steps all succeeded are listed in the order of the results, and a
/// single step that failed is enough to leave a package out.
pub proof fn law_ready_in_order(results: Seq<ResultText>)
    ensures
        ready(results) == results.filter(
            |r: ResultText| forall|k: int| 0 <= k < r.steps.len() ==> (#[trigger] r.steps[k]).1,
        ).map_values(|r: ResultText| r.attr),
    decreases results.len(),
{
    reveal(Seq::filter);
    let keep = |r: ResultText| forall|k: int| 0 <= k < r.steps.len() ==> (#[trigger] r.steps[k]).1;
    let name = |r: ResultText| r.attr;
    if results.len() > 0 {
        law_ready_in_order(results.drop_last());
        let front = results.drop_last().filter(keep);
        assert(front.push(results.last()).map_values(name) == front.map_values(name).push(
            results.last().attr,
        ));
        assert(keep(results.last()) == all_steps_ok(results.last()));
    } else {
        assert(results.filter(keep).map_values(name) == Seq::<Seq<char>>::empty());
    }
}

// ---------------------------------------------------------------------------
// The whole way

/// How far building for a system is.
#[derive(Clone, Copy, PartialEq, Eq, Structural, Debug)]
pub enum SystemStage {
    /// The tiers from this one on are still to be gone through, and the packages.
    Tiers { from: usize },
    /// The packages were handed out; their tests are still to be.
    Tests,
    /// Everything was handed out.
    Over,
}

/// What is to be built next, all at once.
#[derive(Debug)]
pub enum SystemWork {
    /// The intermediate attribute of a tier, for these packages.
    Steps { tier: usize, attrs: Vec<String> },
    /// These packages.
    Packages { attrs: Vec<String> },
    /// The tests of these packages, where they have some.
    Tests { attrs: Vec<String> },
    /// Nothing.
    Nothing,
}

/// What is to be built next, in texts.
pub enum WorkText {
    Steps { tier: int, attrs: Seq<Seq<char>> },
    Packages { attrs: Seq<Seq<char>> },
    Tests { attrs: Seq<Seq<char>> },
    Nothing,
}

impl View for SystemWork {
    type V = WorkText;

    open spec fn view(&self) -> WorkText {
        match self {
            SystemWork::Steps { tier, attrs } => WorkText::Steps {
                tier: *tier as int,
                attrs: texts(attrs@),
            },
            SystemWork::Packages { attrs } => WorkText::Packages { attrs: texts(attrs@) },
            SystemWork::Tests { attrs } => WorkText::Tests { attrs: texts(attrs@) },
            SystemWork::Nothing => WorkText::Nothing,
        }
    }
}

/// The packages that were built.
pub open spec fn built(results: Seq<ResultText>) -> Seq<Seq<char>>
    decreases results.len(),
{
    if results.len() == 0 {
        Seq::empty()
    } else if results.last().success {
        built(results.drop_last()).push(results.last().attr)
    } else {
        built(results.drop_last())
    }
}

/// Lists the packages that were built.
pub fn packages_built(results: &Vec<FullEvalBuildResult>) -> (attrs: Vec<String>)
    ensures
        texts(attrs@) == built(result_texts(results@)),
{
    let n: usize = results.len();
    let ghost all = result_texts(results@);
    let mut attrs: Vec<String> = Vec::new();
    assert(texts(attrs@) == built(all.take(0)));
    for i in 0..n
        invariant
            n == results@.len(),
            all == result_texts(results@),
            texts(attrs@) == built(all.take(i as int)),
    {
        proof {
            assert(all.take(i + 1).drop_last() == all.take(i as int));
            assert(all.take(i + 1).last() == results@[i as int]@);
        }
        if results[i].package_success {
            let ghost before = texts(attrs@);
            attrs.push(results[i].attr.clone());
            assert(texts(attrs@) == before.push(results@[i as int].attr@));
        }
    }
    assert(all.take(n as int) == all);
    attrs
}

/// The packages that were built are listed in the order of the results, all of them and
/// no other.
pub proof fn law_built_in_order(results: Seq<ResultText>)
    ensures
        built(results) == results.filter(|r: ResultText| r.success).map_values(
            |r: ResultText| r.attr,
        ),
    decreases results.len(),
{
    reveal(Seq::filter);
    let keep = |r: ResultText| r.success;
    let name = |r: ResultText| r.attr;
    if results.len() > 0 {
        law_built_in_order(results.drop_last());
        let front = results.drop_last().filter(keep);
        assert(front.push(results.last()).map_values(name) == front.map_values(name).push(
            results.last().attr,
        ));
    } else {
        assert(results.filter(keep).map_values(name) == Seq::<Seq<char>>::empty());
    }
}

/// What is to be built next, and how far building is then: one tier after the other,
/// where it has work; then the packages that none of their steps holds up; and in the
/// end, unless they are to be skipped, the tests of the packages that were built.
pub open spec fn system_next(
    packages: Seq<ChangedText>,
    results: Seq<ResultText>,
    stage: SystemStage,
    skip_tests: bool,
) -> (WorkText, SystemStage) {
    match stage {
        SystemStage::Tiers { from } => match tier_with_work(packages, results, from as int) {
            Some(tier) => (
                WorkText::Steps { tier, attrs: needing(packages, results, intermediates()[tier]) },
                SystemStage::Tiers { from: (tier + 1) as usize },
            ),
            None => if ready(results).len() == 0 {
                (WorkText::Nothing, SystemStage::Over)
            } else if skip_tests {
                (WorkText::Packages { attrs: ready(results) }, SystemStage::Over)
            } else {
                (WorkText::Packages { attrs: ready(results) }, SystemStage::Tests)
            },
        },
        SystemStage::Tests => if built(results).len() == 0 {
            (WorkText::Nothing, SystemStage::Over)
        } else {
            (WorkText::Tests { attrs: built(results) }, SystemStage::Over)
        },
        SystemStage::Over => (WorkText::Nothing, SystemStage::Over),
    }
}

/// Hands out what is to be built next. What was handed out before has to be recorded
/// by then.
pub fn next_system_work(
    packages: &Vec<ChangedPackage>,
    results: &Vec<FullEvalBuildResult>,
    stage: SystemStage,
    skip_tests: bool,
) -> (next: (SystemWork, SystemStage))
    ensures
        (next.0@, next.1) == system_next(
            changed_texts(packages@),
            result_texts(results@),
            stage,
            skip_tests,
        ),
{
    match stage {
        SystemStage::Tiers { from } => match next_tier_work(packages, results, from) {
            Some((tier, attrs)) => (
                SystemWork::Steps { tier, attrs },
                SystemStage::Tiers { from: tier + 1 },
            ),
            None => {
                let attrs = packages_ready(results);
                assert(texts(attrs@).len() == attrs@.len());
                if attrs.len() == 0 {
                    (SystemWork::Nothing, SystemStage::Over)
                } else if skip_tests {
                    (SystemWork::Packages { attrs }, SystemStage::Over)
                } else {
                    (SystemWork::Packages { attrs }, SystemStage::Tests)
                }
            },
        },
        SystemStage::Tests => {
            let attrs = packages_built(results);
            assert(texts(attrs@).len() == attrs@.len());
            if attrs.len() == 0 {
                (SystemWork::Nothing, SystemStage::Over)
            } else {
                (SystemWork::Tests { attrs }, SystemStage::Over)
            }
        },
        SystemStage::Over => (SystemWork::Nothing, SystemStage::Over),
    }
}

proof fn lemma_tier_with_work(packages: Seq<ChangedText>, results: Seq<ResultText>, from: int)
    requires
        0 <= from,
    ensures
        tier_with_work(packages, results, from) matches Some(tier) ==> from <= tier
            < intermediates().len() && needing(packages, results, intermediates()[tier]).len() > 0
            && (forall|t: int|
            from <= t < tier ==> needing(packages, results, #[trigger] intermediates()[t]).len()
                == 0),
        tier_with_work(packages, results, from) is None ==> (forall|t: int|
            from <= t < intermediates().len() ==> needing(
                packages,
                results,
                #[trigger] intermediates()[t],
            ).len() == 0),
    decreases intermediates().len() - from,
{
    if from < intermediates().len() && needing(packages, results, intermediates()[from]).len() == 0 {
        lemma_tier_with_work(packages, results, from + 1);
    }
}

/// Building for a system comes to an end: each time a later tier is handed out, then
/// the packages, then at most the tests, and after that nothing.
pub proof fn law_system_build_ends(
    packages: Seq<ChangedText>,
    results: Seq<ResultText>,
    stage: SystemStage,
    skip_tests: bool,
)
    ensures
        ({
            let (work, after) = system_next(packages, results, stage, skip_tests);
            match stage {
                SystemStage::Tiers { from } => match after {
                    SystemStage::Tiers { from: later } => from < later <= intermediates().len()
                        && work == (WorkText::Steps {
                        tier: later - 1,
                        attrs: needing(packages, results, intermediates()[later - 1]),
                    }),
                    SystemStage::Tests => work is Packages && !skip_tests,
                    SystemStage::Over => work is Nothing || (work is Packages && skip_tests),
                },
                SystemStage::Tests => after == SystemStage::Over && (work is Tests
                    || work is Nothing),
                SystemStage::Over => after == stage && work == WorkText::Nothing,
            }
        }),
{
    match stage {
        SystemStage::Tiers { from } => lemma_tier_with_work(packages, results, from as int),
        _ => {},
    }
}

/// What is handed out. While a tier that was not gone through has a package that needs
/// its attribute, it is the first such tier and all packages that need it; nothing else
/// is handed out before. Then it is all packages that none of their steps holds up, and
/// their tests come after them unless they are to be skipped. Of the tests, those of all
/// packages that were built.
pub proof fn law_work_handed_out(
    packages: Seq<ChangedText>,
    results: Seq<ResultText>,
    from: usize,
    skip_tests: bool,
    tier: int,
)
    requires
        0 <= tier < intermediates().len(),
    ensures
        ({
            let (work, after) = system_next(
                packages,
                results,
                SystemStage::Tiers { from },
                skip_tests,
            );
            let (last, end) = system_next(packages, results, SystemStage::Tests, skip_tests);
            &&& from <= tier && needing(packages, results, intermediates()[tier]).len() > 0
                ==> work is Steps && from <= work->tier <= tier
            &&& work is Steps ==> from <= work->tier < intermediates().len()
                && work->Steps_attrs.len() > 0 && work->Steps_attrs == needing(
                packages,
                results,
                intermediates()[work->tier],
            ) && after == (SystemStage::Tiers { from: (work->tier + 1) as usize })
            &&& work is Steps && from <= tier < work->tier ==> needing(
                packages,
                results,
                intermediates()[tier],
            ).len() == 0
            &&& !(work is Steps) && ready(results).len() > 0 ==> work is Packages
                && work->Packages_attrs == ready(results) && (after == SystemStage::Tests
                <==> !skip_tests) && (after == SystemStage::Over <==> skip_tests)
            &&& !(work is Steps) && ready(results).len() == 0 ==> work is Nothing && after
                == SystemStage::Over
            &&& end == SystemStage::Over
            &&& built(results).len() > 0 ==> last is Tests && last->Tests_attrs == built(results)
            &&& built(results).len() == 0 ==> last is Nothing
        }),
{
    lemma_tier_with_work(packages, results, from as int);
}

// ---------------------------------------------------------------------------
// What recording keeps

/// Recording a step keeps which packages have results and in which order, and
/// leaves those of the other packages alone.
pub proof fn law_step_recorded_frame(
    results: Seq<ResultText>,
    attr: Seq<char>,
    name: Seq<char>,
    success: bool,
    logs: Seq<char>,
    non_deterministic: bool,
    verdict: BaseVerdict,
    i: int,
)
    requires
        0 <= i < results.len(),
    ensures
        ({
            let after = step_recorded(
                results,
                attr,
                name,
                success,
                logs,
                non_deterministic,
                verdict,
            );
            &&& after.len() == results.len()
            &&& after[i].attr == results[i].attr
            &&& results[i].attr != attr ==> after[i] == results[i]
        }),
{
    lemma_result_from(results, attr, 0);
}

/// Recording a package keeps which packages have results and in which order, and
/// leaves those of the other packages alone.
pub proof fn law_package_recorded_frame(
    results: Seq<ResultText>,
    attr: Seq<char>,
    success: bool,
    logs: Seq<char>,
    verdict: BaseVerdict,
    i: int,
)
    requires
        0 <= i < results.len(),
    ensures
        ({
            let after = package_recorded(results, attr, success, logs, verdict);
            &&& after.len() == results.len()
            &&& after[i].attr == results[i].attr
            &&& results[i].attr != attr ==> after[i] == results[i]
        }),
{
    lemma_result_from(results, attr, 0);
}

/// A result becomes a false positive only where the base branch failed too.
pub proof fn law_false_positive_needs_base_failure(
    results: Seq<ResultText>,
    attr: Seq<char>,
    name: Seq<char>,
    success: bool,
    logs: Seq<char>,
    non_deterministic: bool,
    verdict: BaseVerdict,
    i: int,
)
    requires
        0 <= i < results.len(),
        !results[i].false_positive,
        verdict != BaseVerdict::BaseFails,
    ensures
        !step_recorded(results, attr, name, success, logs, non_deterministic, verdict)[i].false_positive,
        !package_recorded(results, attr, success, logs, verdict)[i].false_positive,
{
    lemma_result_from(results, attr, 0);
}

/// A step that was recorded is not asked for again.
pub proof fn law_recorded_step_is_done(
    packages: Seq<ChangedText>,
    results: Seq<ResultText>,
    attr: Seq<char>,
    name: Seq<char>,
    success: bool,
    logs: Seq<char>,
    non_deterministic: bool,
    verdict: BaseVerdict,
)
    requires
        result_place(results, attr) is Some,
    ensures
        !needing(
            packages,
            step_recorded(results, attr, name, success, logs, non_deterministic, verdict),
            name,
        ).contains(attr),
{
    let after = step_recorded(results, attr, name, success, logs, non_deterministic, verdict);
    lemma_result_from(results, attr, 0);
    lemma_result_from(after, attr, 0);
    let i = result_place(results, attr)->0;
    assert(after[i].attr == attr);
    let k = result_place(after, attr)->0;
    if k < i {
        assert(after[k] == results[k]);
        assert(results[k].attr != attr);
    }
    assert(k == i);
    let last = after[i].steps.len() - 1;
    assert(after[i].steps[last].0 == name);
    law_needing(packages, after, name, attr);
}

/// A package with a step that failed is not built in the end.
pub proof fn law_failed_step_blocks(
    results: Seq<ResultText>,
    attr: Seq<char>,
    name: Seq<char>,
    logs: Seq<char>,
    non_deterministic: bool,
    verdict: BaseVerdict,
)
    requires
        one_each(results),
        result_place(results, attr) is Some,
    ensures
        !ready(
            step_recorded(results, attr, name, false, logs, non_deterministic, verdict),
        ).contains(attr),
{
    let after = step_recorded(results, attr, name, false, logs, non_deterministic, verdict);
    lemma_result_from(results, attr, 0);
    let i = result_place(results, attr)->0;
    let last = after[i].steps.len() - 1;
    assert(!after[i].steps[last].1);
    law_ready(after, attr);
    assert forall|j: int| 0 <= j < after.len() && j != i implies (#[trigger] after[j]).attr
        != attr by {
        assert(after[j] == results[j]);
        assert(results[i].attr != results[j].attr);
    }
}

/// Recording keeps one result for each package.
pub proof fn law_recording_keeps_one_each(
    results: Seq<ResultText>,
    attr: Seq<char>,
    name: Seq<char>,
    success: bool,
    logs: Seq<char>,
    non_deterministic: bool,
    verdict: BaseVerdict,
)
    requires
        one_each(results),
    ensures
        one_each(step_recorded(results, attr, name, success, logs, non_deterministic, verdict)),
        one_each(package_recorded(results, attr, success, logs, verdict)),
{
    lemma_result_from(results, attr, 0);
    let stepped = step_recorded(results, attr, name, success, logs, non_deterministic, verdict);
    let packaged = package_recorded(results, attr, success, logs, verdict);
    assert forall|i: int, j: int| 0 <= i < j < results.len() implies (#[trigger] stepped[i]).attr
        != (#[trigger] stepped[j]).attr by {
        assert(results[i].attr != results[j].attr);
    }
    assert forall|i: int, j: int| 0 <= i < j < results.len() implies (#[trigger] packaged[i]).attr
        != (#[trigger] packaged[j]).attr by {
        assert(results[i].attr != results[j].attr);
    }
}

// ---------------------------------------------------------------------------
// What is left to do

/// Whether the tiers before one have nothing left to build.
pub open spec fn tiers_done(
    packages: Seq<ChangedText>,
    results: Seq<ResultText>,
    before: int,
) -> bool {
    forall|t: int|
        0 <= t < before && t < intermediates().len() ==> needing(
            packages,
            results,
            #[trigger] intermediates()[t],
        ).len() == 0
}

/// What came of building a step for a package.
pub struct StepOutcome {
    pub attr: Seq<char>,
    pub success: bool,
    pub logs: Seq<char>,
    pub non_deterministic: bool,
    pub verdict: BaseVerdict,
}

/// The results after all outcomes of a tier were recorded.
pub open spec fn tier_recorded(
    results: Seq<ResultText>,
    name: Seq<char>,
    outcomes: Seq<StepOutcome>,
) -> Seq<ResultText>
    decreases outcomes.len(),
{
    if outcomes.len() == 0 {
        results
    } else {
        let o = outcomes.last();
        step_recorded(
            tier_recorded(results, name, outcomes.drop_last()),
            o.attr,
            name,
            o.success,
            o.logs,
            o.non_deterministic,
            o.verdict,
        )
    }
}

proof fn lemma_place_kept(
    results: Seq<ResultText>,
    o: StepOutcome,
    name: Seq<char>,
    attr: Seq<char>,
)
    ensures
        ({
            let after = step_recorded(
                results,
                o.attr,
                name,
                o.success,
                o.logs,
                o.non_deterministic,
                o.verdict,
            );
            &&& result_place(after, attr) == result_place(results, attr)
            &&& after.len() == results.len()
            &&& forall|i: int, n: Seq<char>|
                0 <= i < results.len() && has_step(results[i], n) ==> #[trigger] has_step(
                    after[i],
                    n,
                )
            &&& result_place(results, o.attr) matches Some(i) ==> has_step(after[i], name)
        }),
{
    let after = step_recorded(
        results,
        o.attr,
        name,
        o.success,
        o.logs,
        o.non_deterministic,
        o.verdict,
    );
    lemma_result_from(results, o.attr, 0);
    lemma_result_from(results, attr, 0);
    lemma_result_from(after, attr, 0);
    assert forall|i: int| 0 <= i < results.len() implies (#[trigger] after[i]).attr
        == results[i].attr by {}
    match (result_place(results, attr), result_place(after, attr)) {
        (Some(i), Some(k)) => {
            if k < i {
                assert(after[k].attr == results[k].attr);
            } else if i < k {
                assert(after[i].attr == results[i].attr);
            }
        },
        (Some(i), None) => {
            assert(after[i].attr == results[i].attr);
        },
        (None, Some(k)) => {
            assert(after[k].attr == results[k].attr);
        },
        (None, None) => {},
    }
    assert forall|i: int, n: Seq<char>|
        0 <= i < results.len() && has_step(results[i], n) implies #[trigger] has_step(
        after[i],
        n,
    ) by {
        let k = choose|k: int| 0 <= k < results[i].steps.len() && (
        #[trigger] results[i].steps[k]).0 == n;
        assert(after[i].steps[k] == results[i].steps[k]);
    }
    if let Some(i) = result_place(results, o.attr) {
        let last = after[i].steps.len() - 1;
        assert(after[i].steps[last].0 == name);
    }
}

/// Recording makes no work: what is asked for afterwards was asked for before.
pub proof fn law_recording_makes_no_work(
    packages: Seq<ChangedText>,
    results: Seq<ResultText>,
    name: Seq<char>,
    o: StepOutcome,
    tier: Seq<char>,
    attr: Seq<char>,
)
    ensures
        needing(
            packages,
            step_recorded(
                results,
                o.attr,
                name,
                o.success,
                o.logs,
                o.non_deterministic,
                o.verdict,
            ),
            tier,
        ).contains(attr) ==> needing(packages, results, tier).contains(attr),
{
    let after = step_recorded(
        results,
        o.attr,
        name,
        o.success,
        o.logs,
        o.non_deterministic,
        o.verdict,
    );
    law_needing(packages, after, tier, attr);
    law_needing(packages, results, tier, attr);
    lemma_place_kept(results, o, name, attr);
    lemma_result_from(results, attr, 0);
    if needing(packages, after, tier).contains(attr) {
        let i = choose|i: int|
            0 <= i < packages.len() && (#[trigger] packages[i]).attr == attr && needs(
                packages[i],
                after,
                tier,
            );
        assert(needs(packages[i], results, tier));
    }
}

proof fn lemma_tier_recorded(
    packages: Seq<ChangedText>,
    results: Seq<ResultText>,
    name: Seq<char>,
    outcomes: Seq<StepOutcome>,
    tier: Seq<char>,
    attr: Seq<char>,
)
    ensures
        needing(packages, tier_recorded(results, name, outcomes), tier).contains(attr) ==> needing(
            packages,
            results,
            tier,
        ).contains(attr),
        result_place(tier_recorded(results, name, outcomes), attr) == result_place(results, attr),
        result_place(results, attr) is Some && (exists|k: int|
            0 <= k < outcomes.len() && (#[trigger] outcomes[k]).attr == attr) ==> has_step(
            tier_recorded(results, name, outcomes)[result_place(results, attr)->0],
            name,
        ),
        tier_recorded(results, name, outcomes).len() == results.len(),
    decreases outcomes.len(),
{
    if outcomes.len() > 0 {
        let shorter = outcomes.drop_last();
        let o = outcomes.last();
        let front = tier_recorded(results, name, shorter);
        lemma_tier_recorded(packages, results, name, shorter, tier, attr);
        law_recording_makes_no_work(packages, front, name, o, tier, attr);
        lemma_place_kept(front, o, name, attr);
        lemma_result_from(results, attr, 0);
        if result_place(results, attr) is Some && (exists|k: int|
            0 <= k < outcomes.len() && (#[trigger] outcomes[k]).attr == attr) {
            let k = choose|k: int| 0 <= k < outcomes.len() && (#[trigger] outcomes[k]).attr == attr;
            if k < shorter.len() {
                assert(shorter[k].attr == attr);
            } else {
                assert(o.attr == attr);
            }
        }
    }
}

/// Once an outcome was recorded for everything that a tier handed out, the tier has
/// nothing left to build, and neither have the tiers before it.
pub proof fn law_recorded_tier_is_done(
    packages: Seq<ChangedText>,
    results: Seq<ResultText>,
    tier: int,
    outcomes: Seq<StepOutcome>,
)
    requires
        0 <= tier < intermediates().len(),
        tiers_done(packages, results, tier),
        forall|i: int|
            0 <= i < packages.len() ==> result_place(results, (#[trigger] packages[i]).attr) is Some,
        forall|attr: Seq<char>|
            needing(packages, results, intermediates()[tier]).contains(attr) ==> exists|k: int|
                0 <= k < outcomes.len() && (#[trigger] outcomes[k]).attr == attr,
    ensures
        tiers_done(
            packages,
            tier_recorded(results, intermediates()[tier], outcomes),
            tier + 1,
        ),
{
    let name = intermediates()[tier];
    let after = tier_recorded(results, name, outcomes);
    assert forall|t: int| 0 <= t < tier + 1 && t < intermediates().len() implies needing(
        packages,
        after,
        #[trigger] intermediates()[t],
    ).len() == 0 by {
        let list = needing(packages, after, intermediates()[t]);
        if list.len() > 0 {
            let attr = list[0];
            assert(list.contains(attr));
            lemma_tier_recorded(packages, results, name, outcomes, intermediates()[t], attr);
            assert(needing(packages, results, intermediates()[t]).contains(attr));
            if t == tier {
                law_needing(packages, after, name, attr);
                let i = choose|i: int|
                    0 <= i < packages.len() && (#[trigger] packages[i]).attr == attr && needs(
                        packages[i],
                        after,
                        name,
                    );
                assert(result_place(results, packages[i].attr) is Some);
                assert(false);
            }
        }
    }
}

/// Where the packages themselves are handed out, or nothing is left, every
/// intermediate attribute of the list that changed was built before.
pub proof fn law_packages_come_last(
    packages: Seq<ChangedText>,
    results: Seq<ResultText>,
    from: usize,
    skip_tests: bool,
)
    requires
        tiers_done(packages, results, from as int),
    ensures
        !(system_next(packages, results, SystemStage::Tiers { from }, skip_tests).1 is Tiers)
            ==> tiers_done(packages, results, intermediates().len() as int),
        system_next(
            packages,
            results,
            SystemStage::Tiers { from },
            skip_tests,
        ).0 matches WorkText::Steps { tier, .. } ==> tiers_done(packages, results, tier),
{
    lemma_tier_with_work(packages, results, from as int);
}

// ---------------------------------------------------------------------------
// False positives

/// Whether a verdict can come of a build: what went well is not looked at on the base
/// branch.
pub open spec fn fair_verdict(success: bool, verdict: BaseVerdict) -> bool {
    success ==> verdict == BaseVerdict::Unchecked
}

/// What holds while the tiers are gone through: no package was built yet, and what is
/// marked as a false positive has a step that failed.
pub open spec fn tiers_fair(results: Seq<ResultText>) -> bool {
    forall|i: int|
        0 <= i < results.len() ==> !(#[trigger] results[i]).success && (results[i].false_positive
            ==> !all_steps_ok(results[i]))
}

/// Whether no result that is marked as a false positive is a success.
pub open spec fn false_positives_fail(results: Seq<ResultText>) -> bool {
    forall|i: int|
        0 <= i < results.len() && (#[trigger] results[i]).false_positive ==> !results[i].success
}

/// At the start that holds.
pub proof fn law_started_fair(
    system: Seq<char>,
    packages: Seq<ChangedText>,
    saved: Seq<(Seq<char>, Vec<(String, bool, String)>)>,
)
    ensures
        tiers_fair(started(system, packages, saved)),
{
    law_started(system, packages, saved);
}

/// Recording a step keeps it so.
pub proof fn law_step_recorded_fair(results: Seq<ResultText>, name: Seq<char>, o: StepOutcome)
    requires
        tiers_fair(results),
        fair_verdict(o.success, o.verdict),
    ensures
        tiers_fair(
            step_recorded(
                results,
                o.attr,
                name,
                o.success,
                o.logs,
                o.non_deterministic,
                o.verdict,
            ),
        ),
{
    let after = step_recorded(
        results,
        o.attr,
        name,
        o.success,
        o.logs,
        o.non_deterministic,
        o.verdict,
    );
    lemma_result_from(results, o.attr, 0);
    assert forall|i: int| 0 <= i < after.len() implies !(#[trigger] after[i]).success && (
    after[i].false_positive ==> !all_steps_ok(after[i])) by {
        if result_place(results, o.attr) == Some(i) {
            let last = after[i].steps.len() - 1;
            assert(after[i].steps[last].1 == o.success);
            if !all_steps_ok(results[i]) {
                let k = choose|k: int|
                    0 <= k < results[i].steps.len() && !(#[trigger] results[i].steps[k]).1;
                assert(after[i].steps[k] == results[i].steps[k]);
            }
        } else {
            assert(after[i] == results[i]);
        }
    }
}

/// What came of building a package.
pub struct PackageOutcome {
    pub attr: Seq<char>,
    pub success: bool,
    pub logs: Seq<char>,
    pub verdict: BaseVerdict,
}

/// The results after all outcomes of the packages were recorded.
pub open spec fn packages_recorded(
    results: Seq<ResultText>,
    outcomes: Seq<PackageOutcome>,
) -> Seq<ResultText>
    decreases outcomes.len(),
{
    if outcomes.len() == 0 {
        results
    } else {
        let o = outcomes.last();
        package_recorded(
            packages_recorded(results, outcomes.drop_last()),
            o.attr,
            o.success,
            o.logs,
            o.verdict,
        )
    }
}

/// Whether outcomes are such as come of the packages that were handed out: each is of
/// one of these, none has two, and what went well was not looked at on the base branch.
pub open spec fn of_ready_packages(
    results: Seq<ResultText>,
    outcomes: Seq<PackageOutcome>,
) -> bool {
    &&& forall|k: int|
        0 <= k < outcomes.len() ==> ready(results).contains((#[trigger] outcomes[k]).attr)
            && fair_verdict(outcomes[k].success, outcomes[k].verdict)
    &&& forall|k: int, m: int|
        0 <= k < m < outcomes.len() ==> (#[trigger] outcomes[k]).attr != (
        #[trigger] outcomes[m]).attr
}

proof fn lemma_packages_recorded(results: Seq<ResultText>, outcomes: Seq<PackageOutcome>)
    requires
        one_each(results),
        tiers_fair(results),
        of_ready_packages(results, outcomes),
    ensures
        ({
            let after = packages_recorded(results, outcomes);
            &&& after.len() == results.len()
            &&& false_positives_fail(after)
            &&& forall|i: int|
                0 <= i < results.len() ==> (#[trigger] after[i]).attr == results[i].attr
            &&& forall|i: int|
                0 <= i < results.len() && (forall|k: int|
                    0 <= k < outcomes.len() ==> (#[trigger] outcomes[k]).attr != results[i].attr)
                    ==> #[trigger] after[i] == results[i]
        }),
    decreases outcomes.len(),
{
    if outcomes.len() > 0 {
        let shorter = outcomes.drop_last();
        let o = outcomes.last();
        assert(outcomes[outcomes.len() - 1] == o);
        assert forall|k: int| 0 <= k < shorter.len() implies ready(results).contains(
            (#[trigger] shorter[k]).attr,
        ) && fair_verdict(shorter[k].success, shorter[k].verdict) && shorter[k].attr != o.attr by {
            assert(shorter[k] == outcomes[k]);
        }
        assert forall|k: int, m: int| 0 <= k < m < shorter.len() implies (
        #[trigger] shorter[k]).attr != (#[trigger] shorter[m]).attr by {
            assert(shorter[k] == outcomes[k] && shorter[m] == outcomes[m]);
        }
        lemma_packages_recorded(results, shorter);
        let front = packages_recorded(results, shorter);
        let after = packages_recorded(results, outcomes);
        lemma_result_from(front, o.attr, 0);
        law_ready(results, o.attr);
        let i = choose|i: int|
            0 <= i < results.len() && (#[trigger] results[i]).attr == o.attr && all_steps_ok(
                results[i],
            );
        assert(front[i].attr == o.attr);
        let p = result_place(front, o.attr)->0;
        assert(p == i) by {
            assert(front[p].attr == results[p].attr);
            if p < i {
                assert(results[p].attr != results[i].attr);
            }
        }
        assert(front[i] == results[i]);
        assert forall|j: int| 0 <= j < after.len() && j != i implies #[trigger] after[j]
            == front[j] by {}
        assert forall|j: int| 0 <= j < results.len() && (forall|k: int|
            0 <= k < outcomes.len() ==> (#[trigger] outcomes[k]).attr != results[j].attr)
            implies #[trigger] after[j] == results[j] by {
            assert(outcomes[outcomes.len() - 1].attr != results[j].attr);
            assert(j != i);
            assert forall|k: int| 0 <= k < shorter.len() implies (#[trigger] shorter[k]).attr
                != results[j].attr by {
                assert(shorter[k] == outcomes[k]);
            }
            assert(after[j] == front[j]);
        }
        assert forall|j: int| 0 <= j < after.len() && (#[trigger] after[j]).false_positive
            implies !after[j].success by {
            if j != i {
                assert(after[j] == front[j]);
            }
        }
        assert forall|j: int| 0 <= j < results.len() implies (#[trigger] after[j]).attr
            == results[j].attr by {
            if j != i {
                assert(after[j] == front[j]);
            }
        }
    }
}

/// Once the packages that were handed out are recorded, nothing that is marked as a
/// false positive is a success.
pub proof fn law_false_positive_is_no_success(
    results: Seq<ResultText>,
    outcomes: Seq<PackageOutcome>,
)
    requires
        one_each(results),
        tiers_fair(results),
        of_ready_packages(results, outcomes),
    ensures
        false_positives_fail(packages_recorded(results, outcomes)),
{
    lemma_packages_recorded(results, outcomes);
}

/// Recording tests keeps it so, and makes no success: where they fail the package
/// counts as failed.
pub proof fn law_tests_only_lower(
    results: Seq<ResultText>,
    attr: Seq<char>,
    success: bool,
    logs: Seq<char>,
    verdict: BaseVerdict,
    i: int,
)
    requires
        0 <= i < results.len(),
        fair_verdict(success, verdict),
    ensures
        ({
            let after = tests_recorded(results, attr, success, logs, verdict);
            &&& after.len() == results.len()
            &&& after[i].attr == results[i].attr
            &&& after[i].success ==> results[i].success
            &&& results[i].attr != attr ==> after[i] == results[i]
            &&& result_place(results, attr) == Some(i) && !success ==> !after[i].success
            &&& false_positives_fail(results) ==> false_positives_fail(after)
        }),
{
    let after = tests_recorded(results, attr, success, logs, verdict);
    lemma_result_from(results, attr, 0);
    if false_positives_fail(results) {
        assert forall|j: int| 0 <= j < after.len() && (#[trigger] after[j]).false_positive
            implies !after[j].success by {
            if result_place(results, attr) != Some(j) {
                assert(after[j] == results[j]);
            } else if success {
                assert(results[j].false_positive);
            }
        }
    }
}

// ---------------------------------------------------------------------------
// A whole build

/// The results, and the tier from which to go on, after each list of outcomes was
/// recorded for the tier that was handed out.
pub open spec fn after_tiers(
    packages: Seq<ChangedText>,
    start: Seq<ResultText>,
    batches: Seq<Seq<StepOutcome>>,
) -> (Seq<ResultText>, int)
    decreases batches.len(),
{
    if batches.len() == 0 {
        (start, 0)
    } else {
        let (results, from) = after_tiers(packages, start, batches.drop_last());
        match tier_with_work(packages, results, from) {
            Some(tier) => (
                tier_recorded(results, intermediates()[tier], batches.last()),
                tier + 1,
            ),
            None => (results, from),
        }
    }
}

/// Whether a list of outcomes answers what a tier hands out: there is an outcome for
/// every package, and what went well was not looked at on the base branch.
pub open spec fn answers_tier(
    packages: Seq<ChangedText>,
    results: Seq<ResultText>,
    from: int,
    outcomes: Seq<StepOutcome>,
) -> bool {
    &&& forall|k: int|
        0 <= k < outcomes.len() ==> fair_verdict(
            (#[trigger] outcomes[k]).success,
            outcomes[k].verdict,
        )
    &&& tier_with_work(packages, results, from) matches Some(tier) ==> forall|attr: Seq<char>|
        needing(packages, results, intermediates()[tier]).contains(attr) ==> exists|k: int|
            0 <= k < outcomes.len() && (#[trigger] outcomes[k]).attr == attr
}

/// Whether each list of outcomes answers the tier that was handed out.
pub open spec fn answers_tiers(
    packages: Seq<ChangedText>,
    start: Seq<ResultText>,
    batches: Seq<Seq<StepOutcome>>,
) -> bool
    decreases batches.len(),
{
    batches.len() == 0 || {
        let (results, from) = after_tiers(packages, start, batches.drop_last());
        answers_tiers(packages, start, batches.drop_last()) && answers_tier(
            packages,
            results,
            from,
            batches.last(),
        )
    }
}

proof fn lemma_tier_recorded_keeps(
    results: Seq<ResultText>,
    name: Seq<char>,
    outcomes: Seq<StepOutcome>,
)
    requires
        one_each(results),
        tiers_fair(results),
        forall|k: int|
            0 <= k < outcomes.len() ==> fair_verdict(
                (#[trigger] outcomes[k]).success,
                outcomes[k].verdict,
            ),
    ensures
        one_each(tier_recorded(results, name, outcomes)),
        tiers_fair(tier_recorded(results, name, outcomes)),
    decreases outcomes.len(),
{
    if outcomes.len() > 0 {
        let shorter = outcomes.drop_last();
        let o = outcomes.last();
        assert(outcomes[outcomes.len() - 1] == o);
        assert forall|k: int| 0 <= k < shorter.len() implies fair_verdict(
            (#[trigger] shorter[k]).success,
            shorter[k].verdict,
        ) by {
            assert(shorter[k] == outcomes[k]);
        }
        lemma_tier_recorded_keeps(results, name, shorter);
        let front = tier_recorded(results, name, shorter);
        law_step_recorded_fair(front, name, o);
        law_recording_keeps_one_each(
            front,
            o.attr,
            name,
            o.success,
            o.logs,
            o.non_deterministic,
            o.verdict,
        );
    }
}

/// What holds of a whole build for a system, however its builds end. At any time every
/// package has one result, the tiers so far have nothing left to build, and what is
/// marked as a false positive has a step that failed. Once no tier has work, every
/// intermediate attribute of the list that changed was built for every package, and
/// whatever comes of the packages that are then handed out, no false positive is a
/// success.
pub proof fn law_whole_system_build(
    system: Seq<char>,
    packages: Seq<ChangedText>,
    saved: Seq<(Seq<char>, Vec<(String, bool, String)>)>,
    batches: Seq<Seq<StepOutcome>>,
    outcomes: Seq<PackageOutcome>,
)
    requires
        answers_tiers(packages, started(system, packages, saved), batches),
    ensures
        ({
            let (results, from) = after_tiers(
                packages,
                started(system, packages, saved),
                batches,
            );
            &&& one_each(results)
            &&& tiers_fair(results)
            &&& tiers_done(packages, results, from)
            &&& forall|i: int|
                0 <= i < packages.len() ==> result_place(results, (#[trigger] packages[i]).attr)
                    is Some
            &&& tier_with_work(packages, results, from) is None ==> tiers_done(
                packages,
                results,
                intermediates().len() as int,
            )
            &&& of_ready_packages(results, outcomes) ==> false_positives_fail(
                packages_recorded(results, outcomes),
            )
        }),
{
    let start = started(system, packages, saved);
    lemma_after_tiers(system, packages, saved, batches);
    let (results, from) = after_tiers(packages, start, batches);
    lemma_tier_with_work(packages, results, from);
    if of_ready_packages(results, outcomes) {
        lemma_packages_recorded(results, outcomes);
    }
}

proof fn lemma_after_tiers(
    system: Seq<char>,
    packages: Seq<ChangedText>,
    saved: Seq<(Seq<char>, Vec<(String, bool, String)>)>,
    batches: Seq<Seq<StepOutcome>>,
)
    requires
        answers_tiers(packages, started(system, packages, saved), batches),
    ensures
        ({
            let (results, from) = after_tiers(
                packages,
                started(system, packages, saved),
                batches,
            );
            &&& 0 <= from
            &&& one_each(results)
            &&& tiers_fair(results)
            &&& tiers_done(packages, results, from)
            &&& forall|i: int|
                0 <= i < packages.len() ==> result_place(results, (#[trigger] packages[i]).attr)
                    is Some
        }),
    decreases batches.len(),
{
    let start = started(system, packages, saved);
    if batches.len() == 0 {
        law_started(system, packages, saved);
        law_started_fair(system, packages, saved);
    } else {
        lemma_after_tiers(system, packages, saved, batches.drop_last());
        let (results, from) = after_tiers(packages, start, batches.drop_last());
        let outcomes = batches.last();
        lemma_tier_with_work(packages, results, from);
        if let Some(tier) = tier_with_work(packages, results, from) {
            let name = intermediates()[tier];
            lemma_tier_recorded_keeps(results, name, outcomes);
            law_recorded_tier_is_done(packages, results, tier, outcomes);
            let after = tier_recorded(results, name, outcomes);
            assert forall|i: int| 0 <= i < packages.len() implies result_place(
                after,
                (#[trigger] packages[i]).attr,
            ) is Some by {
                lemma_tier_recorded(packages, results, name, outcomes, name, packages[i].attr);
            }
        }
    }
}

// ---------------------------------------------------------------------------
// The order of steps

/// The names of the steps of a result.
pub open spec fn step_names(steps: Seq<(Seq<char>, bool, Seq<char>)>) -> Seq<Seq<char>> {
    steps.map_values(|s: (Seq<char>, bool, Seq<char>)| s.0)
}

/// Whether no package is listed twice.
pub open spec fn distinct_packages(packages: Seq<ChangedText>) -> bool {
    forall|i: int, j: int|
        0 <= i < j < packages.len() ==> (#[trigger] packages[i]).attr != (
        #[trigger] packages[j]).attr
}

/// Whether a list of outcomes is of the packages that a tier hands out, none of them
/// twice.
pub open spec fn only_handed_out(
    packages: Seq<ChangedText>,
    results: Seq<ResultText>,
    from: int,
    outcomes: Seq<StepOutcome>,
) -> bool {
    tier_with_work(packages, results, from) matches Some(tier) ==> {
        &&& forall|k: int|
            0 <= k < outcomes.len() ==> needing(
                packages,
                results,
                intermediates()[tier],
            ).contains((#[trigger] outcomes[k]).attr)
        &&& forall|k: int, m: int|
            0 <= k < m < outcomes.len() ==> (#[trigger] outcomes[k]).attr != (
            #[trigger] outcomes[m]).attr
    }
}

/// Whether each list of outcomes is of the packages that its tier handed out.
pub open spec fn each_only_handed_out(
    packages: Seq<ChangedText>,
    start: Seq<ResultText>,
    batches: Seq<Seq<StepOutcome>>,
) -> bool
    decreases batches.len(),
{
    batches.len() == 0 || {
        let (results, from) = after_tiers(packages, start, batches.drop_last());
        each_only_handed_out(packages, start, batches.drop_last()) && only_handed_out(
            packages,
            results,
            from,
            batches.last(),
        )
    }
}

/// The intermediate attributes among the first `n` of the list that are built for a
/// package: those that changed and that an earlier run did not leave, in the order of
/// the list.
pub open spec fn built_names(p: ChangedText, left: Seq<Seq<char>>, n: int) -> Seq<Seq<char>> {
    intermediates().take(n).filter(|name: Seq<char>| p.changed.contains(name) && !left.contains(name))
}

proof fn lemma_built_names_next(p: ChangedText, left: Seq<Seq<char>>, n: int)
    requires
        0 <= n < intermediates().len(),
    ensures
        built_names(p, left, n + 1) == (if p.changed.contains(intermediates()[n])
            && !left.contains(intermediates()[n]) {
            built_names(p, left, n).push(intermediates()[n])
        } else {
            built_names(p, left, n)
        }),
{
    reveal(Seq::filter);
    let longer = intermediates().take(n + 1);
    assert(longer.drop_last() == intermediates().take(n));
    assert(longer.last() == intermediates()[n]);
}

proof fn lemma_built_name_is_earlier(
    p: ChangedText,
    left: Seq<Seq<char>>,
    n: int,
    name: Seq<char>,
)
    requires
        0 <= n <= intermediates().len(),
        built_names(p, left, n).contains(name),
    ensures
        exists|t: int| 0 <= t < n && #[trigger] intermediates()[t] == name,
    decreases n,
{
    reveal(Seq::filter);
    if n > 0 {
        lemma_built_names_next(p, left, n - 1);
        let all = built_names(p, left, n);
        let k = choose|k: int| 0 <= k < all.len() && all[k] == name;
        let front = built_names(p, left, n - 1);
        if k < front.len() {
            assert(front[k] == name);
            lemma_built_name_is_earlier(p, left, n - 1, name);
        } else {
            assert(intermediates()[n - 1] == name);
        }
    } else {
        assert(intermediates().take(0) == Seq::<Seq<char>>::empty());
    }
}

/// Whether the steps of a package are those that an earlier run left and then those of
/// the tiers before `from`.
spec fn in_step_order(p: ChangedText, results: Seq<ResultText>, left: Seq<Seq<char>>, from: int) -> bool {
    result_place(results, p.attr) matches Some(i) && step_names(results[i].steps) == left
        + built_names(p, left, from)
}

proof fn lemma_needs_by_order(
    p: ChangedText,
    results: Seq<ResultText>,
    left: Seq<Seq<char>>,
    from: int,
    tier: int,
)
    requires
        0 <= from <= tier < intermediates().len(),
        in_step_order(p, results, left, from),
    ensures
        needs(p, results, intermediates()[tier]) == (p.changed.contains(intermediates()[tier])
            && !left.contains(intermediates()[tier])),
{
    let name = intermediates()[tier];
    let i = result_place(results, p.attr)->0;
    let steps = results[i].steps;
    let names = step_names(steps);
    let later = built_names(p, left, from);
    law_intermediates_distinct();
    assert(names == left + later);
    assert(names.len() == steps.len());
    assert(forall|k: int| 0 <= k < steps.len() ==> names[k] == (#[trigger] steps[k]).0);
    if has_step(results[i], name) {
        let k = choose|k: int| 0 <= k < steps.len() && (#[trigger] steps[k]).0 == name;
        assert(names[k] == name);
        if k < left.len() {
            assert(left[k] == name);
        } else {
            assert(later[k - left.len()] == name);
            lemma_built_name_is_earlier(p, left, from, name);
            let t = choose|t: int| 0 <= t < from && #[trigger] intermediates()[t] == name;
            assert(intermediates()[t] != intermediates()[tier]);
        }
    }
    if left.contains(name) {
        let k = choose|k: int| 0 <= k < left.len() && left[k] == name;
        assert(names[k] == name);
        assert(steps[k].0 == name);
    }
}

proof fn lemma_no_new_names(
    packages: Seq<ChangedText>,
    results: Seq<ResultText>,
    i: int,
    left: Seq<Seq<char>>,
    from: int,
    to: int,
)
    requires
        0 <= i < packages.len(),
        0 <= from <= to <= intermediates().len(),
        in_step_order(packages[i], results, left, from),
        forall|t: int|
            from <= t < to ==> needing(packages, results, #[trigger] intermediates()[t]).len() == 0,
    ensures
        built_names(packages[i], left, to) == built_names(packages[i], left, from),
        in_step_order(packages[i], results, left, to),
    decreases to - from,
{
    if from < to {
        lemma_no_new_names(packages, results, i, left, from, to - 1);
        let name = intermediates()[to - 1];
        lemma_built_names_next(packages[i], left, to - 1);
        lemma_needs_by_order(packages[i], results, left, from, to - 1);
        law_needing(packages, results, name, packages[i].attr);
        if needs(packages[i], results, name) {
            assert(needing(packages, results, name).contains(packages[i].attr));
            assert(needing(packages, results, name).len() > 0);
        }
    }
}

proof fn lemma_tier_steps(
    results: Seq<ResultText>,
    name: Seq<char>,
    outcomes: Seq<StepOutcome>,
    attr: Seq<char>,
)
    requires
        result_place(results, attr) is Some,
        forall|k: int, m: int|
            0 <= k < m < outcomes.len() ==> (#[trigger] outcomes[k]).attr != (
            #[trigger] outcomes[m]).attr,
    ensures
        ({
            let i = result_place(results, attr)->0;
            let after = tier_recorded(results, name, outcomes);
            &&& result_place(after, attr) == Some(i)
            &&& step_names(after[i].steps) == (if exists|k: int|
                0 <= k < outcomes.len() && (#[trigger] outcomes[k]).attr == attr {
                step_names(results[i].steps).push(name)
            } else {
                step_names(results[i].steps)
            })
        }),
    decreases outcomes.len(),
{
    let i = result_place(results, attr)->0;
    lemma_result_from(results, attr, 0);
    if outcomes.len() > 0 {
        let shorter = outcomes.drop_last();
        let o = outcomes.last();
        assert(outcomes[outcomes.len() - 1] == o);
        assert forall|k: int, m: int| 0 <= k < m < shorter.len() implies (
        #[trigger] shorter[k]).attr != (#[trigger] shorter[m]).attr by {
            assert(shorter[k] == outcomes[k] && shorter[m] == outcomes[m]);
        }
        lemma_tier_steps(results, name, shorter, attr);
        let front = tier_recorded(results, name, shorter);
        let after = tier_recorded(results, name, outcomes);
        lemma_place_kept(front, o, name, attr);
        lemma_result_from(front, o.attr, 0);
        lemma_result_from(front, attr, 0);
        if o.attr == attr {
            assert forall|k: int| 0 <= k < shorter.len() implies (#[trigger] shorter[k]).attr
                != attr by {
                assert(shorter[k] == outcomes[k]);
            }
            assert(step_names(after[i].steps) == step_names(front[i].steps).push(name));
        } else {
            assert(after[i] == front[i]);
            if exists|k: int| 0 <= k < outcomes.len() && (#[trigger] outcomes[k]).attr == attr {
                let k = choose|k: int|
                    0 <= k < outcomes.len() && (#[trigger] outcomes[k]).attr == attr;
                assert(shorter[k].attr == attr);
            }
            if exists|k: int| 0 <= k < shorter.len() && (#[trigger] shorter[k]).attr == attr {
                let k = choose|k: int|
                    0 <= k < shorter.len() && (#[trigger] shorter[k]).attr == attr;
                assert(outcomes[k].attr == attr);
            }
        }
    }
}

proof fn lemma_started_steps(
    system: Seq<char>,
    packages: Seq<ChangedText>,
    saved: Seq<(Seq<char>, Vec<(String, bool, String)>)>,
    j: int,
)
    requires
        0 <= j < started(system, packages, saved).len(),
    ensures
        ({
            let r = started(system, packages, saved)[j];
            r.steps == saved_steps(saved, r.attr)
        }),
    decreases packages.len(),
{
    if packages.len() > 0 {
        let front = started(system, packages.drop_last(), saved);
        if j < front.len() {
            lemma_started_steps(system, packages.drop_last(), saved, j);
            assert(started(system, packages, saved)[j] == front[j]);
        }
    }
}

proof fn lemma_steps_in_order(
    system: Seq<char>,
    packages: Seq<ChangedText>,
    saved: Seq<(Seq<char>, Vec<(String, bool, String)>)>,
    batches: Seq<Seq<StepOutcome>>,
    i: int,
)
    requires
        distinct_packages(packages),
        answers_tiers(packages, started(system, packages, saved), batches),
        each_only_handed_out(packages, started(system, packages, saved), batches),
        0 <= i < packages.len(),
    ensures
        ({
            let (results, from) = after_tiers(
                packages,
                started(system, packages, saved),
                batches,
            );
            let left = step_names(saved_steps(saved, packages[i].attr));
            &&& 0 <= from <= intermediates().len()
            &&& in_step_order(packages[i], results, left, from)
        }),
    decreases batches.len(),
{
    let start = started(system, packages, saved);
    let p = packages[i];
    let left = step_names(saved_steps(saved, p.attr));
    if batches.len() == 0 {
        law_started(system, packages, saved);
        lemma_result_from(start, p.attr, 0);
        let k = result_place(start, p.attr)->0;
        lemma_started_steps(system, packages, saved, k);
        reveal(Seq::filter);
        assert(intermediates().take(0) == Seq::<Seq<char>>::empty());
        assert(built_names(p, left, 0) == Seq::<Seq<char>>::empty());
        assert(left + built_names(p, left, 0) == left);
    } else {
        lemma_steps_in_order(system, packages, saved, batches.drop_last(), i);
        let (results, from) = after_tiers(packages, start, batches.drop_last());
        let outcomes = batches.last();
        lemma_tier_with_work(packages, results, from);
        if let Some(tier) = tier_with_work(packages, results, from) {
            let name = intermediates()[tier];
            lemma_no_new_names(packages, results, i, left, from, tier);
            lemma_needs_by_order(p, results, left, tier, tier);
            lemma_built_names_next(p, left, tier);
            lemma_tier_steps(results, name, outcomes, p.attr);
            law_needing(packages, results, name, p.attr);
            let handed = needing(packages, results, name);
            let there = exists|k: int|
                0 <= k < outcomes.len() && (#[trigger] outcomes[k]).attr == p.attr;
            if needs(p, results, name) {
                assert(handed.contains(p.attr));
                assert(there);
            }
            if there {
                let k = choose|k: int|
                    0 <= k < outcomes.len() && (#[trigger] outcomes[k]).attr == p.attr;
                assert(handed.contains(outcomes[k].attr));
                let j = choose|j: int|
                    0 <= j < packages.len() && (#[trigger] packages[j]).attr == p.attr && needs(
                        packages[j],
                        results,
                        name,
                    );
                if j < i {
                    assert(packages[j].attr != packages[i].attr);
                } else if i < j {
                    assert(packages[i].attr != packages[j].attr);
                }
                assert(needs(p, results, name));
            }
            let at = result_place(results, p.attr)->0;
            assert((left + built_names(p, left, tier)).push(name) == left + built_names(
                p,
                left,
                tier,
            ).push(name));
        }
    }
}

/// The steps of a package stand in this order: those that an earlier run left, then the
/// intermediate attributes of the list that changed and were not among these, in the
/// order of the list. While tiers are left, those of the tiers so far; once no tier has
/// work, all of them.
pub proof fn law_steps_in_order(
    system: Seq<char>,
    packages: Seq<ChangedText>,
    saved: Seq<(Seq<char>, Vec<(String, bool, String)>)>,
    batches: Seq<Seq<StepOutcome>>,
    i: int,
)
    requires
        distinct_packages(packages),
        answers_tiers(packages, started(system, packages, saved), batches),
        each_only_handed_out(packages, started(system, packages, saved), batches),
        0 <= i < packages.len(),
    ensures
        ({
            let (results, from) = after_tiers(
                packages,
                started(system, packages, saved),
                batches,
            );
            let left = step_names(saved_steps(saved, packages[i].attr));
            &&& result_place(results, packages[i].attr) matches Some(k) && step_names(
                results[k].steps,
            ) == left + built_names(packages[i], left, from)
            &&& tier_with_work(packages, results, from) is None ==> step_names(
                results[result_place(results, packages[i].attr)->0].steps,
            ) == left + intermediates().filter(
                |name: Seq<char>| packages[i].changed.contains(name) && !left.contains(name),
            )
        }),
{
    let (results, from) = after_tiers(packages, started(system, packages, saved), batches);
    let left = step_names(saved_steps(saved, packages[i].attr));
    lemma_steps_in_order(system, packages, saved, batches, i);
    if tier_with_work(packages, results, from) is None {
        lemma_tier_with_work(packages, results, from);
        let n = intermediates().len() as int;
        lemma_no_new_names(packages, results, i, left, from, n);
        assert(intermediates().take(n) == intermediates());
    }
}

} // verus!
