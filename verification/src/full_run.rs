//! The way of a full evaluation: which worktree is made when, what is evaluated,
//! and how it ends.

use vstd::prelude::*;

use crate::full_eval::all_changes_built;
use crate::types::{ChangedPackage, FullEvalBuildResult};

verus! {

/// What a run is about.
#[derive(Clone, Copy, PartialEq, Eq, Structural, Debug)]
pub struct RunPlan {
    /// How many systems are tested.
    pub systems: usize,
    /// A saved run is taken up.
    pub resumed: bool,
    /// The saved run has packages.
    pub saved_packages: bool,
    /// What fails is looked at on the base branch.
    pub false_positive: bool,
    /// There is a remote builder.
    pub remote: bool,
    /// Nothing may be posted.
    pub dry_run: bool,
    /// There is a token to post with.
    pub has_token: bool,
}

/// What to do next.
#[derive(Clone, Copy, PartialEq, Eq, Structural, Debug)]
pub enum RunStage {
    /// Make the worktree of the pull request.
    MakePr,
    /// Look for a saved evaluation of the base for a system. Answer: it is there.
    LoadBase { system: usize },
    /// Make the worktree of the base.
    MakeBase { system: usize },
    /// Evaluate the base for a system, and save that.
    EvalBase { system: usize },
    /// Look for a saved evaluation of the pull request. Answer: it is there.
    LoadPr { system: usize },
    /// Evaluate the pull request for a system, and save that.
    EvalPr { system: usize },
    /// Compare the two. Answer: something changed.
    Compare { system: usize },
    /// Remove the worktree of the base: it is not needed any more.
    DropBase,
    /// Make the worktree of the base for looking at what fails. Answer: it was made.
    MakeBaseForChecks,
    /// Nothing changed: remove the worktree of the pull request.
    RemoveUnchanged,
    /// Nothing changed: say so in a comment.
    PostUnchanged,
    /// Collect garbage on the remote builder if need be.
    CollectGarbage,
    /// Build what changed. Answer: every package that changed was built, as
    /// `every_change_built` tells.
    Build,
    /// Remove the worktree of the pull request. Answer: there is one of the base.
    RemovePr,
    /// Remove the worktree of the base.
    RemoveBase,
    /// Save the logs.
    SaveLogs,
    /// Forget the saved run.
    ForgetState,
    /// Post the outcome.
    Post,
    /// It is over.
    Over { success: bool },
}

/// How far a run is.
#[derive(Clone, Copy, PartialEq, Eq, Structural, Debug)]
pub struct FullRun {
    pub stage: RunStage,
    /// The worktree of the base was made for evaluating it.
    pub base_made: bool,
    /// Something changed for some system.
    pub changed: bool,
    /// Every package that changed was built.
    pub success: bool,
}

/// The beginning.
pub open spec fn run_first() -> FullRun {
    FullRun { stage: RunStage::MakePr, base_made: false, changed: false, success: true }
}

/// What comes once it is known whether something changed.
pub open spec fn after_changes(plan: RunPlan, changed: bool) -> RunStage {
    if !changed {
        RunStage::RemoveUnchanged
    } else if plan.remote {
        RunStage::CollectGarbage
    } else {
        RunStage::Build
    }
}

/// What comes after the last comparison: a worktree of the base that is not needed
/// is removed, and one that is needed is made.
pub open spec fn after_evals(plan: RunPlan, base_made: bool, changed: bool) -> RunStage {
    if base_made && !plan.false_positive {
        RunStage::DropBase
    } else if plan.false_positive && !base_made && changed {
        RunStage::MakeBaseForChecks
    } else {
        after_changes(plan, changed)
    }
}

/// How far a run is after a stage was answered.
pub open spec fn run_next(plan: RunPlan, run: FullRun, yes: bool) -> FullRun {
    match run.stage {
        RunStage::MakePr => if plan.resumed {
            FullRun {
                changed: plan.saved_packages,
                stage: after_changes(plan, plan.saved_packages),
                ..run
            }
        } else if plan.systems > 0 {
            FullRun { stage: RunStage::LoadBase { system: 0 }, ..run }
        } else {
            FullRun { changed: false, stage: after_changes(plan, false), ..run }
        },
        RunStage::LoadBase { system } => FullRun {
            stage: if yes {
                RunStage::LoadPr { system }
            } else if run.base_made {
                RunStage::EvalBase { system }
            } else {
                RunStage::MakeBase { system }
            },
            ..run
        },
        RunStage::MakeBase { system } => FullRun {
            stage: RunStage::EvalBase { system },
            base_made: true,
            ..run
        },
        RunStage::EvalBase { system } => FullRun { stage: RunStage::LoadPr { system }, ..run },
        RunStage::LoadPr { system } => FullRun {
            stage: if yes {
                RunStage::Compare { system }
            } else {
                RunStage::EvalPr { system }
            },
            ..run
        },
        RunStage::EvalPr { system } => FullRun { stage: RunStage::Compare { system }, ..run },
        RunStage::Compare { system } => FullRun {
            changed: run.changed || yes,
            stage: if system + 1 < plan.systems {
                RunStage::LoadBase { system: (system + 1) as usize }
            } else {
                after_evals(plan, run.base_made, run.changed || yes)
            },
            ..run
        },
        RunStage::DropBase => FullRun { stage: after_changes(plan, run.changed), ..run },
        RunStage::MakeBaseForChecks => FullRun {
            stage: after_changes(plan, run.changed),
            ..run
        },
        RunStage::RemoveUnchanged => FullRun {
            stage: if !plan.dry_run && plan.has_token {
                RunStage::PostUnchanged
            } else {
                RunStage::Over { success: true }
            },
            ..run
        },
        RunStage::PostUnchanged => FullRun { stage: RunStage::Over { success: true }, ..run },
        RunStage::CollectGarbage => FullRun { stage: RunStage::Build, ..run },
        RunStage::Build => FullRun { stage: RunStage::RemovePr, success: yes, ..run },
        RunStage::RemovePr => FullRun {
            stage: if yes {
                RunStage::RemoveBase
            } else {
                RunStage::SaveLogs
            },
            ..run
        },
        RunStage::RemoveBase => FullRun { stage: RunStage::SaveLogs, ..run },
        RunStage::SaveLogs => FullRun { stage: RunStage::ForgetState, ..run },
        RunStage::ForgetState => FullRun { stage: RunStage::Post, ..run },
        RunStage::Post => FullRun { stage: RunStage::Over { success: run.success }, ..run },
        RunStage::Over { .. } => run,
    }
}

/// Begins a run.
pub fn start_run() -> (run: FullRun)
    ensures
        run == run_first(),
{
    FullRun { stage: RunStage::MakePr, base_made: false, changed: false, success: true }
}

fn stage_after_changes(plan: RunPlan, changed: bool) -> (stage: RunStage)
    ensures
        stage == after_changes(plan, changed),
{
    if !changed {
        RunStage::RemoveUnchanged
    } else if plan.remote {
        RunStage::CollectGarbage
    } else {
        RunStage::Build
    }
}

fn stage_after_evals(plan: RunPlan, base_made: bool, changed: bool) -> (stage: RunStage)
    ensures
        stage == after_evals(plan, base_made, changed),
{
    if base_made && !plan.false_positive {
        RunStage::DropBase
    } else if plan.false_positive && !base_made && changed {
        RunStage::MakeBaseForChecks
    } else {
        stage_after_changes(plan, changed)
    }
}

/// Takes the answer to a stage.
pub fn advance_run(plan: RunPlan, run: FullRun, yes: bool) -> (after: FullRun)
    ensures
        after == run_next(plan, run, yes),
{
    let mut after = run;
    match run.stage {
        RunStage::MakePr => {
            if plan.resumed {
                after.changed = plan.saved_packages;
                after.stage = stage_after_changes(plan, plan.saved_packages);
            } else if plan.systems > 0 {
                after.stage = RunStage::LoadBase { system: 0 };
            } else {
                after.changed = false;
                after.stage = stage_after_changes(plan, false);
            }
        },
        RunStage::LoadBase { system } => {
            after.stage = if yes {
                RunStage::LoadPr { system }
            } else if run.base_made {
                RunStage::EvalBase { system }
            } else {
                RunStage::MakeBase { system }
            };
        },
        RunStage::MakeBase { system } => {
            after.base_made = true;
            after.stage = RunStage::EvalBase { system };
        },
        RunStage::EvalBase { system } => {
            after.stage = RunStage::LoadPr { system };
        },
        RunStage::LoadPr { system } => {
            after.stage = if yes {
                RunStage::Compare { system }
            } else {
                RunStage::EvalPr { system }
            };
        },
        RunStage::EvalPr { system } => {
            after.stage = RunStage::Compare { system };
        },
        RunStage::Compare { system } => {
            after.changed = run.changed || yes;
            after.stage = if system < plan.systems && system < plan.systems - 1 {
                RunStage::LoadBase { system: system + 1 }
            } else {
                stage_after_evals(plan, run.base_made, run.changed || yes)
            };
        },
        RunStage::DropBase => {
            after.stage = stage_after_changes(plan, run.changed);
        },
        RunStage::MakeBaseForChecks => {
            after.stage = stage_after_changes(plan, run.changed);
        },
        RunStage::RemoveUnchanged => {
            after.stage = if !plan.dry_run && plan.has_token {
                RunStage::PostUnchanged
            } else {
                RunStage::Over { success: true }
            };
        },
        RunStage::PostUnchanged => {
            after.stage = RunStage::Over { success: true };
        },
        RunStage::CollectGarbage => {
            after.stage = RunStage::Build;
        },
        RunStage::Build => {
            after.success = yes;
            after.stage = RunStage::RemovePr;
        },
        RunStage::RemovePr => {
            after.stage = if yes {
                RunStage::RemoveBase
            } else {
                RunStage::SaveLogs
            };
        },
        RunStage::RemoveBase => {
            after.stage = RunStage::SaveLogs;
        },
        RunStage::SaveLogs => {
            after.stage = RunStage::ForgetState;
        },
        RunStage::ForgetState => {
            after.stage = RunStage::Post;
        },
        RunStage::Post => {
            after.stage = RunStage::Over { success: run.success };
        },
        RunStage::Over { .. } => {},
    }
    after
}

// ---------------------------------------------------------------------------
// What holds of a run

/// What holds at every stage of a run: the base is evaluated only in its worktree,
/// which is made only where there is none; only systems that are tested are looked
/// at; and only what changed is built.
pub open spec fn run_ok(plan: RunPlan, run: FullRun) -> bool {
    match run.stage {
        RunStage::LoadBase { system } => system < plan.systems,
        RunStage::MakeBase { system } => system < plan.systems && !run.base_made,
        RunStage::EvalBase { system } => system < plan.systems && run.base_made,
        RunStage::LoadPr { system } => system < plan.systems,
        RunStage::EvalPr { system } => system < plan.systems,
        RunStage::Compare { system } => system < plan.systems,
        RunStage::DropBase => run.base_made && !plan.false_positive,
        RunStage::MakeBaseForChecks => !run.base_made && plan.false_positive && run.changed,
        RunStage::RemoveUnchanged => !run.changed,
        RunStage::PostUnchanged => !run.changed && !plan.dry_run && plan.has_token,
        RunStage::CollectGarbage => run.changed && plan.remote,
        RunStage::Build => run.changed,
        RunStage::RemovePr => run.changed,
        RunStage::RemoveBase => run.changed,
        RunStage::SaveLogs => run.changed,
        RunStage::ForgetState => run.changed,
        RunStage::Post => run.changed,
        _ => true,
    }
}

/// A run begins well, and every answer keeps it so.
pub proof fn law_run_stays_ok(plan: RunPlan, run: FullRun, yes: bool)
    ensures
        run_ok(plan, run_first()),
        run_ok(plan, run) ==> run_ok(plan, run_next(plan, run, yes)),
{
}

/// How many stages can still come.
pub open spec fn stages_left(plan: RunPlan, run: FullRun) -> int {
    let rest = |system: usize| 6 * (plan.systems - system);
    match run.stage {
        RunStage::MakePr => 20 + 6 * plan.systems,
        RunStage::LoadBase { system } => 12 + rest(system),
        RunStage::MakeBase { system } => 11 + rest(system),
        RunStage::EvalBase { system } => 10 + rest(system),
        RunStage::LoadPr { system } => 9 + rest(system),
        RunStage::EvalPr { system } => 8 + rest(system),
        RunStage::Compare { system } => 7 + rest(system),
        RunStage::DropBase => 10,
        RunStage::MakeBaseForChecks => 10,
        RunStage::CollectGarbage => 9,
        RunStage::Build => 8,
        RunStage::RemovePr => 7,
        RunStage::RemoveBase => 6,
        RunStage::SaveLogs => 5,
        RunStage::ForgetState => 4,
        RunStage::Post => 3,
        RunStage::RemoveUnchanged => 2,
        RunStage::PostUnchanged => 1,
        RunStage::Over { .. } => 0,
    }
}

/// A run comes to an end, whatever the answers.
pub proof fn law_run_ends(plan: RunPlan, run: FullRun, yes: bool)
    requires
        run_ok(plan, run),
    ensures
        stages_left(plan, run) >= 0,
        run.stage is Over ==> run_next(plan, run, yes) == run,
        !(run.stage is Over) ==> stages_left(plan, run_next(plan, run, yes)) < stages_left(
            plan,
            run,
        ),
{
}

/// The worktree of the base is made at most once: after it was made it stays so.
pub proof fn law_base_made_once(plan: RunPlan, run: FullRun, yes: bool)
    requires
        run.base_made,
    ensures
        run_next(plan, run, yes).base_made,
        !(run_next(plan, run, yes).stage is MakeBase),
        !(run_next(plan, run, yes).stage is MakeBaseForChecks),
{
}

/// Every system is compared before anything is built: a comparison leads to the next
/// system as long as there is one.
pub proof fn law_systems_in_turn(plan: RunPlan, run: FullRun, yes: bool, system: usize)
    requires
        run.stage == (RunStage::Compare { system }),
        system + 1 < plan.systems,
    ensures
        run_next(plan, run, yes).stage == (RunStage::LoadBase { system: (system + 1) as usize }),
        run_next(plan, run, yes).changed == (run.changed || yes),
{
}

/// The logs are saved before the saved run is forgotten and before the outcome is
/// posted.
pub proof fn law_logs_before_posting(plan: RunPlan, run: FullRun, yes: bool)
    ensures
        run_next(plan, run, yes).stage == RunStage::Post && run.stage != RunStage::Post
            ==> run.stage == RunStage::ForgetState,
        run_next(plan, run, yes).stage == RunStage::ForgetState && run.stage
            != RunStage::ForgetState ==> run.stage == RunStage::SaveLogs,
{
}

/// A run that was taken up evaluates nothing.
pub proof fn law_resumed_run_evaluates_nothing(plan: RunPlan, yes: bool)
    requires
        plan.resumed,
    ensures
        ({
            let stage = run_next(plan, run_first(), yes).stage;
            stage == RunStage::RemoveUnchanged || stage == RunStage::CollectGarbage || stage
                == RunStage::Build
        }),
{
}

// ---------------------------------------------------------------------------
// What a success means

/// How far a run is after a list of answers.
pub open spec fn run_after(plan: RunPlan, answers: Seq<bool>) -> FullRun
    decreases answers.len(),
{
    if answers.len() == 0 {
        run_first()
    } else {
        run_next(plan, run_after(plan, answers.drop_last()), answers.last())
    }
}

/// The stage that an answer is given to.
pub open spec fn stage_at(plan: RunPlan, answers: Seq<bool>, k: int) -> RunStage {
    run_after(plan, answers.take(k)).stage
}

/// Whether something changed for one of the first `n` systems.
pub open spec fn some_changed(changed: Seq<Vec<ChangedPackage>>, n: int) -> bool {
    exists|s: int| 0 <= s < n && s < changed.len() && (#[trigger] changed[s])@.len() > 0
}

/// Whether answers tell the truth of what changed and of whether it was built.
pub open spec fn truthful(
    plan: RunPlan,
    answers: Seq<bool>,
    changed: Seq<Vec<ChangedPackage>>,
    built: bool,
) -> bool {
    &&& plan.systems == changed.len()
    &&& plan.resumed ==> plan.saved_packages == some_changed(changed, changed.len() as int)
    &&& forall|k: int|
        0 <= k < answers.len() ==> match #[trigger] stage_at(plan, answers, k) {
            RunStage::Compare { system } => answers[k] == (changed[system as int]@.len() > 0),
            RunStage::Build => answers[k] == built,
            _ => true,
        }
}

/// What is known of a run whose answers tell the truth.
spec fn run_knows(
    plan: RunPlan,
    run: FullRun,
    changed: Seq<Vec<ChangedPackage>>,
    built: bool,
) -> bool {
    let all = some_changed(changed, changed.len() as int);
    &&& run_ok(plan, run)
    &&& match run.stage {
        RunStage::MakePr => !run.changed,
        RunStage::LoadBase { system } => run.changed == some_changed(changed, system as int),
        RunStage::MakeBase { system } => run.changed == some_changed(changed, system as int),
        RunStage::EvalBase { system } => run.changed == some_changed(changed, system as int),
        RunStage::LoadPr { system } => run.changed == some_changed(changed, system as int),
        RunStage::EvalPr { system } => run.changed == some_changed(changed, system as int),
        RunStage::Compare { system } => run.changed == some_changed(changed, system as int),
        RunStage::Over { success } => if all {
            success == built
        } else {
            success
        },
        RunStage::RemovePr => run.changed == all && run.success == built,
        RunStage::RemoveBase => run.changed == all && run.success == built,
        RunStage::SaveLogs => run.changed == all && run.success == built,
        RunStage::ForgetState => run.changed == all && run.success == built,
        RunStage::Post => run.changed == all && run.success == built,
        _ => run.changed == all,
    }
}

proof fn lemma_some_changed(changed: Seq<Vec<ChangedPackage>>, n: int)
    requires
        0 <= n < changed.len(),
    ensures
        some_changed(changed, n + 1) == (some_changed(changed, n) || changed[n]@.len() > 0),
{
    if some_changed(changed, n + 1) {
        let s = choose|s: int| 0 <= s < n + 1 && s < changed.len() && (
        #[trigger] changed[s])@.len() > 0;
        if s < n {
            assert(some_changed(changed, n));
        }
    }
}

proof fn lemma_run_knows(
    plan: RunPlan,
    answers: Seq<bool>,
    changed: Seq<Vec<ChangedPackage>>,
    built: bool,
)
    requires
        truthful(plan, answers, changed, built),
    ensures
        run_knows(plan, run_after(plan, answers), changed, built),
    decreases answers.len(),
{
    if answers.len() > 0 {
        let front = answers.drop_last();
        let last = answers.len() - 1;
        assert forall|k: int| 0 <= k < front.len() implies match #[trigger] stage_at(
            plan,
            front,
            k,
        ) {
            RunStage::Compare { system } => front[k] == (changed[system as int]@.len() > 0),
            RunStage::Build => front[k] == built,
            _ => true,
        } by {
            assert(front.take(k) == answers.take(k));
            assert(stage_at(plan, answers, k) == stage_at(plan, front, k));
        }
        lemma_run_knows(plan, front, changed, built);
        assert(answers.take(last) == front);
        let before = run_after(plan, front);
        assert(stage_at(plan, answers, last) == before.stage);
        law_run_stays_ok(plan, before, answers.last());
        match before.stage {
            RunStage::Compare { system } => lemma_some_changed(changed, system as int),
            _ => {},
        }
    }
}

/// A run that is over was a success exactly where every package that changed, on every
/// system that is tested, was built there. So it is one where nothing changed, and it
/// is none where a package that changed has no result, or one that failed.
pub proof fn law_success_means_every_change_built(
    plan: RunPlan,
    answers: Seq<bool>,
    systems: Seq<String>,
    changed: Seq<Vec<ChangedPackage>>,
    results: Seq<FullEvalBuildResult>,
    success: bool,
)
    requires
        truthful(plan, answers, changed, all_changes_built(systems, changed, results)),
        run_after(plan, answers).stage == (RunStage::Over { success }),
    ensures
        success == all_changes_built(systems, changed, results),
{
    let built = all_changes_built(systems, changed, results);
    lemma_run_knows(plan, answers, changed, built);
    if !some_changed(changed, changed.len() as int) {
        assert forall|s: int| 0 <= s < changed.len() implies (#[trigger] changed[s])@.len() == 0 by {
            assert(!(changed[s]@.len() > 0));
        }
        crate::full_eval::law_nothing_changed_is_built(systems, changed, results);
    }
}

proof fn lemma_success_from(plan: RunPlan, answers: Seq<bool>)
    ensures
        ({
            let run = run_after(plan, answers);
            &&& run_ok(plan, run)
            &&& run.changed && !(run.stage is Over) && run.success ==> run.stage is MakePr
                || run.stage is LoadBase || run.stage is MakeBase || run.stage is EvalBase
                || run.stage is LoadPr || run.stage is EvalPr || run.stage is Compare
                || run.stage is DropBase || run.stage is MakeBaseForChecks
                || run.stage is CollectGarbage || run.stage is Build || answered_built(
                plan,
                answers,
            )
            &&& run.stage == (RunStage::Over { success: true }) ==> !run.changed
                || answered_built(plan, answers)
        }),
    decreases answers.len(),
{
    if answers.len() > 0 {
        let front = answers.drop_last();
        let last = answers.len() - 1;
        lemma_success_from(plan, front);
        assert(answers.take(last) == front);
        let before = run_after(plan, front);
        law_run_stays_ok(plan, before, answers.last());
        if before.stage == RunStage::Build && answers.last() {
            assert(stage_at(plan, answers, last) == RunStage::Build && answers[last]);
        }
        if answered_built(plan, front) {
            let k = choose|k: int|
                0 <= k < front.len() && #[trigger] stage_at(plan, front, k) == RunStage::Build
                    && front[k];
            assert(front.take(k) == answers.take(k));
            assert(stage_at(plan, answers, k) == RunStage::Build && answers[k]);
        }
    }
}

/// Whether the question what was built was answered with yes.
pub open spec fn answered_built(plan: RunPlan, answers: Seq<bool>) -> bool {
    exists|k: int|
        0 <= k < answers.len() && #[trigger] stage_at(plan, answers, k) == RunStage::Build
            && answers[k]
}

/// Whatever the answers, a run is a success only where nothing changed or where the
/// answer was that every package that changed was built.
pub proof fn law_success_comes_from_the_build(plan: RunPlan, answers: Seq<bool>)
    requires
        run_after(plan, answers).stage == (RunStage::Over { success: true }),
    ensures
        !run_after(plan, answers).changed || answered_built(plan, answers),
{
    lemma_success_from(plan, answers);
}

// ---------------------------------------------------------------------------
// What leads where

/// What leads to each stage of the evaluations of a system: they are looked for before
/// they are made, the base is evaluated in a worktree that is made once, and the two are
/// compared when both are there. The first system comes first, unless a saved run is
/// taken up, and each further one after the comparison of the one before.
pub proof fn law_way_to_comparison(plan: RunPlan, run: FullRun, yes: bool, s: usize)
    requires
        run_ok(plan, run),
    ensures
        ({
            let next = run_next(plan, run, yes).stage;
            &&& next == (RunStage::LoadBase { system: s }) <==> (s == 0 && run.stage
                == RunStage::MakePr && !plan.resumed && plan.systems > 0) || (s > 0 && s
                < plan.systems && run.stage == (RunStage::Compare { system: (s - 1) as usize }))
            &&& next == (RunStage::MakeBase { system: s }) <==> run.stage == (RunStage::LoadBase {
                system: s,
            }) && !yes && !run.base_made
            &&& next == (RunStage::EvalBase { system: s }) <==> run.stage == (RunStage::MakeBase {
                system: s,
            }) || (run.stage == (RunStage::LoadBase { system: s }) && !yes && run.base_made)
            &&& next == (RunStage::LoadPr { system: s }) <==> run.stage == (RunStage::EvalBase {
                system: s,
            }) || (run.stage == (RunStage::LoadBase { system: s }) && yes)
            &&& next == (RunStage::EvalPr { system: s }) <==> run.stage == (RunStage::LoadPr {
                system: s,
            }) && !yes
            &&& next == (RunStage::Compare { system: s }) <==> run.stage == (RunStage::EvalPr {
                system: s,
            }) || (run.stage == (RunStage::LoadPr { system: s }) && yes)
        }),
{
}

/// What comes once the evaluations are behind: a saved run was taken up, there is no
/// system, or the last one was compared and there is nothing to do about the worktree of
/// the base, or that was done. Where nothing changed, the worktree is removed and, if
/// anything may be posted, a comment says so. Where something changed it is built, after
/// garbage was collected on a remote builder if there is one. A worktree of the base is
/// removed where it is not needed for looking at failures, and made where it is needed
/// for that and is not there.
pub proof fn law_way_after_comparison(plan: RunPlan, run: FullRun, yes: bool)
    requires
        run_ok(plan, run),
    ensures
        ({
            let next = run_next(plan, run, yes).stage;
            let last = run.stage is Compare && run.stage->Compare_system + 1 == plan.systems;
            let changed = if run.stage == RunStage::MakePr {
                plan.resumed && plan.saved_packages
            } else if run.stage is Compare {
                run.changed || yes
            } else {
                run.changed
            };
            let behind = (run.stage == RunStage::MakePr && (plan.resumed || plan.systems == 0))
                || run.stage == RunStage::DropBase || run.stage == RunStage::MakeBaseForChecks || (
            last && (plan.false_positive || !run.base_made) && !(plan.false_positive
                && !run.base_made && (run.changed || yes)));
            &&& next == RunStage::DropBase <==> last && run.base_made && !plan.false_positive
            &&& next == RunStage::MakeBaseForChecks <==> last && !run.base_made
                && plan.false_positive && (run.changed || yes)
            &&& next == RunStage::RemoveUnchanged <==> behind && !changed
            &&& next == RunStage::CollectGarbage <==> behind && changed && plan.remote
            &&& next == RunStage::Build <==> run.stage == RunStage::CollectGarbage || (behind
                && changed && !plan.remote)
            &&& next == RunStage::PostUnchanged <==> run.stage == RunStage::RemoveUnchanged
                && !plan.dry_run && plan.has_token
        }),
{
}

/// What comes after the build: the worktrees are removed, that of the base where there is
/// one; then the logs are saved, the saved run is forgotten and the outcome is posted; and
/// the run is a success exactly where the build was. Where nothing changed it is one.
pub proof fn law_way_to_the_end(plan: RunPlan, run: FullRun, yes: bool)
    requires
        run_ok(plan, run),
        !(run.stage is Over),
    ensures
        ({
            let next = run_next(plan, run, yes).stage;
            &&& next == RunStage::RemovePr <==> run.stage == RunStage::Build
            &&& next == RunStage::RemoveBase <==> run.stage == RunStage::RemovePr && yes
            &&& next == RunStage::SaveLogs <==> run.stage == RunStage::RemoveBase || (run.stage
                == RunStage::RemovePr && !yes)
            &&& next == RunStage::ForgetState <==> run.stage == RunStage::SaveLogs
            &&& next == RunStage::Post <==> run.stage == RunStage::ForgetState
            &&& next == (RunStage::Over { success: false }) <==> run.stage == RunStage::Post
                && !run.success
            &&& next == (RunStage::Over { success: true }) <==> (run.stage == RunStage::Post
                && run.success) || run.stage == RunStage::PostUnchanged || (run.stage
                == RunStage::RemoveUnchanged && (plan.dry_run || !plan.has_token))
            &&& next != RunStage::MakePr
        }),
{
}

/// What a run remembers: that the worktree of the base was made, from its making on; that
/// something changed, from the first comparison that says so on, or what the saved run
/// says; and what the build said.
pub proof fn law_run_remembers(plan: RunPlan, run: FullRun, yes: bool)
    ensures
        ({
            let next = run_next(plan, run, yes);
            &&& next.base_made <==> run.base_made || run.stage is MakeBase
            &&& next.success <==> if run.stage == RunStage::Build {
                yes
            } else {
                run.success
            }
            &&& run.stage != RunStage::MakePr ==> (next.changed <==> run.changed || (
            run.stage is Compare && yes))
            &&& run.stage == RunStage::MakePr && plan.resumed ==> (next.changed
                <==> plan.saved_packages)
            &&& !run_first().base_made && !run_first().changed && run_first().success
            &&& run_first().stage == RunStage::MakePr
        }),
{
}

/// Which systems were compared by the time of an answer.
spec fn compared(plan: RunPlan, answers: Seq<bool>, s: usize) -> bool {
    exists|k: int|
        0 <= k < answers.len() && #[trigger] stage_at(plan, answers, k) == (RunStage::Compare {
            system: s,
        })
}

/// The first system that is still to be compared at a stage.
spec fn compared_up_to(plan: RunPlan, stage: RunStage) -> int {
    match stage {
        RunStage::MakePr => 0,
        RunStage::LoadBase { system } => system as int,
        RunStage::MakeBase { system } => system as int,
        RunStage::EvalBase { system } => system as int,
        RunStage::LoadPr { system } => system as int,
        RunStage::EvalPr { system } => system as int,
        RunStage::Compare { system } => system as int,
        _ => plan.systems as int,
    }
}

proof fn lemma_compared(plan: RunPlan, answers: Seq<bool>, s: usize)
    requires
        !plan.resumed,
        s < compared_up_to(plan, run_after(plan, answers).stage),
    ensures
        compared(plan, answers, s),
        run_ok(plan, run_after(plan, answers)),
    decreases answers.len(),
{
    if answers.len() > 0 {
        let front = answers.drop_last();
        let last = answers.len() - 1;
        let before = run_after(plan, front);
        lemma_run_is_ok(plan, front);
        law_run_stays_ok(plan, before, answers.last());
        assert(answers.take(last) == front);
        assert(stage_at(plan, answers, last) == before.stage);
        if s < compared_up_to(plan, before.stage) {
            lemma_compared(plan, front, s);
            let k = choose|k: int|
                0 <= k < front.len() && #[trigger] stage_at(plan, front, k) == (
                RunStage::Compare { system: s });
            assert(front.take(k) == answers.take(k));
            assert(stage_at(plan, answers, k) == (RunStage::Compare { system: s }));
        } else {
            assert(before.stage == (RunStage::Compare { system: s }));
            assert(stage_at(plan, answers, last) == (RunStage::Compare { system: s }));
        }
    }
}

proof fn lemma_run_is_ok(plan: RunPlan, answers: Seq<bool>)
    ensures
        run_ok(plan, run_after(plan, answers)),
    decreases answers.len(),
{
    law_run_stays_ok(plan, run_first(), true);
    if answers.len() > 0 {
        lemma_run_is_ok(plan, answers.drop_last());
        law_run_stays_ok(plan, run_after(plan, answers.drop_last()), answers.last());
    }
}

/// Unless a saved run is taken up, nothing is built and the run is not over before every
/// system was compared.
pub proof fn law_every_system_is_compared(plan: RunPlan, answers: Seq<bool>, s: usize)
    requires
        !plan.resumed,
        s < plan.systems,
        run_after(plan, answers).stage == RunStage::Build || run_after(plan, answers).stage is Over,
    ensures
        exists|k: int|
            0 <= k < answers.len() && #[trigger] stage_at(plan, answers, k) == (
            RunStage::Compare { system: s }),
{
    lemma_compared(plan, answers, s);
}

} // verus!
