//! The values that the modes of srcbot pass around.

use vstd::prelude::*;

use crate::attr_map::AttrMap;
use crate::numbers::{decimal, decimal_usize};
use crate::text::{same_text, texts};

verus! {

/// What is known of a pull request.
#[derive(Debug)]
pub struct PullRequest {
    pub title: String,
    pub head: PrRef,
    pub base: PrRef,
    pub merge_commit_sha: Option<String>,
}

/// One side of a pull request.
#[derive(Debug)]
pub struct PrRef {
    pub sha: String,
    /// The name of the branch.
    pub ref_name: String,
}

/// The intermediate attributes that are looked at and built. Each is a
/// fixed-output derivation that is to be rebuilt from scratch.
///
/// The order counts: `src` is first, because the others may take their lock files
/// from the source. Builds go through this list tier by tier.
pub const INTERMEDIATE_ATTRS: [&'static str; 15] = [
    // almost every package
    "src",
    // Go
    "goModules",
    // Rust
    "cargoDeps",
    // Node.js
    "npmDeps",
    "pnpmDeps",
    "yarnOfflineCache",
    "offlineCache",
    // .NET
    "nugetDeps",
    // Dart and Flutter
    "pubcache",
    // PHP
    "vendor",
    "composerVendor",
    "composerRepository",
    // Java
    "fetchedMavenDeps",
    "mitmCache",
    // Elixir
    "mixFodDeps",
];

/// The names of the intermediate attributes, in order.
pub open spec fn intermediates() -> Seq<Seq<char>> {
    INTERMEDIATE_ATTRS@.map_values(|s: &'static str| s@)
}

/// Whether a name is that of an intermediate attribute.
pub open spec fn is_intermediate(name: Seq<char>) -> bool {
    intermediates().contains(name)
}

/// Tells whether a name is that of an intermediate attribute.
pub fn known_intermediate(name: &str) -> (yes: bool)
    ensures
        yes == is_intermediate(name@),
{
    for i in 0..15usize
        invariant
            forall|j: int| 0 <= j < i ==> intermediates()[j] != name@,
    {
        if same_text(INTERMEDIATE_ATTRS[i], name) {
            assert(intermediates()[i as int] == name@);
            return true;
        }
    }
    false
}

/// `src` is the first intermediate attribute: the others may need the source.
pub proof fn law_src_is_first()
    ensures
        intermediates()[0] == "src"@,
        intermediates().len() == 15,
{
}

/// No intermediate attribute is listed twice.
pub proof fn law_intermediates_distinct()
    ensures
        intermediates().no_duplicates(),
{
    reveal_strlit("src");
    reveal_strlit("goModules");
    reveal_strlit("cargoDeps");
    reveal_strlit("npmDeps");
    reveal_strlit("pnpmDeps");
    reveal_strlit("yarnOfflineCache");
    reveal_strlit("offlineCache");
    reveal_strlit("nugetDeps");
    reveal_strlit("pubcache");
    reveal_strlit("vendor");
    reveal_strlit("composerVendor");
    reveal_strlit("composerRepository");
    reveal_strlit("fetchedMavenDeps");
    reveal_strlit("mitmCache");
    reveal_strlit("mixFodDeps");
    let names = intermediates();
    assert forall|i: int, j: int|
        0 <= i < names.len() && 0 <= j < names.len() && i != j implies names[i] != names[j] by {
        if names[i].len() == names[j].len() {
            assert(names[i][0] != names[j][0] || names[i][1] != names[j][1]);
        }
    }
}

/// The attributes of each language come in their place: those of a Go, Rust, Node.js, .NET,
/// Dart, PHP, Java or Elixir package are all looked at.
pub proof fn law_all_languages_listed()
    ensures
        intermediates() == seq![
            "src"@,
            "goModules"@,
            "cargoDeps"@,
            "npmDeps"@,
            "pnpmDeps"@,
            "yarnOfflineCache"@,
            "offlineCache"@,
            "nugetDeps"@,
            "pubcache"@,
            "vendor"@,
            "composerVendor"@,
            "composerRepository"@,
            "fetchedMavenDeps"@,
            "mitmCache"@,
            "mixFodDeps"@,
        ],
{
}

/// A name is that of an intermediate attribute exactly where it stands in the list.
pub proof fn law_known_by_the_list(name: Seq<char>)
    ensures
        is_intermediate(name) <==> exists|i: int|
            0 <= i < 15 && name == #[trigger] intermediates()[i],
{
}

/// A package that differs between the base and the pull request.
#[derive(Debug)]
pub struct ChangedPackage {
    /// The attribute path.
    pub attr: String,
    /// The intermediate attributes that changed, such as `src`.
    pub changed_intermediates: Vec<String>,
    /// The derivation of each of them, on the side of the pull request.
    pub intermediate_drv_paths: AttrMap<String>,
    /// Whether the derivation of the package changed, though no intermediate did.
    pub final_drv_changed: bool,
}

/// The outcome of building a package.
#[derive(Debug)]
pub struct FullEvalBuildResult {
    pub attr: String,
    /// The system that it was built for, such as `x86_64-linux`.
    pub system: String,
    /// Name, success and log of each intermediate that was built.
    pub intermediate_results: Vec<(String, bool, String)>,
    pub package_success: bool,
    pub package_logs: String,
    /// Whether the failure is there on the base branch too.
    pub is_false_positive: bool,
    /// Whether building again showed a hash mismatch.
    pub is_non_deterministic: bool,
    /// Whether the package is there on the base branch.
    pub exists_on_base: bool,
}

/// A changed package as it is kept between runs.
#[derive(Debug)]
pub struct ChangedPackageSer {
    pub attr: String,
    pub changed_intermediates: Vec<String>,
    /// Whether the derivation of the package changed, though no intermediate did.
    pub final_drv_changed: bool,
}

/// A machine that builds for another system.
#[derive(Debug)]
pub struct RemoteBuilderConfig {
    /// Where to connect, such as `root@host`.
    pub ssh_target: String,
    /// The system that it builds for, such as `aarch64-linux`.
    pub system: String,
    /// How many jobs it runs at a time.
    pub max_jobs: usize,
    /// The disk usage above which garbage is collected, such as `50G`.
    pub gc_threshold: Option<String>,
    /// How many days a build is kept when garbage is collected.
    pub gc_keep_days: Option<u64>,
}

/// The line for `--builders`: the address, the system, no key, the number of jobs,
/// the speed factor and the features.
pub open spec fn builders_arg(ssh_target: Seq<char>, system: Seq<char>, max_jobs: nat) -> Seq<
    char,
> {
    "ssh://"@ + ssh_target + " "@ + system + " - "@ + decimal(max_jobs) + " 1 big-parallel"@
}

impl RemoteBuilderConfig {
    /// The builder as an argument of `--builders`.
    pub fn to_builders_arg(&self) -> (arg: String)
        ensures
            arg@ == builders_arg(self.ssh_target@, self.system@, self.max_jobs as nat),
    {
        "ssh://".to_string()
            .concat(self.ssh_target.as_str())
            .concat(" ")
            .concat(self.system.as_str())
            .concat(" - ")
            .concat(decimal_usize(self.max_jobs).as_str())
            .concat(" 1 big-parallel")
    }
}

/// The line for `--builders` begins with the address and the system, and then tells, behind
/// the key that is not there, how many jobs are run.
pub proof fn law_builders_arg(ssh_target: Seq<char>, system: Seq<char>, max_jobs: nat)
    ensures
        exists|end: Seq<char>|
            builders_arg(ssh_target, system, max_jobs) == #[trigger] ("ssh://"@ + ssh_target + " "@
                + system + " - "@ + decimal(max_jobs) + " "@ + end),
{
    reveal_strlit(" 1 big-parallel");
    reveal_strlit(" ");
    let end = "1 big-parallel"@;
    reveal_strlit("1 big-parallel");
    assert(" 1 big-parallel"@ =~= " "@ + end);
    let front = "ssh://"@ + ssh_target + " "@ + system + " - "@ + decimal(max_jobs);
    assert(front + (" "@ + end) =~= front + " "@ + end);
}

/// What is kept of a run, so that it can be taken up again.
#[derive(Debug)]
pub struct RunState {
    pub pr_num: u64,
    pub merge_base: String,
    pub pr_head_sha: String,
    pub system: String,
    /// The command that was run.
    pub cli_command: String,
    /// All packages that are to be built.
    pub packages_to_build: Vec<ChangedPackageSer>,
    /// Name, success and log of each intermediate that was built, by package.
    pub intermediate_results: AttrMap<Vec<(String, bool, String)>>,
    /// The packages that are done.
    pub completed_results: Vec<FullEvalBuildResult>,
    /// Whether the results for the intermediates were posted.
    pub intermediates_posted: bool,
}

/// The outcome of building one attribute of a package.
#[derive(Debug)]
pub struct AttrBuildResult {
    /// The attribute, such as `src`.
    pub name: String,
    /// Whether the package has it.
    pub exists: bool,
    /// The exit code, where the build was tried and not ended by a signal.
    pub code: Option<i32>,
    pub logs: String,
    /// The command that was run.
    pub cmd: String,
}

impl AttrBuildResult {
    /// Whether the attribute counts as built: it is not there, or its build ended
    /// with code zero.
    pub open spec fn is_success(&self) -> bool {
        !self.exists || self.code == Some(0i32)
    }

    /// Tells whether the attribute counts as built.
    pub fn success(&self) -> (yes: bool)
        ensures
            yes == self.is_success(),
    {
        !self.exists || match self.code {
            Some(code) => code == 0,
            None => false,
        }
    }

    /// Tells whether a build was tried.
    pub fn attempted(&self) -> (yes: bool)
        ensures
            yes == self.exists,
    {
        self.exists
    }
}

/// An attribute that is not there never counts as a failure.
pub proof fn law_missing_attr_succeeds(result: AttrBuildResult)
    requires
        !result.exists,
    ensures
        result.is_success(),
{
}

/// An attribute that is there counts as built exactly where its build ended with code
/// zero: neither another code nor a signal will do.
pub proof fn law_only_zero_succeeds(result: AttrBuildResult)
    requires
        result.exists,
    ensures
        result.code matches Some(code) && code != 0 ==> !result.is_success(),
        result.code is None ==> !result.is_success(),
        result.code matches Some(code) && code == 0 ==> result.is_success(),
{
}

// ---------------------------------------------------------------------------
// What the values say

/// The names, outcomes and logs of a list of steps.
pub open spec fn step_texts(steps: Seq<(String, bool, String)>) -> Seq<
    (Seq<char>, bool, Seq<char>),
> {
    steps.map_values(|s: (String, bool, String)| (s.0@, s.1, s.2@))
}

/// What a build result says.
#[verifier::ext_equal]
pub struct ResultText {
    pub attr: Seq<char>,
    pub system: Seq<char>,
    pub steps: Seq<(Seq<char>, bool, Seq<char>)>,
    pub success: bool,
    pub logs: Seq<char>,
    pub false_positive: bool,
    pub non_deterministic: bool,
    pub on_base: bool,
}

impl View for FullEvalBuildResult {
    type V = ResultText;

    open spec fn view(&self) -> ResultText {
        ResultText {
            attr: self.attr@,
            system: self.system@,
            steps: step_texts(self.intermediate_results@),
            success: self.package_success,
            logs: self.package_logs@,
            false_positive: self.is_false_positive,
            non_deterministic: self.is_non_deterministic,
            on_base: self.exists_on_base,
        }
    }
}

/// What a list of build results says.
pub open spec fn result_texts(results: Seq<FullEvalBuildResult>) -> Seq<ResultText> {
    results.map_values(|r: FullEvalBuildResult| r@)
}

/// What a changed package says.
#[verifier::ext_equal]
pub struct ChangedText {
    pub attr: Seq<char>,
    pub changed: Seq<Seq<char>>,
    pub final_changed: bool,
}

impl View for ChangedPackageSer {
    type V = ChangedText;

    open spec fn view(&self) -> ChangedText {
        ChangedText {
            attr: self.attr@,
            changed: texts(self.changed_intermediates@),
            final_changed: self.final_drv_changed,
        }
    }
}

impl View for ChangedPackage {
    type V = ChangedText;

    open spec fn view(&self) -> ChangedText {
        ChangedText {
            attr: self.attr@,
            changed: texts(self.changed_intermediates@),
            final_changed: self.final_drv_changed,
        }
    }
}

/// What a list of changed packages says.
pub open spec fn changed_texts(list: Seq<ChangedPackage>) -> Seq<ChangedText> {
    list.map_values(|p: ChangedPackage| p@)
}

/// What a list of kept packages says.
pub open spec fn kept_texts(list: Seq<ChangedPackageSer>) -> Seq<ChangedText> {
    list.map_values(|p: ChangedPackageSer| p@)
}

/// Copies a list of steps.
pub fn copy_steps(steps: &Vec<(String, bool, String)>) -> (out: Vec<(String, bool, String)>)
    ensures
        step_texts(out@) == step_texts(steps@),
{
    let n: usize = steps.len();
    let mut out: Vec<(String, bool, String)> = Vec::new();
    for i in 0..n
        invariant
            n == steps@.len(),
            step_texts(out@) == step_texts(steps@).take(i as int),
    {
        let ghost all = step_texts(steps@);
        out.push((steps[i].0.clone(), steps[i].1, steps[i].2.clone()));
        assert(all.take(i as int).push(all[i as int]) == all.take(i + 1));
        assert(step_texts(out@).last() == all[i as int]);
    }
    out
}

/// Copies a build result.
pub fn copy_result(result: &FullEvalBuildResult) -> (out: FullEvalBuildResult)
    ensures
        out@ == result@,
{
    FullEvalBuildResult {
        attr: result.attr.clone(),
        system: result.system.clone(),
        intermediate_results: copy_steps(&result.intermediate_results),
        package_success: result.package_success,
        package_logs: result.package_logs.clone(),
        is_false_positive: result.is_false_positive,
        is_non_deterministic: result.is_non_deterministic,
        exists_on_base: result.exists_on_base,
    }
}

/// What a build result says is all that it holds: two that say the same hold the same
/// texts and marks, and each says its own.
pub proof fn law_result_says_all(r: FullEvalBuildResult)
    ensures
        r@.attr == r.attr@,
        r@.system == r.system@,
        r@.success == r.package_success,
        r@.logs == r.package_logs@,
        r@.false_positive == r.is_false_positive,
        r@.non_deterministic == r.is_non_deterministic,
        r@.on_base == r.exists_on_base,
        r@.steps.len() == r.intermediate_results@.len(),
        forall|k: int|
            0 <= k < r.intermediate_results@.len() ==> (#[trigger] r@.steps[k]).0
                == r.intermediate_results@[k].0@ && r@.steps[k].1 == r.intermediate_results@[k].1
                && r@.steps[k].2 == r.intermediate_results@[k].2@,
{
}

/// What a changed package says is its attribute path, the names of its changed
/// attributes and the mark on it.
pub proof fn law_changed_says_all(p: ChangedPackage, kept: ChangedPackageSer)
    ensures
        p@.attr == p.attr@,
        p@.final_changed == p.final_drv_changed,
        p@.changed.len() == p.changed_intermediates@.len(),
        forall|k: int|
            0 <= k < p.changed_intermediates@.len() ==> #[trigger] p@.changed[k]
                == p.changed_intermediates@[k]@,
        kept@.attr == kept.attr@,
        kept@.final_changed == kept.final_drv_changed,
        kept@.changed.len() == kept.changed_intermediates@.len(),
        forall|k: int|
            0 <= k < kept.changed_intermediates@.len() ==> #[trigger] kept@.changed[k]
                == kept.changed_intermediates@[k]@,
{
}

/// A list says what its members say, one for one.
pub proof fn law_lists_say_all(
    results: Seq<FullEvalBuildResult>,
    changed: Seq<ChangedPackage>,
    kept: Seq<ChangedPackageSer>,
)
    ensures
        result_texts(results).len() == results.len(),
        forall|i: int|
            0 <= i < results.len() ==> #[trigger] result_texts(results)[i] == results[i]@,
        changed_texts(changed).len() == changed.len(),
        forall|i: int|
            0 <= i < changed.len() ==> #[trigger] changed_texts(changed)[i] == changed[i]@,
        kept_texts(kept).len() == kept.len(),
        forall|i: int| 0 <= i < kept.len() ==> #[trigger] kept_texts(kept)[i] == kept[i]@,
{
}

} // verus!
