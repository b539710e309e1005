//! What is asked of Nix, and what is made of its answers.

use vstd::prelude::*;

use crate::numbers::{decimal, decimal_usize};
use crate::outside::{first_member_flag, read_first_member_flag};
use crate::search::{contains, ends_with, lemma_contains_middle, lines, lines_of, str_contains};
use crate::text::{join, join_all, no_texts, push_text, same_text, texts};
use crate::trim::{blank, is_blank, trim, trimmed, unquote, unquoted};
use crate::types::{intermediates, AttrBuildResult, INTERMEDIATE_ATTRS};

verus! {

// ---------------------------------------------------------------------------
// Expressions

/// The expression for `--apply`, up to the list of names.
pub const APPLY_HEAD: &'static str = "drv: let\n  intermediateAttrNames = [ ";

/// The expression for `--apply`, behind the list of names.
pub const APPLY_TAIL: &'static str = " ];\n  tryGetDrvPath = name:\n    let\n      result = builtins.tryEval (\n        if drv ? ${name} then\n          let attr = drv.${name}; in\n          if attr ? drvPath then attr.drvPath\n          else null\n        else null\n      );\n    in\n    if result.success then result.value else null;\nin\nbuiltins.listToAttrs (\n  builtins.filter (x: x.value != null) (\n    map (name: { inherit name; value = tryGetDrvPath name; }) intermediateAttrNames\n  )\n)";

/// A name between double quotes.
pub open spec fn quoted(name: Seq<char>) -> Seq<char> {
    "\""@ + name + "\""@
}

/// The names of the first `n` intermediate attributes between double quotes.
pub open spec fn quoted_names(n: int) -> Seq<Seq<char>> {
    intermediates().take(n).map_values(|name: Seq<char>| quoted(name))
}

/// The expression that reads the derivations of the intermediate attributes.
pub open spec fn apply_expr() -> Seq<char> {
    APPLY_HEAD@ + join(quoted_names(15), " "@) + APPLY_TAIL@
}

/// Makes the expression that reads the derivations of the intermediate attributes.
pub fn get_apply_expr() -> (expr: String)
    ensures
        expr@ == apply_expr(),
{
    let mut names: Vec<String> = no_texts();
    assert(quoted_names(0) == Seq::<Seq<char>>::empty());
    for i in 0..15usize
        invariant
            texts(names@) == quoted_names(i as int),
    {
        let name = "\"".to_string().concat(INTERMEDIATE_ATTRS[i]).concat("\"");
        assert(name@ == quoted(intermediates()[i as int]));
        let ghost before = texts(names@);
        push_text(&mut names, name.as_str());
        assert(quoted_names(i + 1) == before.push(name@));
    }
    APPLY_HEAD.to_string().concat(join_all(&names, " ").as_str()).concat(APPLY_TAIL)
}

proof fn lemma_join_holds(parts: Seq<Seq<char>>, sep: Seq<char>, i: int)
    requires
        0 <= i < parts.len(),
    ensures
        exists|at: int|
            0 <= at <= join(parts, sep).len() - parts[i].len() && #[trigger] join(parts, sep).subrange(
                at,
                at + parts[i].len(),
            ) == parts[i],
    decreases parts.len(),
{
    let whole = join(parts, sep);
    if parts.len() == 1 {
        assert(whole.subrange(0, 0int + parts[i].len()) == parts[i]);
    } else if i == parts.len() - 1 {
        let at = whole.len() - parts[i].len();
        assert(whole.subrange(at, at + parts[i].len()) == parts[i]);
    } else {
        let front = parts.drop_last();
        lemma_join_holds(front, sep, i);
        assert(front[i] == parts[i]);
        let inner = join(front, sep);
        let at = choose|at: int|
            0 <= at <= inner.len() - front[i].len() && #[trigger] inner.subrange(
                at,
                at + front[i].len(),
            ) == front[i];
        assert(whole.subrange(at, at + parts[i].len()) == inner.subrange(at, at + front[i].len()));
    }
}

/// The expression asks for every intermediate attribute.
pub proof fn law_apply_expr_names_all(i: int)
    requires
        0 <= i < intermediates().len(),
    ensures
        contains(apply_expr(), quoted(intermediates()[i])),
{
    let parts = quoted_names(15);
    let inner = join(parts, " "@);
    let name = quoted(intermediates()[i]);
    assert(parts[i] == name);
    lemma_join_holds(parts, " "@, i);
    let at = choose|at: int|
        0 <= at <= inner.len() - parts[i].len() && #[trigger] inner.subrange(
            at,
            at + parts[i].len(),
        ) == parts[i];
    let shift = APPLY_HEAD@.len() + at;
    assert(apply_expr().subrange(shift, shift + name.len()) == inner.subrange(
        at,
        at + name.len(),
    ));
    assert(crate::search::occurs_at(apply_expr(), name, shift));
}

/// The expression that imports nixpkgs for a system.
pub open spec fn import_expr(path: Seq<char>, system: Seq<char>) -> Seq<char> {
    "import "@ + path + " { system = \""@ + system + "\"; config = { allowUnfree = true; }; }"@
}

/// Makes the expression that imports nixpkgs for a system.
pub fn make_import_expr(path: &str, system: &str) -> (expr: String)
    ensures
        expr@ == import_expr(path@, system@),
{
    "import ".to_string()
        .concat(path)
        .concat(" { system = \"")
        .concat(system)
        .concat("\"; config = { allowUnfree = true; }; }")
}

/// The expression that is evaluated for a package set: all of nixpkgs where the set
/// has no name.
pub open spec fn pkgset_expr(path: Seq<char>, pkgset: Seq<char>, system: Seq<char>) -> Seq<char> {
    if pkgset.len() == 0 {
        import_expr(path, system)
    } else {
        "let pkgs = "@ + import_expr(path, system) + "; in pkgs."@ + pkgset
            + " // { recurseForDerivations = true; }"@
    }
}

/// Makes the expression that is evaluated for a package set.
pub fn make_pkgset_expr(path: &str, pkgset: &str, system: &str) -> (expr: String)
    ensures
        expr@ == pkgset_expr(path@, pkgset@, system@),
{
    let import = make_import_expr(path, system);
    if pkgset.is_empty() {
        import
    } else {
        "let pkgs = ".to_string()
            .concat(import.as_str())
            .concat("; in pkgs.")
            .concat(pkgset)
            .concat(" // { recurseForDerivations = true; }")
    }
}

/// An attribute of a package; the package itself where the attribute has no name.
pub open spec fn full_attr(pkg: Seq<char>, sub: Seq<char>) -> Seq<char> {
    if sub.len() == 0 {
        pkg
    } else {
        pkg + "."@ + sub
    }
}

/// Names an attribute of a package.
pub fn make_full_attr(pkg: &str, sub: &str) -> (out: String)
    ensures
        out@ == full_attr(pkg@, sub@),
{
    if sub.is_empty() {
        pkg.to_string()
    } else {
        pkg.to_string().concat(".").concat(sub)
    }
}

/// The expression that is built for an attribute.
pub open spec fn attr_expr(path: Seq<char>, system: Seq<char>, attr: Seq<char>) -> Seq<char> {
    "with "@ + import_expr(path, system) + "; "@ + attr
}

/// Makes the expression that is built for an attribute.
pub fn make_attr_expr(path: &str, system: &str, attr: &str) -> (expr: String)
    ensures
        expr@ == attr_expr(path@, system@, attr@),
{
    "with ".to_string()
        .concat(make_import_expr(path, system).as_str())
        .concat("; ")
        .concat(attr)
}

/// The expression that is built for a package.
pub open spec fn package_expr(path: Seq<char>, system: Seq<char>, attr: Seq<char>) -> Seq<char> {
    "("@ + import_expr(path, system) + ")."@ + attr
}

/// Makes the expression that is built for a package.
pub fn make_package_expr(path: &str, system: &str, attr: &str) -> (expr: String)
    ensures
        expr@ == package_expr(path@, system@, attr@),
{
    "(".to_string()
        .concat(make_import_expr(path, system).as_str())
        .concat(").")
        .concat(attr)
}

/// The expression that is built for the tests of a package.
pub open spec fn tests_expr(path: Seq<char>, system: Seq<char>, attr: Seq<char>) -> Seq<char> {
    "with "@ + import_expr(path, system) + "; builtins.attrValues "@ + attr + ".passthru.tests"@
}

/// Makes the expression that is built for the tests of a package.
pub fn make_tests_expr(path: &str, system: &str, attr: &str) -> (expr: String)
    ensures
        expr@ == tests_expr(path@, system@, attr@),
{
    "with ".to_string()
        .concat(make_import_expr(path, system).as_str())
        .concat("; builtins.attrValues ")
        .concat(attr)
        .concat(".passthru.tests")
}

/// The expression that asks whether a package has an attribute.
pub fn make_has_attr_expr(path: &str, system: &str, pkg: &str, sub: &str) -> (expr: String)
    ensures
        expr@ == "with import "@ + path@ + " { system = \""@ + system@ + "\"; }; "@ + pkg@ + " ? "@
            + sub@,
{
    "with import ".to_string()
        .concat(path)
        .concat(" { system = \"")
        .concat(system)
        .concat("\"; }; ")
        .concat(pkg)
        .concat(" ? ")
        .concat(sub)
}

/// The expression that asks for the store path of an attribute.
pub fn make_out_path_expr(path: &str, system: &str, pkg: &str, sub: &str) -> (expr: String)
    ensures
        expr@ == "with import "@ + path@ + " { system = \""@ + system@ + "\"; }; "@ + full_attr(
            pkg@,
            sub@,
        ) + ".outPath"@,
{
    "with import ".to_string()
        .concat(path)
        .concat(" { system = \"")
        .concat(system)
        .concat("\"; }; ")
        .concat(make_full_attr(pkg, sub).as_str())
        .concat(".outPath")
}

// ---------------------------------------------------------------------------
// Arguments

/// The arguments of nix-eval-jobs.
pub fn eval_jobs_args(expr: &str, workers: usize) -> (args: Vec<String>)
    ensures
        texts(args@) == seq![
            "--expr"@,
            expr@,
            "--apply"@,
            apply_expr(),
            "--workers"@,
            decimal(workers as nat),
        ],
{
    let apply = get_apply_expr();
    let workers_text = decimal_usize(workers);
    let mut args = no_texts();
    push_text(&mut args, "--expr");
    push_text(&mut args, expr);
    push_text(&mut args, "--apply");
    push_text(&mut args, apply.as_str());
    push_text(&mut args, "--workers");
    push_text(&mut args, workers_text.as_str());
    args
}

/// The arguments of nix-build: without the cache, nothing is substituted.
pub open spec fn nix_build_args(expr: Seq<char>, use_cache: bool) -> Seq<Seq<char>> {
    if use_cache {
        seq!["--no-out-link"@, "--expr"@, expr]
    } else {
        seq!["--no-out-link"@, "--substituters"@, ""@, "--expr"@, expr]
    }
}

/// Makes the arguments of nix-build.
pub fn make_nix_build_args(expr: &str, use_cache: bool) -> (args: Vec<String>)
    ensures
        texts(args@) == nix_build_args(expr@, use_cache),
{
    let mut args = no_texts();
    push_text(&mut args, "--no-out-link");
    if !use_cache {
        push_text(&mut args, "--substituters");
        push_text(&mut args, "");
    }
    push_text(&mut args, "--expr");
    push_text(&mut args, expr);
    args
}

/// The arguments of nix-build for building again and comparing.
pub fn make_check_args(expr: &str) -> (args: Vec<String>)
    ensures
        texts(args@) == seq!["--no-out-link"@, "--check"@, "--expr"@, expr@],
{
    let mut args = no_texts();
    push_text(&mut args, "--no-out-link");
    push_text(&mut args, "--check");
    push_text(&mut args, "--expr");
    push_text(&mut args, expr);
    args
}

/// Arguments with the builders that are to be used, where some are.
pub fn with_builders(args: Vec<String>, builders: Option<&str>) -> (out: Vec<String>)
    ensures
        texts(out@) == texts(args@) + (match builders {
            Some(b) => seq!["--builders"@, b@],
            None => Seq::empty(),
        }),
{
    let mut out = args;
    if let Some(b) = builders {
        push_text(&mut out, "--builders");
        push_text(&mut out, b);
    }
    out
}

/// The arguments of nix for building a package.
pub open spec fn package_build_args(expr: Seq<char>, rebuild: bool) -> Seq<Seq<char>> {
    let head = seq![
        "--extra-experimental-features"@,
        "nix-command"@,
        "build"@,
        "--print-build-logs"@,
        "--no-link"@,
    ];
    let tail = seq!["--impure"@, "--expr"@, expr];
    if rebuild {
        head.push("--rebuild"@) + tail
    } else {
        head + tail
    }
}

/// Makes the arguments of nix for building a package.
pub fn make_package_build_args(expr: &str, rebuild: bool) -> (args: Vec<String>)
    ensures
        texts(args@) == package_build_args(expr@, rebuild),
{
    let mut args = no_texts();
    push_text(&mut args, "--extra-experimental-features");
    push_text(&mut args, "nix-command");
    push_text(&mut args, "build");
    push_text(&mut args, "--print-build-logs");
    push_text(&mut args, "--no-link");
    if rebuild {
        push_text(&mut args, "--rebuild");
    }
    push_text(&mut args, "--impure");
    push_text(&mut args, "--expr");
    push_text(&mut args, expr);
    args
}

/// The arguments of nix for asking where a store path came from.
pub fn make_path_info_args(store_path: &str) -> (args: Vec<String>)
    ensures
        texts(args@) == seq![
            "--extra-experimental-features"@,
            "nix-command"@,
            "path-info"@,
            "--json"@,
            store_path@,
        ],
{
    let mut args = no_texts();
    push_text(&mut args, "--extra-experimental-features");
    push_text(&mut args, "nix-command");
    push_text(&mut args, "path-info");
    push_text(&mut args, "--json");
    push_text(&mut args, store_path);
    args
}

/// The arguments of sudo for deleting store paths.
pub open spec fn delete_args(paths: Seq<Seq<char>>) -> Seq<Seq<char>> {
    seq!["nix-store"@, "--delete"@, "--ignore-liveness"@] + paths
}

/// Makes the arguments of sudo for deleting store paths.
pub fn make_delete_args(paths: &Vec<String>) -> (args: Vec<String>)
    ensures
        texts(args@) == delete_args(texts(paths@)),
{
    let mut args = no_texts();
    push_text(&mut args, "nix-store");
    push_text(&mut args, "--delete");
    push_text(&mut args, "--ignore-liveness");
    let n: usize = paths.len();
    let ghost head = texts(args@);
    let ghost all = texts(paths@);
    assert(head == seq!["nix-store"@, "--delete"@, "--ignore-liveness"@]);
    assert(head + all.take(0) == head);
    for i in 0..n
        invariant
            n == paths@.len(),
            all == texts(paths@),
            texts(args@) == head + all.take(i as int),
    {
        push_text(&mut args, paths[i].as_str());
        assert(head + all.take(i + 1) == (head + all.take(i as int)).push(all[i as int]));
    }
    assert(all.take(n as int) == all);
    args
}

/// The command that deletes store paths, as it is shown.
pub fn delete_command(paths: &Vec<String>) -> (cmd: String)
    ensures
        cmd@ == "sudo "@ + join(delete_args(texts(paths@)), " "@),
{
    let args = make_delete_args(paths);
    "sudo ".to_string().concat(join_all(&args, " ").as_str())
}

// ---------------------------------------------------------------------------
// Answers

/// The lines of an output that are not blank.
pub open spec fn filled_lines(output: Seq<char>) -> Seq<Seq<char>> {
    lines(output).filter(|line: Seq<char>| !is_blank(line))
}

/// Lists the lines of an output that are not blank: each is one attribute.
pub fn eval_lines(output: &str) -> (out: Vec<String>)
    ensures
        texts(out@) == filled_lines(output@),
{
    let all = lines_of(output);
    let n: usize = all.len();
    let ghost every = texts(all@);
    let ghost keep = |line: Seq<char>| !is_blank(line);
    let mut out = no_texts();
    proof {
        reveal(Seq::filter);
        assert(every.take(0).filter(keep) == Seq::<Seq<char>>::empty());
    }
    for i in 0..n
        invariant
            n == all@.len(),
            every == texts(all@),
            keep == (|line: Seq<char>| !is_blank(line)),
            texts(out@) == every.take(i as int).filter(keep),
    {
        proof {
            reveal(Seq::filter);
            assert(every.take(i + 1).drop_last() == every.take(i as int));
            assert(every.take(i + 1).last() == all@[i as int]@);
        }
        if !blank(all[i].as_str()) {
            push_text(&mut out, all[i].as_str());
        }
    }
    assert(every.take(n as int) == every);
    out
}

/// Reads the answer to whether a package has an attribute.
pub fn answer_is_true(output: &str) -> (yes: bool)
    ensures
        yes == (trimmed(output@) == "true"@),
{
    same_text(trim(output).as_str(), "true")
}

/// Reads a store path from an answer, which stands between quotes.
pub fn store_path_of(output: &str) -> (path: String)
    ensures
        path@ == unquoted(trimmed(output@)),
{
    unquote(trim(output).as_str())
}

/// What `nix path-info --json` says of a store path.
#[derive(Clone, Copy, PartialEq, Eq, Structural, Debug)]
pub enum PathInfo {
    /// The answer is no JSON.
    Unreadable,
    /// The answer names no path.
    NoPath,
    /// The answer does not tell whether the path was built here.
    Untold,
    /// The path was built here, or it was not.
    Told { ultimate: bool },
}

/// What is known of a store path, by what was found in the answer.
pub open spec fn path_info_of(found: Option<Option<Option<bool>>>) -> PathInfo {
    match found {
        None => PathInfo::Unreadable,
        Some(None) => PathInfo::NoPath,
        Some(Some(None)) => PathInfo::Untold,
        Some(Some(Some(ultimate))) => PathInfo::Told { ultimate },
    }
}

/// Tells what is known of a store path from what was found in the answer.
pub fn read_path_info(found: Option<Option<Option<bool>>>) -> (info: PathInfo)
    ensures
        info == path_info_of(found),
{
    match found {
        None => PathInfo::Unreadable,
        Some(None) => PathInfo::NoPath,
        Some(Some(None)) => PathInfo::Untold,
        Some(Some(Some(ultimate))) => PathInfo::Told { ultimate },
    }
}

/// Reads what `nix path-info --json` says of a store path.
pub fn parse_path_info(output: &str) -> (info: PathInfo)
    ensures
        info == path_info_of(first_member_flag(output@, "ultimate"@)),
{
    read_path_info(read_first_member_flag(output, "ultimate"))
}

/// Whether a store path counts as built here: only where that was told.
pub open spec fn counts_as_local(info: PathInfo) -> bool {
    info == (PathInfo::Told { ultimate: true })
}

/// Tells whether a store path counts as built here. Where that is not known it
/// counts as fetched, so that it is built again and compared.
pub fn is_local(info: PathInfo) -> (yes: bool)
    ensures
        yes == counts_as_local(info),
{
    match info {
        PathInfo::Told { ultimate } => ultimate,
        _ => false,
    }
}

// ---------------------------------------------------------------------------
// Building again

/// Tells whether a build has to be done again and compared: its path was there
/// before, or it was not built here.
pub fn needs_check(existed_before: bool, built_locally: bool) -> (yes: bool)
    ensures
        yes == (existed_before || !built_locally),
{
    existed_before || !built_locally
}

/// What to do next in building an attribute.
#[derive(Clone, Copy, PartialEq, Eq, Structural, Debug)]
pub enum BuildStep {
    /// Ask for the store path and look whether it is there.
    SeekPath,
    /// Build.
    Build,
    /// Ask for the store path once more.
    SeekPathAgain,
    /// Ask where the store path came from.
    AskOrigin,
    /// Build again and compare.
    Check,
    /// It did not compare: look whether the log of the check tells of a hash mismatch.
    ReadCheck,
    /// Nothing more to do. A build that went well and then showed a hash mismatch is
    /// not deterministic.
    Done { success: bool, non_deterministic: bool },
}

/// How far building an attribute is.
#[derive(Clone, Copy, PartialEq, Eq, Structural, Debug)]
pub struct BuildRun {
    pub use_cache: bool,
    pub existed_before: bool,
    pub step: BuildStep,
}

/// The answer to a step: whether the path is there, whether it is known, whether
/// it is from here, whether the build went well, or whether there is a mismatch.
pub open spec fn build_next(run: BuildRun, yes: bool) -> BuildRun {
    match run.step {
        BuildStep::SeekPath => BuildRun { existed_before: yes, step: BuildStep::Build, ..run },
        BuildStep::Build => BuildRun {
            step: if run.use_cache && yes {
                BuildStep::SeekPathAgain
            } else {
                BuildStep::Done { success: yes, non_deterministic: false }
            },
            ..run
        },
        BuildStep::SeekPathAgain => BuildRun {
            step: if !yes {
                BuildStep::Done { success: true, non_deterministic: false }
            } else if run.existed_before {
                BuildStep::Check
            } else {
                BuildStep::AskOrigin
            },
            ..run
        },
        BuildStep::AskOrigin => BuildRun {
            step: if run.existed_before || !yes {
                BuildStep::Check
            } else {
                BuildStep::Done { success: true, non_deterministic: false }
            },
            ..run
        },
        BuildStep::Check => BuildRun {
            step: if yes {
                BuildStep::Done { success: true, non_deterministic: false }
            } else {
                BuildStep::ReadCheck
            },
            ..run
        },
        BuildStep::ReadCheck => BuildRun {
            step: BuildStep::Done { success: false, non_deterministic: yes },
            ..run
        },
        BuildStep::Done { .. } => run,
    }
}

/// The first step: with the cache, the path is looked for before the build.
pub open spec fn build_first(use_cache: bool) -> BuildRun {
    BuildRun {
        use_cache,
        existed_before: false,
        step: if use_cache {
            BuildStep::SeekPath
        } else {
            BuildStep::Build
        },
    }
}

/// Begins building an attribute.
pub fn start_build(use_cache: bool) -> (run: BuildRun)
    ensures
        run == build_first(use_cache),
{
    let step = if use_cache {
        BuildStep::SeekPath
    } else {
        BuildStep::Build
    };
    BuildRun { use_cache, existed_before: false, step }
}

/// Takes the answer to a step.
pub fn advance_build(run: BuildRun, yes: bool) -> (after: BuildRun)
    ensures
        after == build_next(run, yes),
{
    let mut after = run;
    match run.step {
        BuildStep::SeekPath => {
            after.existed_before = yes;
            after.step = BuildStep::Build;
        },
        BuildStep::Build => {
            after.step = if run.use_cache && yes {
                BuildStep::SeekPathAgain
            } else {
                BuildStep::Done { success: yes, non_deterministic: false }
            };
        },
        BuildStep::SeekPathAgain => {
            after.step = if !yes {
                BuildStep::Done { success: true, non_deterministic: false }
            } else if run.existed_before {
                BuildStep::Check
            } else {
                BuildStep::AskOrigin
            };
        },
        BuildStep::AskOrigin => {
            after.step = if needs_check(run.existed_before, yes) {
                BuildStep::Check
            } else {
                BuildStep::Done { success: true, non_deterministic: false }
            };
        },
        BuildStep::Check => {
            after.step = if yes {
                BuildStep::Done { success: true, non_deterministic: false }
            } else {
                BuildStep::ReadCheck
            };
        },
        BuildStep::ReadCheck => {
            after.step = BuildStep::Done { success: false, non_deterministic: yes };
        },
        BuildStep::Done { .. } => {},
    }
    after
}

/// With the cache, a build whose path is known counts as a success exactly where
/// the build went well and, if its path was there before or it was not built here,
/// the second build compared. It is not deterministic exactly where the second build
/// showed a hash mismatch.
pub proof fn law_cached_build(
    existed: bool,
    built: bool,
    local: bool,
    checked: bool,
    mismatch: bool,
)
    ensures
        ({
            let sought = build_next(build_first(true), existed);
            let done = build_next(sought, built);
            let known = build_next(done, true);
            let asked = if known.step == BuildStep::AskOrigin {
                build_next(known, local)
            } else {
                known
            };
            let compared = if asked.step == BuildStep::Check {
                build_next(asked, checked)
            } else {
                asked
            };
            let end = if compared.step == BuildStep::ReadCheck {
                build_next(compared, mismatch)
            } else {
                compared
            };
            let verified = existed || !local;
            end.step == (BuildStep::Done {
                success: built && (!verified || checked),
                non_deterministic: built && verified && !checked && mismatch,
            })
        }),
{
}

/// Without the cache, a build is never done again.
pub proof fn law_uncached_build(built: bool)
    ensures
        build_next(build_first(false), built).step == (BuildStep::Done {
            success: built,
            non_deterministic: false,
        }),
{
}

/// Tells whether the log of a check tells of a hash mismatch.
pub fn tells_mismatch(check_log: &str) -> (yes: bool)
    ensures
        yes == contains(check_log@, "hash mismatch"@),
{
    str_contains(check_log, "hash mismatch")
}

/// What stands in the log between a build and its check.
pub const CHECK_MARK: &'static str = "\n--- Running --check to verify FOD ---\n";

/// The log of a build and of its check.
pub fn with_check_log(log: &str, check_log: &str) -> (out: String)
    ensures
        out@ == log@ + CHECK_MARK@ + check_log@,
{
    log.to_string().concat(CHECK_MARK).concat(check_log)
}

// ---------------------------------------------------------------------------
// Results of attributes

/// The result for an attribute that a package does not have.
pub fn missing_attr(name: &str) -> (result: AttrBuildResult)
    ensures
        result.name@ == name@,
        !result.exists,
        result.code is None,
        result.logs@ == Seq::<char>::empty(),
        result.cmd@ == Seq::<char>::empty(),
{
    AttrBuildResult {
        name: name.to_string(),
        exists: false,
        code: None,
        logs: String::new(),
        cmd: String::new(),
    }
}

/// The result for an attribute whose build was tried: its code and log, or what
/// kept it from running.
pub fn tried_attr(
    name: &str,
    cmd: String,
    outcome: Result<(Option<i32>, String), String>,
) -> (result: AttrBuildResult)
    ensures
        result.name@ == name@,
        result.exists,
        result.cmd@ == cmd@,
        match outcome {
            Ok((code, logs)) => result.code == code && result.logs@ == logs@,
            Err(error) => result.code is None && result.logs@ == error@,
        },
{
    match outcome {
        Ok((code, logs)) => AttrBuildResult {
            name: name.to_string(),
            exists: true,
            code,
            logs,
            cmd,
        },
        Err(error) => AttrBuildResult {
            name: name.to_string(),
            exists: true,
            code: None,
            logs: error,
            cmd,
        },
    }
}

/// The command that builds an attribute, as it is shown: with the cache, it says
/// that the build may be done again.
pub open spec fn attr_command(
    path: Seq<char>,
    system: Seq<char>,
    attr: Seq<char>,
    use_cache: bool,
) -> Seq<char> {
    if use_cache {
        "nix-build --no-out-link --expr '"@ + attr_expr(path, system, attr)
            + "' (+ --check if cached)"@
    } else {
        "nix-build --no-out-link --substituters '' --expr '"@ + attr_expr(path, system, attr)
            + "'"@
    }
}

/// Makes the command that builds an attribute, as it is shown.
pub fn make_attr_command(path: &str, system: &str, attr: &str, use_cache: bool) -> (cmd: String)
    ensures
        cmd@ == attr_command(path@, system@, attr@, use_cache),
{
    let expr = make_attr_expr(path, system, attr);
    if use_cache {
        "nix-build --no-out-link --expr '".to_string()
            .concat(expr.as_str())
            .concat("' (+ --check if cached)")
    } else {
        "nix-build --no-out-link --substituters '' --expr '".to_string()
            .concat(expr.as_str())
            .concat("'")
    }
}

// ---------------------------------------------------------------------------
// What holds of what is asked

/// Each expression is about the nixpkgs at the path and the system that are asked for,
/// and about the attribute.
#[verifier::rlimit(40)]
pub proof fn law_expressions_name_all(path: Seq<char>, system: Seq<char>, attr: Seq<char>)
    ensures
        contains(import_expr(path, system), "import "@ + path + " "@),
        contains(import_expr(path, system), "system = \""@ + system + "\";"@),
        contains(attr_expr(path, system, attr), import_expr(path, system)),
        ends_with(attr_expr(path, system, attr), "; "@ + attr),
        contains(package_expr(path, system, attr), import_expr(path, system)),
        ends_with(package_expr(path, system, attr), ")."@ + attr),
        contains(tests_expr(path, system, attr), import_expr(path, system)),
        ends_with(tests_expr(path, system, attr), " "@ + attr + ".passthru.tests"@),
{
    lemma_import_parts(path, system);
    let import = import_expr(path, system);
    lemma_expression_parts("with "@, import, "; "@ + attr);
    assert("with "@ + import + ("; "@ + attr) =~= "with "@ + import + "; "@ + attr);
    lemma_expression_parts("("@, import, ")."@ + attr);
    assert("("@ + import + (")."@ + attr) =~= "("@ + import + ")."@ + attr);
    reveal_strlit("; builtins.attrValues ");
    reveal_strlit("; builtins.attrValues");
    reveal_strlit(" ");
    assert("; builtins.attrValues "@ =~= "; builtins.attrValues"@ + " "@);
    let last = " "@ + attr + ".passthru.tests"@;
    lemma_expression_parts("with "@, import, "; builtins.attrValues"@ + last);
    assert("with "@ + import + ("; builtins.attrValues"@ + last) =~= tests_expr(
        path,
        system,
        attr,
    ));
    lemma_expression_parts("with "@ + import, "; builtins.attrValues"@, last);
    assert("with "@ + import + "; builtins.attrValues"@ + last =~= tests_expr(path, system, attr));
}

proof fn lemma_expression_parts(a: Seq<char>, b: Seq<char>, c: Seq<char>)
    ensures
        contains(a + b + c, b),
        ends_with(a + b + c, c),
{
    lemma_contains_middle(a, b, c);
    let all = a + b + c;
    assert(all.subrange(all.len() - c.len(), all.len() as int) =~= c);
}

#[verifier::rlimit(40)]
proof fn lemma_import_parts(path: Seq<char>, system: Seq<char>)
    ensures
        contains(import_expr(path, system), "import "@ + path + " "@),
        contains(import_expr(path, system), "system = \""@ + system + "\";"@),
{
    reveal_strlit(" { system = \"");
    reveal_strlit(" ");
    reveal_strlit("{ ");
    reveal_strlit("system = \"");
    reveal_strlit("\"; config = { allowUnfree = true; }; }");
    reveal_strlit("\";");
    reveal_strlit(" config = { allowUnfree = true; }; }");
    assert(" { system = \""@ =~= " "@ + "{ "@ + "system = \""@);
    assert("\"; config = { allowUnfree = true; }; }"@ =~= "\";"@
        + " config = { allowUnfree = true; }; }"@);
    let a = "import "@ + path + " "@;
    let b = "system = \""@ + system + "\";"@;
    let end = " config = { allowUnfree = true; }; }"@;
    let nothing = Seq::<char>::empty();
    assert(import_expr(path, system) =~= nothing + a + ("{ "@ + b + end));
    lemma_contains_middle(nothing, a, "{ "@ + b + end);
    assert(import_expr(path, system) =~= (a + "{ "@) + b + end);
    lemma_contains_middle(a + "{ "@, b, end);
}

/// A package set without a name is all of nixpkgs; one with a name is that set of it.
#[verifier::rlimit(40)]
pub proof fn law_package_set(path: Seq<char>, pkgset: Seq<char>, system: Seq<char>)
    ensures
        pkgset_expr(path, Seq::empty(), system) == import_expr(path, system),
        pkgset.len() > 0 ==> contains(pkgset_expr(path, pkgset, system), import_expr(path, system)),
        pkgset.len() > 0 ==> contains(
            pkgset_expr(path, pkgset, system),
            "; in pkgs."@ + pkgset + " //"@,
        ),
{
    if pkgset.len() > 0 {
        reveal_strlit(" // { recurseForDerivations = true; }");
        reveal_strlit(" //");
        reveal_strlit(" { recurseForDerivations = true; }");
        assert(" // { recurseForDerivations = true; }"@ =~= " //"@
            + " { recurseForDerivations = true; }"@);
        let import = import_expr(path, system);
        let mid = "; in pkgs."@ + pkgset + " //"@;
        let end = " { recurseForDerivations = true; }"@;
        assert(pkgset_expr(path, pkgset, system) =~= "let pkgs = "@ + import + (mid + end));
        lemma_contains_middle("let pkgs = "@, import, mid + end);
        assert(pkgset_expr(path, pkgset, system) =~= ("let pkgs = "@ + import) + mid + end);
        lemma_contains_middle("let pkgs = "@ + import, mid, end);
    }
}

/// An attribute without a name is the package itself; another stands behind a dot.
pub proof fn law_full_attr(pkg: Seq<char>, sub: Seq<char>)
    ensures
        full_attr(pkg, Seq::empty()) == pkg,
        sub.len() > 0 ==> full_attr(pkg, sub) == pkg + "."@ + sub,
{
}

/// An attribute is built without a link, from the expression; and without the cache
/// exactly where that is not to be used.
pub proof fn law_build_args(expr: Seq<char>, use_cache: bool)
    requires
        expr != "--substituters"@,
    ensures
        ({
            let args = nix_build_args(expr, use_cache);
            &&& args.len() >= 3
            &&& args[0] == "--no-out-link"@
            &&& args[args.len() - 2] == "--expr"@ && args[args.len() - 1] == expr
            &&& args.contains("--substituters"@) <==> !use_cache
            &&& !use_cache ==> args[1] == "--substituters"@ && args[2] == ""@
        }),
{
    reveal_strlit("--no-out-link");
    reveal_strlit("--expr");
    reveal_strlit("--substituters");
    let args = nix_build_args(expr, use_cache);
    assert("--substituters"@.len() != "--no-out-link"@.len());
    assert("--substituters"@.len() != "--expr"@.len());
    if !use_cache {
        assert(args[1] == "--substituters"@);
    }
}

/// A package is built with its log shown and without a link, from the expression; and
/// again exactly where that is asked for.
#[verifier::rlimit(40)]
pub proof fn law_package_build_args(expr: Seq<char>, rebuild: bool)
    requires
        expr != "--rebuild"@,
    ensures
        ({
            let args = package_build_args(expr, rebuild);
            &&& args.len() >= 8
            &&& args[2] == "build"@ && args[3] == "--print-build-logs"@ && args[4] == "--no-link"@
            &&& args[args.len() - 3] == "--impure"@
            &&& args[args.len() - 2] == "--expr"@ && args[args.len() - 1] == expr
            &&& args.contains("--rebuild"@) <==> rebuild
        }),
{
    reveal_strlit("--extra-experimental-features");
    reveal_strlit("nix-command");
    reveal_strlit("build");
    reveal_strlit("--print-build-logs");
    reveal_strlit("--no-link");
    reveal_strlit("--impure");
    reveal_strlit("--expr");
    reveal_strlit("--rebuild");
    let args = package_build_args(expr, rebuild);
    let again = "--rebuild"@;
    assert(again.len() == 9 && again[2] == 'r');
    assert("--no-link"@[2] == 'n');
    if rebuild {
        assert(args[5] == again);
    }
    assert forall|k: int| 0 <= k < args.len() && !(rebuild && k == 5) implies args[k] != again by {
        if k < 5 {
            assert(args[k].len() != again.len() || args[k][2] != again[2]);
        } else {
            assert(args[k].len() != again.len() || args[k] == expr);
        }
    }
}

/// The paths that are deleted are those that are asked for, all of them and in their
/// order, whether or not something still uses them.
pub proof fn law_delete_args(paths: Seq<Seq<char>>)
    ensures
        delete_args(paths).len() == paths.len() + 3,
        delete_args(paths).skip(3) == paths,
        delete_args(paths)[0] == "nix-store"@,
        delete_args(paths)[1] == "--delete"@,
        delete_args(paths)[2] == "--ignore-liveness"@,
{
    assert(delete_args(paths).skip(3) =~= paths);
}

/// The lines of an output that are read are all that are not blank, in their order.
pub proof fn law_filled_lines(output: Seq<char>, line: Seq<char>)
    ensures
        filled_lines(output).contains(line) <==> lines(output).contains(line) && !is_blank(line),
        filled_lines(output) == lines(output).filter(|l: Seq<char>| !is_blank(l)),
{
    let keep = |l: Seq<char>| !is_blank(l);
    let all = lines(output);
    let list = filled_lines(output);
    if all.contains(line) && keep(line) {
        let k = choose|k: int| 0 <= k < all.len() && all[k] == line;
        all.lemma_filter_contains(keep, k);
    }
    if list.contains(line) {
        all.lemma_filter_contains_rev(keep, line);
        let k = choose|k: int| 0 <= k < list.len() && list[k] == line;
        all.lemma_filter_pred(keep, k);
    }
}

/// A store path counts as built here only where the answer says so in so many words.
pub proof fn law_only_told_is_local(found: Option<Option<Option<bool>>>)
    ensures
        counts_as_local(path_info_of(found)) <==> found == Some(Some(Some(true))),
        path_info_of(found) == PathInfo::Unreadable <==> found is None,
        path_info_of(found) == PathInfo::NoPath <==> found == Some(None::<Option<bool>>),
        path_info_of(found) == PathInfo::Untold <==> found == Some(Some(None::<bool>)),
{
}

/// What leads to each step of a build. It is built after its path was looked for, with
/// the cache alone; what was built with the cache is looked for again; it is compared
/// where it was there before or is not from here; and a log is read only of a comparison
/// that failed.
pub proof fn law_way_of_a_build(run: BuildRun, yes: bool)
    ensures
        ({
            let next = build_next(run, yes);
            &&& next.use_cache == run.use_cache
            &&& next.existed_before <==> if run.step == BuildStep::SeekPath {
                yes
            } else {
                run.existed_before
            }
            &&& next.step == BuildStep::Build <==> run.step == BuildStep::SeekPath
            &&& next.step == BuildStep::SeekPathAgain <==> run.step == BuildStep::Build && yes
                && run.use_cache
            &&& next.step == BuildStep::AskOrigin <==> run.step == BuildStep::SeekPathAgain && yes
                && !run.existed_before
            &&& next.step == BuildStep::Check <==> (run.step == BuildStep::SeekPathAgain && yes
                && run.existed_before) || (run.step == BuildStep::AskOrigin && (!yes
                || run.existed_before))
            &&& next.step == BuildStep::ReadCheck <==> run.step == BuildStep::Check && !yes
            &&& !(run.step is Done) ==> (next.step == (BuildStep::Done {
                success: true,
                non_deterministic: false,
            }) <==> (run.step == BuildStep::Build && yes && !run.use_cache) || (run.step
                == BuildStep::SeekPathAgain && !yes) || (run.step == BuildStep::AskOrigin && yes
                && !run.existed_before) || (run.step == BuildStep::Check && yes))
            &&& !(run.step is Done) ==> (next.step == (BuildStep::Done {
                success: false,
                non_deterministic: true,
            }) <==> run.step == BuildStep::ReadCheck && yes)
            &&& !(run.step is Done) ==> (next.step == (BuildStep::Done {
                success: false,
                non_deterministic: false,
            }) <==> !yes && (run.step == BuildStep::ReadCheck || run.step == BuildStep::Build))
            &&& run.step is Done ==> next == run
            &&& build_first(true).step == BuildStep::SeekPath
            &&& build_first(false).step == BuildStep::Build
            &&& build_first(run.use_cache).use_cache == run.use_cache
            &&& !build_first(run.use_cache).existed_before
        }),
{
}

/// The command as it is shown holds the expression that is built, and tells whether the
/// cache is used.
pub proof fn law_attr_command_tells(path: Seq<char>, system: Seq<char>, attr: Seq<char>)
    ensures
        attr_command(path, system, attr, true) == "nix-build --no-out-link --expr '"@ + attr_expr(
            path,
            system,
            attr,
        ) + "' (+ --check if cached)"@,
        contains(
            attr_command(path, system, attr, false),
            "--substituters '' --expr '"@ + attr_expr(path, system, attr) + "'"@,
        ),
{
    let expr = attr_expr(path, system, attr);
    lemma_command_part(expr);
}

proof fn lemma_command_part(expr: Seq<char>)
    ensures
        contains(
            "nix-build --no-out-link --substituters '' --expr '"@ + expr + "'"@,
            "--substituters '' --expr '"@ + expr + "'"@,
        ),
{
    reveal_strlit("nix-build --no-out-link --substituters '' --expr '");
    reveal_strlit("nix-build --no-out-link ");
    reveal_strlit("--substituters '' --expr '");
    assert("nix-build --no-out-link --substituters '' --expr '"@ =~= "nix-build --no-out-link "@
        + "--substituters '' --expr '"@);
    let mid = "--substituters '' --expr '"@ + expr + "'"@;
    assert("nix-build --no-out-link --substituters '' --expr '"@ + expr + "'"@
        =~= "nix-build --no-out-link "@ + mid + Seq::<char>::empty());
    lemma_contains_middle("nix-build --no-out-link "@, mid, Seq::empty());
}

} // verus!
