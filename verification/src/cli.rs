//! What srcbot can be asked to do.

use vstd::prelude::*;

use crate::types::RemoteBuilderConfig;

verus! {

/// The system that is built for where none is named.
pub const DEFAULT_SYSTEM: &'static str = "x86_64-linux";

/// How many packages are built at a time where no number is given.
pub const DEFAULT_BUILD_JOBS: usize = 4;

/// How many seconds a Nix command is given where no number is given.
pub const DEFAULT_NIX_TIMEOUT: u64 = 3600;

/// The intermediate attribute whose hash is fixed where none is named.
pub const DEFAULT_INTERMEDIATE: &'static str = "src";

/// The commit that a hash is fixed on where none is named.
pub const DEFAULT_NIXPKGS_REF: &'static str = "origin/master";

/// What is asked.
#[derive(Debug)]
pub struct Args {
    /// Where evaluations, logs and states are kept.
    pub save_location: Option<String>,
    pub command: Commands,
}

/// What to do.
#[derive(Debug)]
pub enum Commands {
    /// Verify the sources of pull requests by building anew.
    Verify(VerifyArgs),
    /// Fix a hash of an attribute.
    FixHash(FixHashArgs),
    /// Build the intermediate attributes of a package set.
    CheckAll(CheckAllArgs),
}

/// How pull requests are verified.
#[derive(Debug)]
pub struct VerifyArgs {
    pub prs: Vec<u64>,
    /// The attribute to verify, where it is not to be read from the title.
    pub attr: Option<String>,
    pub token: Option<String>,
    /// The local checkout of nixpkgs.
    pub nixpkgs: String,
    /// Post nothing.
    pub dry_run: bool,
    pub system: String,
    /// Find all packages that changed.
    pub full_eval: bool,
    pub eval_workers: usize,
    /// Post the logs as a gist.
    pub gist: bool,
    pub build_jobs: usize,
    /// Take up the run that was saved.
    pub resume: bool,
    /// Build everything anew, without the cache.
    pub full_rebuild: bool,
    /// Look whether what fails also fails on the base branch.
    pub false_positive: bool,
    /// The commit to compare with.
    pub base_commit: Option<String>,
    /// Build packages of which only the derivation changed too.
    pub verify_full_drvs: bool,
    pub aggressively_check_fods: bool,
    pub skip_tests: bool,
    pub nix_timeout: u64,
    /// Where the logs are found.
    pub log_base_url: Option<String>,
    pub remote_builder: Option<String>,
    pub remote_system: Option<String>,
    pub remote_build_jobs: usize,
    pub remote_gc_threshold: Option<String>,
    pub remote_gc_keep_days: Option<u64>,
}

/// How a hash is fixed.
#[derive(Debug)]
pub struct FixHashArgs {
    /// The local checkout of nixpkgs.
    pub nixpkgs: String,
    pub attribute: String,
    /// The intermediate attribute whose hash is wrong.
    pub intermediate: String,
    pub system: String,
    /// Do not compare the sources.
    pub dont_diff: bool,
    /// Where the comparison is written.
    pub log_location: Option<String>,
    /// The commit of nixpkgs to work on.
    pub nixpkgs_ref: String,
    /// The remote that the branch is pushed to.
    pub origin: Option<String>,
    pub branch: Option<String>,
    /// Where the logs are found.
    pub log_base_url: String,
    /// Do not show the text of the pull request.
    pub no_pr_text: bool,
    pub nix_timeout: u64,
    pub remote_builder: Option<String>,
    pub remote_system: Option<String>,
    pub remote_build_jobs: usize,
}

/// How a package set is checked.
#[derive(Debug)]
pub struct CheckAllArgs {
    /// The package set; all packages where it has no name.
    pub pkgset: String,
    /// The local checkout of nixpkgs.
    pub nixpkgs: String,
    pub system: String,
    pub eval_workers: usize,
    pub build_jobs: usize,
    /// Where the failures are written.
    pub failures_file: Option<String>,
    /// How many packages are looked at.
    pub limit: Option<usize>,
    pub nix_timeout: u64,
    pub remote_builder: Option<String>,
    pub remote_system: Option<String>,
    pub remote_build_jobs: usize,
    pub remote_gc_threshold: Option<String>,
    pub remote_gc_keep_days: Option<u64>,
}

/// Only one of the builder and the system was given.
#[derive(Clone, Copy, PartialEq, Eq, Structural, Debug)]
pub struct HalfRemote;

/// Puts a remote builder together. Its address and its system have to be given
/// together or not at all.
pub fn remote_config(
    builder: Option<String>,
    system: Option<String>,
    max_jobs: usize,
    gc_threshold: Option<String>,
    gc_keep_days: Option<u64>,
) -> (config: Result<Option<RemoteBuilderConfig>, HalfRemote>)
    ensures
        match (builder, system) {
            (Some(b), Some(s)) => config == Ok::<Option<RemoteBuilderConfig>, HalfRemote>(
                Some(
                    RemoteBuilderConfig {
                        ssh_target: b,
                        system: s,
                        max_jobs,
                        gc_threshold,
                        gc_keep_days,
                    },
                ),
            ),
            (None, None) => config == Ok::<Option<RemoteBuilderConfig>, HalfRemote>(None),
            _ => config is Err,
        },
{
    match (builder, system) {
        (Some(b), Some(s)) => Ok(
            Some(
                RemoteBuilderConfig {
                    ssh_target: b,
                    system: s,
                    max_jobs,
                    gc_threshold,
                    gc_keep_days,
                },
            ),
        ),
        (None, None) => Ok(None),
        _ => Err(HalfRemote),
    }
}

/// Tells whether all pull requests so far passed, after another one: one that could
/// not be verified did not.
pub fn still_passing(so_far: bool, outcome: Result<bool, String>) -> (yes: bool)
    ensures
        yes == (so_far && outcome == Ok::<bool, String>(true)),
{
    match outcome {
        Ok(passed) => so_far && passed,
        Err(_) => false,
    }
}

} // verus!
