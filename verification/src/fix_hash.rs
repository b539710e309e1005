//! Fixing the hash of an attribute.

use vstd::prelude::*;

use crate::check_all::{first_lines, head_lines};
use crate::github::{last_n_lines, tail_lines};
use crate::nix::{attr_expr, make_attr_expr, store_path_of};
use crate::numbers::{i64_value, parse_i64};
use crate::outside::{find_two_groups, group_texts, two_groups};
use crate::search::{
    contains, ends_with, lemma_contains_middle, lines, lines_of, replace_all, starts_with,
    str_contains, str_replace, str_starts_with,
};
use crate::text::{join, no_texts, opt_str, opt_text, push_text, texts};
use crate::trim::{
    attr_safe, attr_safe_name, first_chars, swap_char, take_chars, trim, trimmed, unquoted,
    with_char,
};

verus! {

// ---------------------------------------------------------------------------
// The mismatch

/// The two hashes of a mismatch.
#[derive(Debug, Clone)]
pub struct HashMismatch {
    /// The hash that the expression names.
    pub specified: String,
    /// The hash that was computed.
    pub got: String,
}

/// A mismatch as Nix writes it.
pub const PATTERN: &'static str = "specified:\\s+(sha256-[a-zA-Z0-9+/=]+)\\s+got:\\s+(sha256-[a-zA-Z0-9+/=]+)";

/// A mismatch with anything between its two hashes.
pub const LOOSE_PATTERN: &'static str = "(?s)specified:\\s*(sha256-[a-zA-Z0-9+/=]+).*?got:\\s*(sha256-[a-zA-Z0-9+/=]+)";

/// A mismatch of hashes of any length.
pub const ANY_HASH_PATTERN: &'static str = "specified:\\s+(sha\\d+-[a-zA-Z0-9+/=]+)\\s+got:\\s+(sha\\d+-[a-zA-Z0-9+/=]+)";

/// What one search says: nothing, so that the next one counts; or what it found, if
/// it found both hashes.
pub open spec fn search_says(
    found: Option<Option<(Option<Seq<char>>, Option<Seq<char>>)>>,
) -> Option<Option<(Seq<char>, Seq<char>)>> {
    match found {
        Some(None) => None,
        Some(Some((Some(one), Some(two)))) => Some(Some((one, two))),
        _ => Some(None),
    }
}

/// The mismatch that three searches found: the first that matched counts.
pub open spec fn mismatch_found(
    first: Option<Option<(Option<Seq<char>>, Option<Seq<char>>)>>,
    second: Option<Option<(Option<Seq<char>>, Option<Seq<char>>)>>,
    third: Option<Option<(Option<Seq<char>>, Option<Seq<char>>)>>,
) -> Option<(Seq<char>, Seq<char>)> {
    match search_says(first) {
        Some(pair) => pair,
        None => match search_says(second) {
            Some(pair) => pair,
            None => match search_says(third) {
                Some(pair) => pair,
                None => None,
            },
        },
    }
}

/// The hashes of a mismatch.
pub open spec fn mismatch_texts(m: Option<HashMismatch>) -> Option<(Seq<char>, Seq<char>)> {
    match m {
        Some(h) => Some((h.specified@, h.got@)),
        None => None,
    }
}

fn read_search(found: Option<Option<(Option<String>, Option<String>)>>) -> (said: Option<
    Option<HashMismatch>,
>)
    ensures
        match said {
            Some(m) => search_says(group_texts(found)) == Some(mismatch_texts(m)),
            None => search_says(group_texts(found)) is None,
        },
{
    match found {
        Some(None) => None,
        Some(Some((Some(one), Some(two)))) => Some(
            Some(HashMismatch { specified: one, got: two }),
        ),
        _ => Some(None),
    }
}

/// Tells the mismatch from what three searches found.
pub fn mismatch_from(
    first: Option<Option<(Option<String>, Option<String>)>>,
    second: Option<Option<(Option<String>, Option<String>)>>,
    third: Option<Option<(Option<String>, Option<String>)>>,
) -> (mismatch: Option<HashMismatch>)
    ensures
        mismatch_texts(mismatch) == mismatch_found(
            group_texts(first),
            group_texts(second),
            group_texts(third),
        ),
{
    match read_search(first) {
        Some(m) => m,
        None => match read_search(second) {
            Some(m) => m,
            None => match read_search(third) {
                Some(m) => m,
                None => None,
            },
        },
    }
}

/// Reads the mismatch from the output of a build.
pub fn parse_hash_mismatch(output: &str) -> (mismatch: Option<HashMismatch>)
    ensures
        mismatch_texts(mismatch) == mismatch_found(
            two_groups(PATTERN@, output@),
            two_groups(LOOSE_PATTERN@, output@),
            two_groups(ANY_HASH_PATTERN@, output@),
        ),
        mismatch matches Some(m) ==> contains(output@, m.specified@) && contains(
            output@,
            m.got@,
        ),
{
    mismatch_from(
        find_two_groups(PATTERN, output),
        find_two_groups(LOOSE_PATTERN, output),
        find_two_groups(ANY_HASH_PATTERN, output),
    )
}

/// How three searches make one answer. The first that matched counts, and only it: where
/// it found both hashes these are the mismatch, the first the one that was specified;
/// where it did not, there is none, whatever the later ones found. One that did not match
/// counts for nothing, as if it came last.
pub proof fn law_first_match_counts(
    one: Seq<char>,
    two: Seq<char>,
    first: Option<Option<(Option<Seq<char>>, Option<Seq<char>>)>>,
    second: Option<Option<(Option<Seq<char>>, Option<Seq<char>>)>>,
    third: Option<Option<(Option<Seq<char>>, Option<Seq<char>>)>>,
)
    ensures
        mismatch_found(Some(Some((Some(one), Some(two)))), second, third) == Some((one, two)),
        mismatch_found(Some(None), second, third) == mismatch_found(second, third, Some(None)),
        mismatch_found(Some(None), Some(None), Some(None)) is None,
        first is None ==> mismatch_found(first, second, third) is None,
        mismatch_found(Some(Some((None, Some(two)))), second, third) is None,
        mismatch_found(Some(Some((Some(one), None))), second, third) is None,
        mismatch_found(Some(Some((None, None))), second, third) is None,
{
}

/// A mismatch says its two hashes, the one that was specified first.
pub proof fn law_mismatch_says_both(m: HashMismatch)
    ensures
        mismatch_texts(None) is None,
        mismatch_texts(Some(m)) == Some((m.specified@, m.got@)),
{
}

// ---------------------------------------------------------------------------
// Updating

/// Puts the new hash in the place of the old one, where the old one is there.
pub fn update_hash(content: &str, old_hash: &str, new_hash: &str) -> (updated: Option<String>)
    ensures
        opt_text(updated) == (if contains(content@, old_hash@) {
            Some(replace_all(content@, old_hash@, new_hash@))
        } else {
            None
        }),
{
    if str_contains(content, old_hash) {
        Some(str_replace(content, old_hash, new_hash))
    } else {
        None
    }
}

/// The expression that asks for the store path of an attribute.
pub fn attr_path_expr(path: &str, system: &str, attr: &str) -> (expr: String)
    ensures
        expr@ == attr_expr(path@, system@, attr@) + ".outPath"@,
{
    make_attr_expr(path, system, attr).concat(".outPath")
}

/// The expression that asks for the file that defines a package.
pub fn position_expr(path: &str, system: &str, attr: &str) -> (expr: String)
    ensures
        expr@ == "let pkgs = import "@ + path@ + " { system = \""@ + system@
            + "\"; }; in (builtins.unsafeGetAttrPos \"version\" pkgs."@ + attr@
            + ").file or (builtins.unsafeGetAttrPos \"pname\" pkgs."@ + attr@
            + ").file or (builtins.unsafeGetAttrPos \"name\" pkgs."@ + attr@ + ").file"@,
{
    "let pkgs = import ".to_string()
        .concat(path)
        .concat(" { system = \"")
        .concat(system)
        .concat("\"; }; in (builtins.unsafeGetAttrPos \"version\" pkgs.")
        .concat(attr)
        .concat(").file or (builtins.unsafeGetAttrPos \"pname\" pkgs.")
        .concat(attr)
        .concat(").file or (builtins.unsafeGetAttrPos \"name\" pkgs.")
        .concat(attr)
        .concat(").file")
}

/// Tells whether a path lies in the store.
pub fn in_store(path: &str) -> (yes: bool)
    ensures
        yes == starts_with(path@, "/nix/store/"@),
{
    str_starts_with(path, "/nix/store/")
}

/// The store path in an answer, where there is one.
pub open spec fn store_path_in(answer: Option<Seq<char>>) -> Option<Seq<char>> {
    match answer {
        Some(text) => if starts_with(unquoted(trimmed(text)), "/nix/store/"@) {
            Some(unquoted(trimmed(text)))
        } else {
            None
        },
        None => None,
    }
}

/// Reads the store path from an answer, where there is one.
pub fn answered_store_path(answer: Option<&str>) -> (path: Option<String>)
    ensures
        opt_text(path) == store_path_in(opt_str(answer)),
{
    match answer {
        Some(text) => {
            let path = store_path_of(text);
            if in_store(path.as_str()) {
                Some(path)
            } else {
                None
            }
        },
        None => None,
    }
}

/// An answer tells a store path exactly where what is in it, without white space and then
/// quotes around it, lies in the store; and that is the path.
pub proof fn law_store_path_in(text: Seq<char>)
    ensures
        store_path_in(None) is None,
        starts_with(unquoted(trimmed(text)), "/nix/store/"@) ==> store_path_in(Some(text)) == Some(
            unquoted(trimmed(text)),
        ),
        !starts_with(unquoted(trimmed(text)), "/nix/store/"@) ==> store_path_in(Some(text)) is None,
{
}

/// How the old source is had.
#[derive(Clone, Copy, PartialEq, Eq, Structural, Debug)]
pub enum OldSource {
    /// Its store path is not known.
    Unknown,
    /// It is there.
    Local,
    /// It has to be fetched from the cache.
    Fetch,
}

/// Decides how the old source is had.
pub fn plan_old_source(path_known: bool, on_disk: bool) -> (plan: OldSource)
    ensures
        plan == (if !path_known {
            OldSource::Unknown
        } else if on_disk {
            OldSource::Local
        } else {
            OldSource::Fetch
        }),
{
    if !path_known {
        OldSource::Unknown
    } else if on_disk {
        OldSource::Local
    } else {
        OldSource::Fetch
    }
}

// ---------------------------------------------------------------------------
// Building

/// Before or after the hash was updated.
#[derive(Clone, Copy, PartialEq, Eq, Structural, Debug)]
pub enum FixPhase {
    Before,
    After,
}

impl FixPhase {
    /// How the phase is named in the names of files.
    pub open spec fn name(self) -> Seq<char> {
        match self {
            FixPhase::Before => "before"@,
            FixPhase::After => "after"@,
        }
    }

    /// Names the phase.
    pub fn suffix(self) -> (name: String)
        ensures
            name@ == self.name(),
    {
        match self {
            FixPhase::Before => "before".to_string(),
            FixPhase::After => "after".to_string(),
        }
    }
}

/// The name of the log of a phase.
pub fn phase_log_name(intermediate: &str, phase: FixPhase) -> (name: String)
    ensures
        name@ == intermediate@ + "."@ + phase.name() + ".log"@,
{
    intermediate.to_string().concat(".").concat(phase.suffix().as_str()).concat(".log")
}

/// The name of the directory with the sources of a phase.
pub fn phase_source_name(intermediate: &str, phase: FixPhase) -> (name: String)
    ensures
        name@ == intermediate@ + ".src."@ + phase.name(),
{
    intermediate.to_string().concat(".src.").concat(phase.suffix().as_str())
}

/// The logs of the two phases are the files that the text of the pull request links.
pub proof fn law_phase_names()
    ensures
        "."@ + FixPhase::Before.name() + ".log"@ == ".before.log"@,
        "."@ + FixPhase::After.name() + ".log"@ == ".after.log"@,
        ".src."@ + FixPhase::Before.name() + "/"@ == ".src.before/"@,
        ".src."@ + FixPhase::After.name() + "/"@ == ".src.after/"@,
{
    reveal_strlit(".");
    reveal_strlit("before");
    reveal_strlit("after");
    reveal_strlit(".log");
    reveal_strlit("/");
    reveal_strlit(".src.");
    reveal_strlit(".before.log");
    reveal_strlit(".after.log");
    reveal_strlit(".src.before/");
    reveal_strlit(".src.after/");
    assert("."@ + FixPhase::Before.name() + ".log"@ =~= ".before.log"@);
    assert("."@ + FixPhase::After.name() + ".log"@ =~= ".after.log"@);
    assert(".src."@ + FixPhase::Before.name() + "/"@ =~= ".src.before/"@);
    assert(".src."@ + FixPhase::After.name() + "/"@ =~= ".src.after/"@);
}

/// How an attribute is built.
#[derive(Clone, Copy, PartialEq, Eq, Structural, Debug)]
pub enum FixBuild {
    /// It is there: build it again and compare.
    Check,
    /// With the cache.
    Cached,
    /// Without the cache, so that a wrong hash shows.
    Fresh,
}

/// How an attribute is built: what is there is compared; before the update nothing
/// is taken from the cache.
pub open spec fn fix_build(existed: bool, phase: FixPhase) -> FixBuild {
    if existed {
        FixBuild::Check
    } else if phase == FixPhase::After {
        FixBuild::Cached
    } else {
        FixBuild::Fresh
    }
}

/// Decides how an attribute is built.
pub fn choose_fix_build(existed: bool, phase: FixPhase) -> (build: FixBuild)
    ensures
        build == fix_build(existed, phase),
{
    if existed {
        FixBuild::Check
    } else {
        match phase {
            FixPhase::After => FixBuild::Cached,
            FixPhase::Before => FixBuild::Fresh,
        }
    }
}

/// The arguments of nix-build.
pub open spec fn fix_build_args(build: FixBuild, expr: Seq<char>) -> Seq<Seq<char>> {
    match build {
        FixBuild::Check => seq!["--no-out-link"@, "--check"@, "--expr"@, expr],
        FixBuild::Cached => seq!["--no-out-link"@, "--expr"@, expr],
        FixBuild::Fresh => seq!["--no-out-link"@, "--substituters"@, ""@, "--expr"@, expr],
    }
}

/// Makes the arguments of nix-build.
pub fn make_fix_build_args(build: FixBuild, expr: &str) -> (args: Vec<String>)
    ensures
        texts(args@) == fix_build_args(build, expr@),
{
    let mut args = no_texts();
    push_text(&mut args, "--no-out-link");
    match build {
        FixBuild::Check => {
            push_text(&mut args, "--check");
        },
        FixBuild::Cached => {},
        FixBuild::Fresh => {
            push_text(&mut args, "--substituters");
            push_text(&mut args, "");
        },
    }
    push_text(&mut args, "--expr");
    push_text(&mut args, expr);
    args
}

/// Whether a build has to be done again and compared: it went well with the cache,
/// its path is known, and it was not built here.
pub open spec fn wants_fix_check(
    build: FixBuild,
    success: bool,
    path_known: bool,
    local: bool,
) -> bool {
    build == FixBuild::Cached && success && path_known && !local
}

/// Tells whether a build has to be done again and compared.
pub fn fix_needs_check(build: FixBuild, success: bool, path_known: bool, local: bool) -> (yes: bool)
    ensures
        yes == wants_fix_check(build, success, path_known, local),
{
    match build {
        FixBuild::Cached => success && path_known && !local,
        _ => false,
    }
}

/// After the update nothing passes unseen: what was there is compared, and what came
/// from the cache is built again.
pub proof fn law_after_build_is_verified(existed: bool, local: bool)
    ensures
        existed ==> fix_build(existed, FixPhase::After) == FixBuild::Check,
        !existed && !local ==> wants_fix_check(
            fix_build(existed, FixPhase::After),
            true,
            true,
            local,
        ),
{
}

/// Before the update nothing is taken from the cache, so that a wrong hash shows.
pub proof fn law_before_build_is_fresh(existed: bool)
    ensures
        fix_build(existed, FixPhase::Before) != FixBuild::Cached,
{
}

/// How each build is asked for: never with a link, always with the expression at the end;
/// with a comparison exactly where it is a check, and without the cache exactly where it
/// is to be fresh.
pub proof fn law_fix_build_args(build: FixBuild, expr: Seq<char>)
    requires
        expr != "--check"@,
        expr != "--substituters"@,
    ensures
        ({
            let args = fix_build_args(build, expr);
            &&& args.len() >= 3
            &&& args[0] == "--no-out-link"@
            &&& args[args.len() - 2] == "--expr"@
            &&& args[args.len() - 1] == expr
            &&& args.contains("--check"@) <==> build == FixBuild::Check
            &&& args.contains("--substituters"@) <==> build == FixBuild::Fresh
            &&& build == FixBuild::Fresh ==> args[1] == "--substituters"@ && args[2] == ""@
        }),
{
    reveal_strlit("--no-out-link");
    reveal_strlit("--check");
    reveal_strlit("--expr");
    reveal_strlit("--substituters");
    reveal_strlit("");
    let args = fix_build_args(build, expr);
    assert("--check"@.len() != "--no-out-link"@.len());
    assert("--check"@.len() != "--expr"@.len());
    assert("--check"@.len() != "--substituters"@.len());
    assert("--substituters"@.len() != "--no-out-link"@.len());
    assert("--substituters"@.len() != "--expr"@.len());
    if build == FixBuild::Check {
        assert(args[1] == "--check"@);
    }
    if build == FixBuild::Fresh {
        assert(args[1] == "--substituters"@);
    }
}

/// What was there before is compared, in either phase; what was not is built without the
/// cache before the update and with it after. A build is done again exactly where it went
/// well with the cache, its path is known and it was not built here.
pub proof fn law_fix_builds(build: FixBuild, success: bool, path_known: bool, local: bool)
    ensures
        fix_build(true, FixPhase::Before) == FixBuild::Check,
        fix_build(true, FixPhase::After) == FixBuild::Check,
        fix_build(false, FixPhase::Before) == FixBuild::Fresh,
        fix_build(false, FixPhase::After) == FixBuild::Cached,
        build != FixBuild::Cached ==> !wants_fix_check(build, success, path_known, local),
        local || !success || !path_known ==> !wants_fix_check(build, success, path_known, local),
        wants_fix_check(FixBuild::Cached, true, true, false),
{
}

/// The store path after another line of the output: the last line that is one.
pub fn note_store_path(before: Option<String>, line: &str) -> (after: Option<String>)
    ensures
        opt_text(after) == (if starts_with(line@, "/nix/store/"@) {
            Some(line@)
        } else {
            opt_text(before)
        }),
{
    if in_store(line) {
        Some(line.to_string())
    } else {
        before
    }
}

// ---------------------------------------------------------------------------
// The pull request

/// What came of fixing a hash.
#[derive(Debug, Clone)]
pub struct FixHashResult {
    pub attribute: String,
    pub intermediate: String,
    pub before_commit: String,
    pub after_commit: String,
    pub has_diff: bool,
    pub diff_failed_reason: Option<String>,
    pub has_old_source: bool,
    pub has_new_source: bool,
    pub before_log: Option<String>,
    pub after_log: Option<String>,
    pub diff_content: Option<String>,
}

/// What stands at the end of the text.
pub const PR_FOOTER: &'static str = "\n\nPartially addresses #471498\n\nPartially supercedes #471221\n\n<!-- Please check what applies. Note that these are not hard requirements but merely serve as information. -->\n\n## Things done\n\n- Built on platform:\n  - [x] x86_64-linux\n  - [ ] aarch64-linux\n  - [ ] x86_64-darwin\n  - [ ] aarch64-darwin\n- Tested, as applicable:\n  - [ ] [NixOS tests] in [nixos/tests].\n  - [ ] [Package tests] at `passthru.tests`.\n  - [ ] Tests in [lib/tests] or [pkgs/test] for functions and \"core\" functionality.\n- [ ] Ran `nixpkgs-review` on this PR. See [nixpkgs-review usage].\n- [ ] Tested basic functionality of all binary files, usually in `./result/bin/`.\n- Nixpkgs Release Notes\n  - [ ] Package update: when the change is major or breaking.\n- NixOS Release Notes\n  - [ ] Module addition: when adding a new NixOS module.\n  - [ ] Module update: when the change is significant.\n- [ ] Fits [CONTRIBUTING.md], [pkgs/README.md], [maintainers/README.md] and other READMEs.\n\n[NixOS tests]: https://nixos.org/manual/nixos/unstable/index.html#sec-nixos-tests\n[Package tests]: https://github.com/NixOS/nixpkgs/blob/master/pkgs/README.md#package-tests\n[nixpkgs-review usage]: https://github.com/Mic92/nixpkgs-review#usage\n\n[CONTRIBUTING.md]: https://github.com/NixOS/nixpkgs/blob/master/CONTRIBUTING.md\n[lib/tests]: https://github.com/NixOS/nixpkgs/blob/master/lib/tests\n[maintainers/README.md]: https://github.com/NixOS/nixpkgs/blob/master/maintainers/README.md\n[nixos/tests]: https://github.com/NixOS/nixpkgs/blob/master/nixos/tests\n[pkgs/README.md]: https://github.com/NixOS/nixpkgs/blob/master/pkgs/README.md\n[pkgs/test]: https://github.com/NixOS/nixpkgs/blob/master/pkgs/test\n\n---\n\nAdd a :+1: [reaction] to [pull requests you find important].\n\n[reaction]: https://github.blog/2016-03-10-add-reactions-to-pull-requests-issues-and-comments/\n[pull requests you find important]: https://github.com/NixOS/nixpkgs/pulls?q=is%3Aopen+sort%3Areactions-%2B1-desc\n";

/// How many lines of a log or a comparison the text shows.
pub const PR_LOG_LINES: usize = 100;

/// The title of the pull request, which is also the first line of the commit.
pub open spec fn fix_title(attribute: Seq<char>, intermediate: Seq<char>) -> Seq<char> {
    attribute + ": fix "@ + intermediate + " hash"@
}

/// Makes the title of the pull request.
pub fn make_fix_title(attribute: &str, intermediate: &str) -> (title: String)
    ensures
        title@ == fix_title(attribute@, intermediate@),
{
    attribute.to_string().concat(": fix ").concat(intermediate).concat(" hash")
}

/// The address of a file in the log directory of the attribute.
pub open spec fn fix_log_url(
    log_base_url: Seq<char>,
    attribute: Seq<char>,
    intermediate: Seq<char>,
    ending: Seq<char>,
) -> Seq<char> {
    log_base_url + "/logs/"@ + attr_safe(attribute) + "/"@ + intermediate + ending
}

fn make_fix_log_url(log_base_url: &str, attribute: &str, intermediate: &str, ending: &str) -> (url:
    String)
    ensures
        url@ == fix_log_url(log_base_url@, attribute@, intermediate@, ending@),
{
    log_base_url.to_string()
        .concat("/logs/")
        .concat(attr_safe_name(attribute).as_str())
        .concat("/")
        .concat(intermediate)
        .concat(ending)
}

/// A section that can be folded away.
pub open spec fn folded(title: Seq<char>, note: Seq<char>, text: Seq<char>) -> Seq<char> {
    "\n\n<details>\n<summary>"@ + title + note + "</summary>\n\n```\n"@ + text
        + "\n```\n</details>"@
}

fn fold(title: &str, note: &str, text: &str) -> (out: String)
    ensures
        out@ == folded(title@, note@, text@),
{
    "\n\n<details>\n<summary>".to_string()
        .concat(title)
        .concat(note)
        .concat("</summary>\n\n```\n")
        .concat(text)
        .concat("\n```\n</details>")
}

/// The section with the comparison: its first lines.
pub open spec fn diff_section(diff: Option<Seq<char>>) -> Seq<char> {
    match diff {
        Some(text) => folded(
            "Source diff"@,
            if lines(text).len() > PR_LOG_LINES {
                " (first 100 lines)"@
            } else {
                ""@
            },
            head_lines(text, PR_LOG_LINES as int),
        ),
        None => ""@,
    }
}

fn line_count(text: &str) -> (n: usize)
    ensures
        n == lines(text@).len(),
{
    let all = lines_of(text);
    assert(texts(all@).len() == all@.len());
    all.len()
}

fn show_diff_section(diff: &Option<String>) -> (out: String)
    ensures
        out@ == diff_section(opt_text(*diff)),
{
    match diff {
        Some(text) => {
            let note = if line_count(text.as_str()) > PR_LOG_LINES {
                " (first 100 lines)"
            } else {
                ""
            };
            let head = first_lines(text.as_str(), PR_LOG_LINES);
            fold("Source diff", note, head.as_str())
        },
        None => "".to_string(),
    }
}

/// The section with a log: its last lines.
pub open spec fn log_section(title: Seq<char>, log: Option<Seq<char>>) -> Seq<char> {
    match log {
        Some(text) => if lines(text).len() > PR_LOG_LINES {
            folded(title, " (last 100 lines)"@, tail_lines(text, PR_LOG_LINES as int))
        } else {
            folded(title, ""@, head_lines(text, PR_LOG_LINES as int))
        },
        None => ""@,
    }
}

fn show_log_section(title: &str, log: &Option<String>) -> (out: String)
    ensures
        out@ == log_section(title@, opt_text(*log)),
{
    match log {
        Some(text) => {
            if line_count(text.as_str()) > PR_LOG_LINES {
                fold(title, " (last 100 lines)", last_n_lines(text.as_str(), PR_LOG_LINES).as_str())
            } else {
                fold(title, "", first_lines(text.as_str(), PR_LOG_LINES).as_str())
            }
        },
        None => "".to_string(),
    }
}

/// What the text says of the comparison: where it is, or why there is none.
pub open spec fn diff_note(r: FixHashResult, log_base_url: Seq<char>) -> Seq<char> {
    if r.has_diff {
        "\n- [source diff]("@ + fix_log_url(
            log_base_url,
            r.attribute@,
            r.intermediate@,
            ".diff.log"@,
        ) + ")"@
    } else {
        match r.diff_failed_reason {
            Some(reason) => "\n\n*Source diff not available: "@ + reason@ + "*"@,
            None => ""@,
        }
    }
}

/// What the text says of the sources: where they are.
pub open spec fn source_note(r: FixHashResult, log_base_url: Seq<char>) -> Seq<char> {
    if r.has_old_source || r.has_new_source {
        "\n\nSource directories:"@ + (if r.has_old_source {
            "\n- [old source]("@ + fix_log_url(
                log_base_url,
                r.attribute@,
                r.intermediate@,
                ".src.before/"@,
            ) + ")"@
        } else {
            ""@
        }) + (if r.has_new_source {
            "\n- [new source]("@ + fix_log_url(
                log_base_url,
                r.attribute@,
                r.intermediate@,
                ".src.after/"@,
            ) + ")"@
        } else {
            ""@
        })
    } else {
        ""@
    }
}

/// The text of the pull request.
pub open spec fn pr_text(r: FixHashResult, log_base_url: Seq<char>) -> Seq<char> {
    "# "@ + fix_title(r.attribute@, r.intermediate@) + "\n\nFixes hash mismatch for `"@
        + r.attribute@ + "."@ + r.intermediate@ + "`.\n\nBuild logs:\n- [before ("@ + first_chars(
        r.before_commit@,
        7,
    ) + ")]("@ + fix_log_url(log_base_url, r.attribute@, r.intermediate@, ".before.log"@)
        + ")\n- [after ("@ + first_chars(r.after_commit@, 7) + ")]("@ + fix_log_url(
        log_base_url,
        r.attribute@,
        r.intermediate@,
        ".after.log"@,
    ) + ")"@ + diff_note(r, log_base_url) + source_note(r, log_base_url) + diff_section(
        opt_text(r.diff_content),
    ) + log_section("Build before"@, opt_text(r.before_log)) + log_section(
        "Build after"@,
        opt_text(r.after_log),
    ) + PR_FOOTER@
}

#[verifier::rlimit(40)]
proof fn lemma_text_parts(
    head: Seq<char>,
    a: Seq<char>,
    b: Seq<char>,
    c: Seq<char>,
    d: Seq<char>,
    e: Seq<char>,
    end: Seq<char>,
)
    ensures
        ({
            let all = head + a + b + c + d + e + end;
            &&& starts_with(all, head)
            &&& contains(all, a)
            &&& contains(all, b)
            &&& contains(all, c)
            &&& contains(all, d)
            &&& contains(all, e)
            &&& ends_with(all, end)
        }),
{
    let all = head + a + b + c + d + e + end;
    assert(all.subrange(0, head.len() as int) =~= head);
    assert(all =~= head + a + (b + c + d + e + end));
    lemma_contains_middle(head, a, b + c + d + e + end);
    assert(all =~= (head + a) + b + (c + d + e + end));
    lemma_contains_middle(head + a, b, c + d + e + end);
    assert(all =~= (head + a + b) + c + (d + e + end));
    lemma_contains_middle(head + a + b, c, d + e + end);
    assert(all =~= (head + a + b + c) + d + (e + end));
    lemma_contains_middle(head + a + b + c, d, e + end);
    lemma_contains_middle(head + a + b + c + d, e, end);
    assert(all.subrange(all.len() - end.len(), all.len() as int) =~= end);
}

/// The text of the pull request begins with the title, what is fixed, and links to the
/// logs of both builds with the commits that they are of. It holds the notes on the
/// comparison and the sources, then the comparison and both logs, ends with the template,
/// and holds nothing else.
#[verifier::rlimit(40)]
pub proof fn law_pr_text_tells(r: FixHashResult, log_base_url: Seq<char>)
    ensures
        ({
            let text = pr_text(r, log_base_url);
            let files = log_base_url + "/logs/"@ + attr_safe(r.attribute@) + "/"@ + r.intermediate@;
            &&& starts_with(
                text,
                "# "@ + (r.attribute@ + ": fix "@ + r.intermediate@ + " hash"@)
                    + "\n\nFixes hash mismatch for `"@ + r.attribute@ + "."@ + r.intermediate@
                    + "`.\n\nBuild logs:\n- [before ("@ + first_chars(r.before_commit@, 7)
                    + ")]("@ + (files + ".before.log"@) + ")\n- [after ("@ + first_chars(
                    r.after_commit@,
                    7,
                ) + ")]("@ + (files + ".after.log"@) + ")"@,
            )
            &&& contains(text, diff_note(r, log_base_url))
            &&& contains(text, source_note(r, log_base_url))
            &&& contains(text, diff_section(opt_text(r.diff_content)))
            &&& contains(text, log_section("Build before"@, opt_text(r.before_log)))
            &&& contains(text, log_section("Build after"@, opt_text(r.after_log)))
            &&& ends_with(text, PR_FOOTER@)
            &&& text == "# "@ + (r.attribute@ + ": fix "@ + r.intermediate@ + " hash"@)
                + "\n\nFixes hash mismatch for `"@ + r.attribute@ + "."@ + r.intermediate@
                + "`.\n\nBuild logs:\n- [before ("@ + first_chars(r.before_commit@, 7) + ")]("@ + (
            files + ".before.log"@) + ")\n- [after ("@ + first_chars(r.after_commit@, 7) + ")]("@
                + (files + ".after.log"@) + ")"@ + diff_note(r, log_base_url) + source_note(
                r,
                log_base_url,
            ) + diff_section(opt_text(r.diff_content)) + log_section(
                "Build before"@,
                opt_text(r.before_log),
            ) + log_section("Build after"@, opt_text(r.after_log)) + PR_FOOTER@
        }),
{
    let head = "# "@ + fix_title(r.attribute@, r.intermediate@) + "\n\nFixes hash mismatch for `"@
        + r.attribute@ + "."@ + r.intermediate@ + "`.\n\nBuild logs:\n- [before ("@ + first_chars(
        r.before_commit@,
        7,
    ) + ")]("@ + fix_log_url(log_base_url, r.attribute@, r.intermediate@, ".before.log"@)
        + ")\n- [after ("@ + first_chars(r.after_commit@, 7) + ")]("@ + fix_log_url(
        log_base_url,
        r.attribute@,
        r.intermediate@,
        ".after.log"@,
    ) + ")"@;
    lemma_text_parts(
        head,
        diff_note(r, log_base_url),
        source_note(r, log_base_url),
        diff_section(opt_text(r.diff_content)),
        log_section("Build before"@, opt_text(r.before_log)),
        log_section("Build after"@, opt_text(r.after_log)),
        PR_FOOTER@,
    );
}

/// The notes: a comparison that was made is linked, and of one that was not the reason is
/// told where it is known; each source that was kept is linked, and no other.
#[verifier::rlimit(40)]
pub proof fn law_notes_tell(r: FixHashResult, log_base_url: Seq<char>)
    ensures
        ({
            let files = log_base_url + "/logs/"@ + attr_safe(r.attribute@) + "/"@ + r.intermediate@;
            let diff = diff_note(r, log_base_url);
            let sources = source_note(r, log_base_url);
            &&& r.has_diff ==> diff == "\n- [source diff]("@ + (files + ".diff.log"@) + ")"@
            &&& !r.has_diff && r.diff_failed_reason is None ==> diff.len() == 0
            &&& !r.has_diff ==> (r.diff_failed_reason matches Some(reason) ==> contains(
                diff,
                reason@,
            ))
            &&& r.has_old_source ==> contains(
                sources,
                "\n- [old source]("@ + (files + ".src.before/"@) + ")"@,
            )
            &&& r.has_new_source ==> contains(
                sources,
                "\n- [new source]("@ + (files + ".src.after/"@) + ")"@,
            )
            &&& !r.has_old_source && !r.has_new_source ==> sources.len() == 0
        }),
{
    reveal_strlit("");
    let files = log_base_url + "/logs/"@ + attr_safe(r.attribute@) + "/"@ + r.intermediate@;
    if !r.has_diff && r.diff_failed_reason is Some {
        lemma_contains_middle(
            "\n\n*Source diff not available: "@,
            r.diff_failed_reason->0@,
            "*"@,
        );
    }
    let head = "\n\nSource directories:"@;
    let old_part = if r.has_old_source {
        "\n- [old source]("@ + (files + ".src.before/"@) + ")"@
    } else {
        ""@
    };
    let new_part = if r.has_new_source {
        "\n- [new source]("@ + (files + ".src.after/"@) + ")"@
    } else {
        ""@
    };
    lemma_contains_middle(head, old_part, new_part);
    assert(head + old_part + new_part =~= head + old_part + new_part + Seq::<char>::empty());
    lemma_contains_middle(head + old_part, new_part, Seq::empty());
}

/// A comparison is shown by its first hundred lines and a log by its last hundred, with a
/// note exactly where there are more; what is not there is not shown.
pub proof fn law_sections_tell(title: Seq<char>, text: Seq<char>)
    ensures
        diff_section(None).len() == 0,
        log_section(title, None).len() == 0,
        lines(text).len() <= 100 ==> diff_section(Some(text)) == folded(
            "Source diff"@,
            ""@,
            join(lines(text), "\n"@),
        ),
        lines(text).len() > 100 ==> diff_section(Some(text)) == folded(
            "Source diff"@,
            " (first 100 lines)"@,
            join(lines(text).take(100), "\n"@),
        ),
        lines(text).len() <= 100 ==> log_section(title, Some(text)) == folded(
            title,
            ""@,
            join(lines(text), "\n"@),
        ),
        lines(text).len() > 100 ==> log_section(title, Some(text)) == folded(
            title,
            " (last 100 lines)"@,
            join(lines(text).skip(lines(text).len() - 100), "\n"@),
        ),
{
    reveal_strlit("");
}

/// A section that can be folded away holds its title with the note, and its text.
#[verifier::rlimit(40)]
pub proof fn law_folded_tells(title: Seq<char>, note: Seq<char>, text: Seq<char>)
    ensures
        contains(folded(title, note, text), "<summary>"@ + title + note + "</summary>"@),
        contains(folded(title, note, text), "```\n"@ + text + "\n```"@),
{
    reveal_strlit("\n\n<details>\n<summary>");
    reveal_strlit("\n\n<details>\n");
    reveal_strlit("<summary>");
    reveal_strlit("</summary>\n\n```\n");
    reveal_strlit("</summary>");
    reveal_strlit("\n\n");
    reveal_strlit("```\n");
    reveal_strlit("\n```\n</details>");
    reveal_strlit("\n```");
    reveal_strlit("\n</details>");
    assert("\n\n<details>\n<summary>"@ =~= "\n\n<details>\n"@ + "<summary>"@);
    assert("</summary>\n\n```\n"@ =~= "</summary>"@ + ("\n\n"@ + "```\n"@));
    assert("\n```\n</details>"@ =~= "\n```"@ + "\n</details>"@);
    let a = "\n\n<details>\n"@;
    let b = "<summary>"@ + title + note + "</summary>"@;
    let c = "```\n"@ + text + "\n```"@;
    let d = "\n</details>"@;
    let all = folded(title, note, text);
    assert(all =~= a + b + ("\n\n"@ + c + d));
    lemma_contains_middle(a, b, "\n\n"@ + c + d);
    assert(all =~= (a + b + "\n\n"@) + c + d);
    lemma_contains_middle(a + b + "\n\n"@, c, d);
}

fn show_diff_note(r: &FixHashResult, log_base_url: &str) -> (out: String)
    ensures
        out@ == diff_note(*r, log_base_url@),
{
    if r.has_diff {
        let url = make_fix_log_url(
            log_base_url,
            r.attribute.as_str(),
            r.intermediate.as_str(),
            ".diff.log",
        );
        "\n- [source diff](".to_string().concat(url.as_str()).concat(")")
    } else {
        match &r.diff_failed_reason {
            Some(reason) => "\n\n*Source diff not available: ".to_string()
                .concat(reason.as_str())
                .concat("*"),
            None => "".to_string(),
        }
    }
}

fn show_source_note(r: &FixHashResult, log_base_url: &str) -> (out: String)
    ensures
        out@ == source_note(*r, log_base_url@),
{
    if r.has_old_source || r.has_new_source {
        let old_part = if r.has_old_source {
            let url = make_fix_log_url(
                log_base_url,
                r.attribute.as_str(),
                r.intermediate.as_str(),
                ".src.before/",
            );
            "\n- [old source](".to_string().concat(url.as_str()).concat(")")
        } else {
            "".to_string()
        };
        let new_part = if r.has_new_source {
            let url = make_fix_log_url(
                log_base_url,
                r.attribute.as_str(),
                r.intermediate.as_str(),
                ".src.after/",
            );
            "\n- [new source](".to_string().concat(url.as_str()).concat(")")
        } else {
            "".to_string()
        };
        "\n\nSource directories:".to_string().concat(old_part.as_str()).concat(new_part.as_str())
    } else {
        "".to_string()
    }
}

/// Writes the text of the pull request.
pub fn generate_pr_text(result: &FixHashResult, log_base_url: &str) -> (text: String)
    ensures
        text@ == pr_text(*result, log_base_url@),
{
    let attribute = result.attribute.as_str();
    let intermediate = result.intermediate.as_str();
    let before_url = make_fix_log_url(log_base_url, attribute, intermediate, ".before.log");
    let after_url = make_fix_log_url(log_base_url, attribute, intermediate, ".after.log");
    "# ".to_string()
        .concat(make_fix_title(attribute, intermediate).as_str())
        .concat("\n\nFixes hash mismatch for `")
        .concat(attribute)
        .concat(".")
        .concat(intermediate)
        .concat("`.\n\nBuild logs:\n- [before (")
        .concat(take_chars(result.before_commit.as_str(), 7).as_str())
        .concat(")](")
        .concat(before_url.as_str())
        .concat(")\n- [after (")
        .concat(take_chars(result.after_commit.as_str(), 7).as_str())
        .concat(")](")
        .concat(after_url.as_str())
        .concat(")")
        .concat(show_diff_note(result, log_base_url).as_str())
        .concat(show_source_note(result, log_base_url).as_str())
        .concat(show_diff_section(&result.diff_content).as_str())
        .concat(show_log_section("Build before", &result.before_log).as_str())
        .concat(show_log_section("Build after", &result.after_log).as_str())
        .concat(PR_FOOTER)
}

// ---------------------------------------------------------------------------
// The commit

/// The message of the commit.
pub fn commit_message(attribute: &str, intermediate: &str, old_hash: &str, new_hash: &str) -> (
    message: String)
    ensures
        message@ == fix_title(attribute@, intermediate@) + "\n\n"@ + old_hash@ + " -> "@
            + new_hash@,
{
    make_fix_title(attribute, intermediate)
        .concat("\n\n")
        .concat(old_hash)
        .concat(" -> ")
        .concat(new_hash)
}

/// Picks the branch: the one asked for, else one named after the attribute.
pub fn pick_branch(asked: Option<&str>, attribute: &str) -> (branch: String)
    ensures
        branch@ == (match asked {
            Some(name) => name@,
            None => "fix/"@ + attribute@,
        }),
{
    match asked {
        Some(name) => name.to_string(),
        None => "fix/".to_string().concat(attribute),
    }
}

/// What is pushed.
pub fn push_refspec(branch: &str) -> (refspec: String)
    ensures
        refspec@ == branch@ + ":"@ + branch@,
{
    branch.to_string().concat(":").concat(branch)
}

/// A command of git.
#[derive(Debug)]
pub struct GitStep {
    pub args: Vec<String>,
    /// What is reported where it fails; it may fail where there is nothing.
    pub failure: Option<String>,
}

/// The arguments and the report of a command of git.
pub open spec fn git_step_text(step: GitStep) -> (Seq<Seq<char>>, Option<Seq<char>>) {
    (texts(step.args@), opt_text(step.failure))
}

/// What a list of commands of git says.
pub open spec fn git_step_texts(steps: Seq<GitStep>) -> Seq<
    (Seq<Seq<char>>, Option<Seq<char>>),
> {
    steps.map_values(|s: GitStep| git_step_text(s))
}

/// A command of git says its arguments and what is reported where it fails; a list says
/// that of each.
pub proof fn law_git_steps_say_all(steps: Seq<GitStep>)
    ensures
        git_step_texts(steps).len() == steps.len(),
        forall|i: int|
            0 <= i < steps.len() ==> #[trigger] git_step_texts(steps)[i] == (
                texts(steps[i].args@),
                opt_text(steps[i].failure),
            ),
{
}

/// The commands that commit a file on a new branch, where an older branch of that
/// name may be in the way.
pub open spec fn commit_steps(
    nixpkgs: Seq<char>,
    branch: Seq<char>,
    file: Seq<char>,
    message: Seq<char>,
) -> Seq<(Seq<Seq<char>>, Option<Seq<char>>)> {
    seq![
        (seq!["-C"@, nixpkgs, "branch"@, "-D"@, branch], None),
        (seq!["-C"@, nixpkgs, "checkout"@, "-b"@, branch], Some("Failed to create branch"@)),
        (seq!["-C"@, nixpkgs, "add"@, file], Some("Failed to stage file"@)),
        (seq!["-C"@, nixpkgs, "commit"@, "-m"@, message], Some("Failed to commit"@)),
    ]
}

/// The commands that commit: an older branch is done away with first, which may fail; then
/// the branch is made, then the file and only it is staged, and then it is committed with
/// the message. Each of these has to go well.
pub proof fn law_commit_in_order(
    nixpkgs: Seq<char>,
    branch: Seq<char>,
    file: Seq<char>,
    message: Seq<char>,
    k: int,
)
    requires
        0 <= k < 4,
    ensures
        ({
            let steps = commit_steps(nixpkgs, branch, file, message);
            &&& steps.len() == 4
            &&& steps[k].0.len() >= 4 && steps[k].0[0] == "-C"@ && steps[k].0[1] == nixpkgs
            &&& steps[k].1 is None <==> k == 0
            &&& steps[0].0[2] == "branch"@ && steps[0].0.last() == branch
            &&& steps[1].0[2] == "checkout"@ && steps[1].0.last() == branch
            &&& steps[2].0[2] == "add"@ && steps[2].0.skip(3) == seq![file]
            &&& steps[3].0[2] == "commit"@ && steps[3].0.last() == message
        }),
{
    let steps = commit_steps(nixpkgs, branch, file, message);
    assert(steps[2].0.skip(3) =~= seq![file]);
}

fn git_args(nixpkgs: &str, one: &str, two: Option<&str>, three: Option<&str>) -> (args: Vec<
    String,
>)
    ensures
        texts(args@) == seq!["-C"@, nixpkgs@, one@] + (match two {
            Some(t) => seq![t@],
            None => Seq::empty(),
        }) + (match three {
            Some(t) => seq![t@],
            None => Seq::empty(),
        }),
{
    let mut args = no_texts();
    push_text(&mut args, "-C");
    push_text(&mut args, nixpkgs);
    push_text(&mut args, one);
    if let Some(t) = two {
        push_text(&mut args, t);
    }
    if let Some(t) = three {
        push_text(&mut args, t);
    }
    args
}

/// Makes the commands that commit a file on a new branch.
pub fn make_commit_steps(nixpkgs: &str, branch: &str, file: &str, message: &str) -> (steps: Vec<
    GitStep,
>)
    ensures
        git_step_texts(steps@) == commit_steps(nixpkgs@, branch@, file@, message@),
{
    let mut steps: Vec<GitStep> = Vec::new();
    let drop_branch = git_args(nixpkgs, "branch", Some("-D"), Some(branch));
    let new_branch = git_args(nixpkgs, "checkout", Some("-b"), Some(branch));
    let stage = git_args(nixpkgs, "add", Some(file), None);
    let commit = git_args(nixpkgs, "commit", Some("-m"), Some(message));
    proof {
        assert(texts(drop_branch@) == seq!["-C"@, nixpkgs@, "branch"@, "-D"@, branch@]);
        assert(texts(new_branch@) == seq!["-C"@, nixpkgs@, "checkout"@, "-b"@, branch@]);
        assert(texts(stage@) == seq!["-C"@, nixpkgs@, "add"@, file@]);
        assert(texts(commit@) == seq!["-C"@, nixpkgs@, "commit"@, "-m"@, message@]);
    }
    steps.push(GitStep { args: drop_branch, failure: None });
    steps.push(
        GitStep { args: new_branch, failure: Some("Failed to create branch".to_string()) },
    );
    steps.push(GitStep { args: stage, failure: Some("Failed to stage file".to_string()) });
    steps.push(GitStep { args: commit, failure: Some("Failed to commit".to_string()) });
    steps
}

/// Makes the arguments of git for asking for the commit that is checked out.
pub fn make_head_args(nixpkgs: &str) -> (args: Vec<String>)
    ensures
        texts(args@) == seq!["-C"@, nixpkgs@, "rev-parse"@, "HEAD"@],
{
    git_args(nixpkgs, "rev-parse", Some("HEAD"), None)
}

/// Makes the arguments of git for pushing a branch, over an older one if need be.
pub fn make_push_args(nixpkgs: &str, remote: &str, branch: &str) -> (args: Vec<String>)
    ensures
        texts(args@) == seq![
            "-C"@,
            nixpkgs@,
            "push"@,
            "-f"@,
            remote@,
            branch@ + ":"@ + branch@,
        ],
{
    let refspec = push_refspec(branch);
    let mut args = git_args(nixpkgs, "push", Some("-f"), Some(remote));
    push_text(&mut args, refspec.as_str());
    args
}

/// Makes the arguments for comparing two sources.
pub fn make_diff_args(old_path: &str, new_path: &str) -> (args: Vec<String>)
    ensures
        texts(args@) == seq!["--color"@, "never"@, "--skip-unchanged"@, old_path@, new_path@],
{
    let mut args = no_texts();
    push_text(&mut args, "--color");
    push_text(&mut args, "never");
    push_text(&mut args, "--skip-unchanged");
    push_text(&mut args, old_path);
    push_text(&mut args, new_path);
    args
}

// ---------------------------------------------------------------------------
// The way through

/// The seconds of a week.
pub const WEEK: i128 = 604_800;

/// Whether the remote has to be fetched: its last commit is older than a week, or it
/// is not known how old it is.
pub open spec fn wants_fetch(answer: Option<Seq<char>>, now: int) -> bool {
    match answer {
        Some(text) => match i64_value(trimmed(text)) {
            Some(time) => now - time > WEEK,
            None => true,
        },
        None => true,
    }
}

/// Tells whether the remote has to be fetched, by the time of its last commit, in
/// seconds, where git told it.
pub fn should_fetch(answer: Option<&str>, now: i64) -> (yes: bool)
    ensures
        yes == wants_fetch(opt_str(answer), now as int),
{
    match answer {
        Some(text) => match parse_i64(trim(text).as_str()) {
            Some(time) => (now as i128) - (time as i128) > WEEK,
            None => true,
        },
        None => true,
    }
}

/// The remote is fetched exactly where the time of its last commit is not known or lies
/// more than seven days back.
pub proof fn law_old_remote_is_fetched(text: Seq<char>, now: int)
    ensures
        wants_fetch(None, now),
        i64_value(trimmed(text)) is None ==> wants_fetch(Some(text), now),
        i64_value(trimmed(text)) matches Some(time) ==> (wants_fetch(Some(text), now) <==> now
            - time > 7 * 24 * 60 * 60),
{
}

/// How the name of the temporary directory begins.
pub fn worktree_prefix(attribute: &str, intermediate: &str) -> (prefix: String)
    ensures
        prefix@ == "fix-hash-"@ + with_char(attribute@, '.', '_') + "-"@ + intermediate@ + "-"@,
{
    "fix-hash-".to_string()
        .concat(swap_char(attribute, '.', '_').as_str())
        .concat("-")
        .concat(intermediate)
        .concat("-")
}

/// What is shown where the directory is kept for looking into it.
pub fn preserved_note(worktree: &str, nixpkgs: &str, directory: &str) -> (note: String)
    ensures
        note@ == "\n========================================\nPRESERVED NIXPKGS CHECKOUT: "@
            + worktree@
            + "\n========================================\nTo clean up when done:\n  git -C "@
            + nixpkgs@ + " worktree remove -f "@ + worktree@ + "\n  rm -rf "@ + directory@
            + "\n========================================\n"@,
{
    "\n========================================\nPRESERVED NIXPKGS CHECKOUT: ".to_string()
        .concat(worktree)
        .concat("\n========================================\nTo clean up when done:\n  git -C ")
        .concat(nixpkgs)
        .concat(" worktree remove -f ")
        .concat(worktree)
        .concat("\n  rm -rf ")
        .concat(directory)
        .concat("\n========================================\n")
}

/// Whether the sources are compared, and if not, why.
#[derive(Clone, Copy, PartialEq, Eq, Structural, Debug)]
pub enum DiffPlan {
    Compare,
    NotAsked,
    NoOldSource,
    OldSourceGone,
}

impl DiffPlan {
    /// Why the sources are not compared.
    pub open spec fn why_not(self) -> Option<Seq<char>> {
        match self {
            DiffPlan::Compare => None,
            DiffPlan::NotAsked => Some("--dont-diff was specified"@),
            DiffPlan::NoOldSource => Some("could not fetch old source from substituters"@),
            DiffPlan::OldSourceGone => Some(
                "old store path exists in database but not on disk"@,
            ),
        }
    }

    /// Tells why the sources are not compared.
    pub fn reason(self) -> (reason: Option<String>)
        ensures
            opt_text(reason) == self.why_not(),
    {
        match self {
            DiffPlan::Compare => None,
            DiffPlan::NotAsked => Some("--dont-diff was specified".to_string()),
            DiffPlan::NoOldSource => Some(
                "could not fetch old source from substituters".to_string(),
            ),
            DiffPlan::OldSourceGone => Some(
                "old store path exists in database but not on disk".to_string(),
            ),
        }
    }
}

/// Decides whether the sources are compared.
pub fn plan_diff(dont_diff: bool, has_old: bool, old_on_disk: bool) -> (plan: DiffPlan)
    ensures
        plan == (if dont_diff {
            DiffPlan::NotAsked
        } else if !has_old {
            DiffPlan::NoOldSource
        } else if !old_on_disk {
            DiffPlan::OldSourceGone
        } else {
            DiffPlan::Compare
        }),
{
    if dont_diff {
        DiffPlan::NotAsked
    } else if !has_old {
        DiffPlan::NoOldSource
    } else if !old_on_disk {
        DiffPlan::OldSourceGone
    } else {
        DiffPlan::Compare
    }
}

/// A reason is told exactly where the sources are not compared.
pub proof fn law_reason_where_not_compared(plan: DiffPlan)
    ensures
        plan.why_not() is None <==> plan == DiffPlan::Compare,
        plan == DiffPlan::NotAsked ==> plan.why_not() == Some("--dont-diff was specified"@),
        plan == DiffPlan::NoOldSource ==> plan.why_not() == Some(
            "could not fetch old source from substituters"@,
        ),
        plan == DiffPlan::OldSourceGone ==> plan.why_not() == Some(
            "old store path exists in database but not on disk"@,
        ),
{
}

/// What to do next in fixing a hash.
#[derive(Clone, Copy, PartialEq, Eq, Structural, Debug)]
pub enum FixStep {
    /// Ask whether the package has the attribute.
    SeekAttr,
    /// Delete its store path.
    Prune,
    /// Build it with the old hash.
    BuildBefore,
    /// Read the mismatch from the log.
    ReadMismatch,
    /// Fetch the old source from the cache.
    FetchOld,
    /// Keep a copy of the old source.
    CopyOld,
    /// Ask for the file that defines the package.
    FindFile,
    /// Update the hash in that file.
    UpdateFile,
    /// Look for another file with the hash, and update it there.
    SearchFiles,
    /// Build it with the new hash.
    BuildAfter,
    /// Look whether that build told its store path.
    ReadStorePath,
    /// Keep a copy of the new source.
    CopyNew,
    /// Compare the sources.
    Diff,
    /// Commit and push.
    Push,
    /// Write the text of the pull request.
    Describe,
    /// Nothing more to do.
    Done { success: bool },
    /// It cannot go on: there is no mismatch in the log.
    NoMismatch,
    /// It cannot go on: the file is not known.
    NoFile,
    /// It cannot go on: the build with the new hash went well but told no store path.
    NoStorePath,
}

/// What was asked for.
#[derive(Clone, Copy, PartialEq, Eq, Structural, Debug)]
pub struct FixOptions {
    /// There is a remote to push to.
    pub push: bool,
    /// The text of the pull request is wanted.
    pub describe: bool,
}

/// What comes when the text is reached.
pub open spec fn at_text(options: FixOptions) -> FixStep {
    if options.describe {
        FixStep::Describe
    } else {
        FixStep::Done { success: true }
    }
}

/// What comes after a step that was answered with yes or no: it is there, it went
/// well, it was found.
pub open spec fn fix_next(options: FixOptions, step: FixStep, yes: bool) -> FixStep {
    match step {
        FixStep::SeekAttr => if yes {
            FixStep::Prune
        } else {
            FixStep::Done { success: false }
        },
        FixStep::Prune => FixStep::BuildBefore,
        FixStep::BuildBefore => if yes {
            FixStep::Done { success: true }
        } else {
            FixStep::ReadMismatch
        },
        FixStep::ReadMismatch => if yes {
            FixStep::FetchOld
        } else {
            FixStep::NoMismatch
        },
        FixStep::FetchOld => if yes {
            FixStep::CopyOld
        } else {
            FixStep::FindFile
        },
        FixStep::CopyOld => FixStep::FindFile,
        FixStep::FindFile => if yes {
            FixStep::UpdateFile
        } else {
            FixStep::NoFile
        },
        FixStep::UpdateFile => if yes {
            FixStep::BuildAfter
        } else {
            FixStep::SearchFiles
        },
        FixStep::SearchFiles => if yes {
            FixStep::BuildAfter
        } else {
            FixStep::Done { success: false }
        },
        FixStep::BuildAfter => if yes {
            FixStep::ReadStorePath
        } else {
            FixStep::Done { success: false }
        },
        FixStep::ReadStorePath => if yes {
            FixStep::CopyNew
        } else {
            FixStep::NoStorePath
        },
        FixStep::CopyNew => FixStep::Diff,
        FixStep::Diff => if options.push {
            FixStep::Push
        } else {
            at_text(options)
        },
        FixStep::Push => at_text(options),
        FixStep::Describe => FixStep::Done { success: true },
        FixStep::Done { .. } => step,
        FixStep::NoMismatch => step,
        FixStep::NoFile => step,
        FixStep::NoStorePath => step,
    }
}

fn text_step(options: FixOptions) -> (step: FixStep)
    ensures
        step == at_text(options),
{
    if options.describe {
        FixStep::Describe
    } else {
        FixStep::Done { success: true }
    }
}

/// Decides what comes after a step.
pub fn next_fix_step(options: FixOptions, step: FixStep, yes: bool) -> (next: FixStep)
    ensures
        next == fix_next(options, step, yes),
{
    match step {
        FixStep::SeekAttr => {
            if yes {
                FixStep::Prune
            } else {
                FixStep::Done { success: false }
            }
        },
        FixStep::Prune => FixStep::BuildBefore,
        FixStep::BuildBefore => {
            if yes {
                FixStep::Done { success: true }
            } else {
                FixStep::ReadMismatch
            }
        },
        FixStep::ReadMismatch => {
            if yes {
                FixStep::FetchOld
            } else {
                FixStep::NoMismatch
            }
        },
        FixStep::FetchOld => {
            if yes {
                FixStep::CopyOld
            } else {
                FixStep::FindFile
            }
        },
        FixStep::CopyOld => FixStep::FindFile,
        FixStep::FindFile => {
            if yes {
                FixStep::UpdateFile
            } else {
                FixStep::NoFile
            }
        },
        FixStep::UpdateFile => {
            if yes {
                FixStep::BuildAfter
            } else {
                FixStep::SearchFiles
            }
        },
        FixStep::SearchFiles => {
            if yes {
                FixStep::BuildAfter
            } else {
                FixStep::Done { success: false }
            }
        },
        FixStep::BuildAfter => {
            if yes {
                FixStep::ReadStorePath
            } else {
                FixStep::Done { success: false }
            }
        },
        FixStep::ReadStorePath => {
            if yes {
                FixStep::CopyNew
            } else {
                FixStep::NoStorePath
            }
        },
        FixStep::CopyNew => FixStep::Diff,
        FixStep::Diff => {
            if options.push {
                FixStep::Push
            } else {
                text_step(options)
            }
        },
        FixStep::Push => text_step(options),
        FixStep::Describe => FixStep::Done { success: true },
        FixStep::Done { .. } => step,
        FixStep::NoMismatch => step,
        FixStep::NoFile => step,
        FixStep::NoStorePath => step,
    }
}

/// Whether a step is the last.
pub open spec fn is_last(step: FixStep) -> bool {
    step is Done || step is NoMismatch || step is NoFile || step is NoStorePath
}

/// How many steps can still come.
pub open spec fn steps_left(step: FixStep) -> nat {
    match step {
        FixStep::SeekAttr => 15,
        FixStep::Prune => 14,
        FixStep::BuildBefore => 13,
        FixStep::ReadMismatch => 12,
        FixStep::FetchOld => 11,
        FixStep::CopyOld => 10,
        FixStep::FindFile => 9,
        FixStep::UpdateFile => 8,
        FixStep::SearchFiles => 7,
        FixStep::BuildAfter => 6,
        FixStep::ReadStorePath => 5,
        FixStep::CopyNew => 4,
        FixStep::Diff => 3,
        FixStep::Push => 2,
        FixStep::Describe => 1,
        FixStep::Done { .. } => 0,
        FixStep::NoMismatch => 0,
        FixStep::NoFile => 0,
        FixStep::NoStorePath => 0,
    }
}

/// Fixing a hash comes to an end, whatever the answers.
pub proof fn law_fix_ends(options: FixOptions, step: FixStep, yes: bool)
    ensures
        is_last(step) ==> fix_next(options, step, yes) == step,
        !is_last(step) ==> steps_left(fix_next(options, step, yes)) < steps_left(step),
        steps_left(step) == 0 ==> is_last(step),
{
}

/// Nothing is pushed unless the build with the new hash went well and told its store
/// path: the steps before a push are the comparison, the copy, the reading of the path
/// and that build, these two with the answer yes.
pub proof fn law_push_after_good_build(options: FixOptions, step: FixStep, yes: bool)
    ensures
        fix_next(options, step, yes) == FixStep::Push ==> step == FixStep::Diff && options.push,
        fix_next(options, step, yes) == FixStep::Diff ==> step == FixStep::CopyNew,
        fix_next(options, step, yes) == FixStep::CopyNew ==> step == FixStep::ReadStorePath && yes,
        fix_next(options, step, yes) == FixStep::ReadStorePath ==> step == FixStep::BuildAfter
            && yes,
{
}

/// It cannot go on for want of a store path exactly where the build with the new hash
/// went well and told none.
pub proof fn law_no_store_path_after_good_build(options: FixOptions, step: FixStep, yes: bool)
    requires
        step != FixStep::NoStorePath,
    ensures
        fix_next(options, step, yes) == FixStep::NoStorePath <==> step == FixStep::ReadStorePath
            && !yes,
{
}

/// The old source is fetched before a file is touched.
pub proof fn law_old_source_before_update(options: FixOptions, step: FixStep, yes: bool)
    ensures
        fix_next(options, step, yes) == FixStep::UpdateFile ==> step == FixStep::FindFile,
        fix_next(options, step, yes) == FixStep::FindFile ==> step == FixStep::FetchOld || step
            == FixStep::CopyOld,
        fix_next(options, step, yes) == FixStep::CopyOld ==> step == FixStep::FetchOld,
{
}

/// Once a file was updated, it is built with the new hash; and nothing else leads to that
/// build.
pub proof fn law_updated_file_is_built(options: FixOptions, step: FixStep, yes: bool)
    ensures
        fix_next(options, step, yes) == FixStep::BuildAfter <==> yes && (step
            == FixStep::UpdateFile || step == FixStep::SearchFiles),
        fix_next(options, step, yes) == FixStep::SearchFiles <==> !yes && step
            == FixStep::UpdateFile,
        fix_next(options, step, yes) == FixStep::UpdateFile <==> yes && step == FixStep::FindFile,
        step != FixStep::NoFile ==> (fix_next(options, step, yes) == FixStep::NoFile <==> !yes
            && step == FixStep::FindFile),
{
}

/// It ends with success only from the build with the old hash, where that went well,
/// from the text, or, where no text is wanted, from the push, or from the comparison
/// where nothing is to be pushed either.
pub proof fn law_success_is_last(options: FixOptions, step: FixStep, yes: bool)
    requires
        !(step is Done),
    ensures
        fix_next(options, step, yes) == (FixStep::Done { success: true }) <==> ((step
            == FixStep::BuildBefore && yes) || step == FixStep::Describe || (!options.describe && (
        step == FixStep::Push || (step == FixStep::Diff && !options.push)))),
{
}

/// It ends without success only where the package does not have the attribute, where the
/// hash is in no file, or where the build with the new hash fails.
pub proof fn law_failure_is_last(options: FixOptions, step: FixStep, yes: bool)
    requires
        !(step is Done),
        step != FixStep::NoMismatch,
    ensures
        fix_next(options, step, yes) == (FixStep::Done { success: false }) <==> !yes && (step
            == FixStep::SeekAttr || step == FixStep::SearchFiles || step == FixStep::BuildAfter),
        fix_next(options, step, yes) == FixStep::NoMismatch <==> !yes && step
            == FixStep::ReadMismatch,
{
}

/// What leads to the steps before a file is touched, and to those after the build with
/// the new hash: a mismatch is read only from a build that failed, the attribute is
/// deleted before it is built, and a push and a text come exactly where they are wanted.
pub proof fn law_way_to_each_step(options: FixOptions, step: FixStep, yes: bool)
    ensures
        fix_next(options, step, yes) == FixStep::Prune <==> step == FixStep::SeekAttr && yes,
        fix_next(options, step, yes) == FixStep::BuildBefore <==> step == FixStep::Prune,
        fix_next(options, step, yes) == FixStep::ReadMismatch <==> step == FixStep::BuildBefore
            && !yes,
        fix_next(options, step, yes) == FixStep::FetchOld <==> step == FixStep::ReadMismatch && yes,
        fix_next(options, step, yes) == FixStep::CopyOld <==> step == FixStep::FetchOld && yes,
        fix_next(options, step, yes) == FixStep::FindFile <==> (step == FixStep::FetchOld && !yes)
            || step == FixStep::CopyOld,
        fix_next(options, step, yes) == FixStep::ReadStorePath <==> step == FixStep::BuildAfter
            && yes,
        fix_next(options, step, yes) == FixStep::CopyNew <==> step == FixStep::ReadStorePath && yes,
        fix_next(options, step, yes) == FixStep::Diff <==> step == FixStep::CopyNew,
        fix_next(options, step, yes) == FixStep::Push <==> step == FixStep::Diff && options.push,
        fix_next(options, step, yes) == FixStep::Describe <==> options.describe && (step
            == FixStep::Push || (step == FixStep::Diff && !options.push)),
        fix_next(options, step, yes) != FixStep::SeekAttr,
{
}

/// Whether a list of steps and answers is a run of fixing a hash: it begins with the
/// search for the attribute, and each step follows from the one before and its answer.
pub open spec fn is_fix_run(options: FixOptions, steps: Seq<FixStep>, answers: Seq<bool>) -> bool {
    &&& steps.len() == answers.len() + 1
    &&& steps[0] == FixStep::SeekAttr
    &&& forall|k: int|
        0 <= k < answers.len() ==> #[trigger] steps[k + 1] == fix_next(
            options,
            steps[k],
            answers[k],
        )
}

/// Whether a step of a run was answered with yes.
pub open spec fn went_well(steps: Seq<FixStep>, answers: Seq<bool>, step: FixStep) -> bool {
    exists|k: int| 0 <= k < answers.len() && #[trigger] steps[k] == step && answers[k]
}

/// What a run went through by the time it reached a step.
spec fn reached(
    options: FixOptions,
    steps: Seq<FixStep>,
    answers: Seq<bool>,
    k: int,
) -> bool {
    let step = steps[k];
    let built = went_well(steps, answers, FixStep::BuildAfter) && went_well(
        steps,
        answers,
        FixStep::ReadStorePath,
    );
    let updated = went_well(steps, answers, FixStep::UpdateFile) || went_well(
        steps,
        answers,
        FixStep::SearchFiles,
    );
    let mismatch = went_well(steps, answers, FixStep::ReadMismatch);
    &&& step == FixStep::FetchOld || step == FixStep::CopyOld || step == FixStep::FindFile || step
        == FixStep::UpdateFile || step == FixStep::SearchFiles ==> mismatch
    &&& step == FixStep::BuildAfter ==> mismatch && updated
    &&& step == FixStep::ReadStorePath ==> mismatch && updated && went_well(
        steps,
        answers,
        FixStep::BuildAfter,
    )
    &&& step == FixStep::CopyNew || step == FixStep::Diff ==> mismatch && updated && built
    &&& step == FixStep::Push ==> mismatch && updated && built && options.push
    &&& step == FixStep::Describe ==> mismatch && updated && built && (options.push
        ==> steps.contains(FixStep::Push))
    &&& step == (FixStep::Done { success: true }) ==> went_well(
        steps,
        answers,
        FixStep::BuildBefore,
    ) || (mismatch && updated && built && (options.push ==> steps.contains(FixStep::Push)) && (
    options.describe ==> steps.contains(FixStep::Describe)))
}

proof fn lemma_reached(options: FixOptions, steps: Seq<FixStep>, answers: Seq<bool>, k: int)
    requires
        is_fix_run(options, steps, answers),
        0 <= k < steps.len(),
    ensures
        reached(options, steps, answers, k),
    decreases k,
{
    if k > 0 {
        lemma_reached(options, steps, answers, k - 1);
        assert(steps[k - 1 + 1] == fix_next(options, steps[k - 1], answers[k - 1]));
        assert(answers[k - 1] ==> went_well(steps, answers, steps[k - 1]));
        assert(steps.contains(steps[k - 1]));
    }
}

/// What a run that ends with success has done: either the build with the old hash went
/// well and there was nothing to fix; or a mismatch was read, a file was updated, the
/// build with the new hash went well and told its store path, it was pushed where that
/// was asked for, and the text was written where that was wanted.
pub proof fn law_success_means_fixed(
    options: FixOptions,
    steps: Seq<FixStep>,
    answers: Seq<bool>,
)
    requires
        is_fix_run(options, steps, answers),
        steps.last() == (FixStep::Done { success: true }),
    ensures
        went_well(steps, answers, FixStep::BuildBefore) || {
            &&& went_well(steps, answers, FixStep::ReadMismatch)
            &&& went_well(steps, answers, FixStep::UpdateFile) || went_well(
                steps,
                answers,
                FixStep::SearchFiles,
            )
            &&& went_well(steps, answers, FixStep::BuildAfter)
            &&& went_well(steps, answers, FixStep::ReadStorePath)
            &&& options.push ==> steps.contains(FixStep::Push)
            &&& options.describe ==> steps.contains(FixStep::Describe)
        },
{
    lemma_reached(options, steps, answers, steps.len() - 1);
}

proof fn lemma_done_stays(
    options: FixOptions,
    steps: Seq<FixStep>,
    answers: Seq<bool>,
    j: int,
    k: int,
)
    requires
        is_fix_run(options, steps, answers),
        0 <= j <= k < steps.len(),
        is_last(steps[j]),
    ensures
        steps[k] == steps[j],
    decreases k - j,
{
    if j < k {
        lemma_done_stays(options, steps, answers, j, k - 1);
        assert(steps[k - 1 + 1] == fix_next(options, steps[k - 1], answers[k - 1]));
    }
}

/// A run in which the build with the old hash went well touches nothing: no file is
/// updated, nothing is pushed and no text is written.
pub proof fn law_good_build_touches_nothing(
    options: FixOptions,
    steps: Seq<FixStep>,
    answers: Seq<bool>,
    k: int,
)
    requires
        is_fix_run(options, steps, answers),
        went_well(steps, answers, FixStep::BuildBefore),
        0 <= k < steps.len(),
    ensures
        steps[k] == FixStep::SeekAttr || steps[k] == FixStep::Prune || steps[k]
            == FixStep::BuildBefore || steps[k] == (FixStep::Done { success: true }),
{
    let b = choose|b: int|
        0 <= b < answers.len() && #[trigger] steps[b] == FixStep::BuildBefore && answers[b];
    assert(steps[b + 1] == fix_next(options, steps[b], answers[b]));
    if k > b {
        lemma_done_stays(options, steps, answers, b + 1, k);
    } else {
        lemma_before_build(options, steps, answers, b, k);
    }
}

proof fn lemma_before_build(
    options: FixOptions,
    steps: Seq<FixStep>,
    answers: Seq<bool>,
    b: int,
    k: int,
)
    requires
        is_fix_run(options, steps, answers),
        0 <= k <= b < steps.len(),
        steps[b] == FixStep::BuildBefore || steps[b] == FixStep::Prune || steps[b]
            == FixStep::SeekAttr,
    ensures
        steps[k] == FixStep::SeekAttr || steps[k] == FixStep::Prune || steps[k]
            == FixStep::BuildBefore,
    decreases b - k,
{
    if k < b {
        assert(steps[b - 1 + 1] == fix_next(options, steps[b - 1], answers[b - 1]));
        lemma_before_build(options, steps, answers, b - 1, k);
    }
}

} // verus!
