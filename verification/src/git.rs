//! What is asked of git.

use vstd::prelude::*;

use crate::text::{no_texts, push_text, texts};

verus! {

/// The arguments for fetching a commit into a ref of the local repository.
pub open spec fn fetch_args(
    nixpkgs: Seq<char>,
    remote: Seq<char>,
    sha: Seq<char>,
    ref_name: Seq<char>,
) -> Seq<Seq<char>> {
    seq![
        "-C"@,
        nixpkgs,
        "-c"@,
        "fetch.prune=false"@,
        "fetch"@,
        "--no-tags"@,
        "--force"@,
        remote,
        sha + ":"@ + ref_name,
    ]
}

/// Makes the arguments for fetching a commit into a ref of the local repository.
pub fn make_fetch_args(nixpkgs: &str, remote: &str, sha: &str, ref_name: &str) -> (args: Vec<
    String,
>)
    ensures
        texts(args@) == fetch_args(nixpkgs@, remote@, sha@, ref_name@),
{
    let refspec = sha.to_string().concat(":").concat(ref_name);
    let mut args = no_texts();
    push_text(&mut args, "-C");
    push_text(&mut args, nixpkgs);
    push_text(&mut args, "-c");
    push_text(&mut args, "fetch.prune=false");
    push_text(&mut args, "fetch");
    push_text(&mut args, "--no-tags");
    push_text(&mut args, "--force");
    push_text(&mut args, remote);
    push_text(&mut args, refspec.as_str());
    args
}

/// Makes the arguments for adding a worktree.
pub fn make_worktree_add_args(nixpkgs: &str, path: &str, commit: &str) -> (args: Vec<String>)
    ensures
        texts(args@) == seq!["-C"@, nixpkgs@, "worktree"@, "add"@, path@, commit@],
{
    let mut args = no_texts();
    push_text(&mut args, "-C");
    push_text(&mut args, nixpkgs);
    push_text(&mut args, "worktree");
    push_text(&mut args, "add");
    push_text(&mut args, path);
    push_text(&mut args, commit);
    args
}

/// Makes the arguments for removing a worktree.
pub fn make_worktree_remove_args(nixpkgs: &str, path: &str) -> (args: Vec<String>)
    ensures
        texts(args@) == seq!["-C"@, nixpkgs@, "worktree"@, "remove"@, "-f"@, path@],
{
    let mut args = no_texts();
    push_text(&mut args, "-C");
    push_text(&mut args, nixpkgs);
    push_text(&mut args, "worktree");
    push_text(&mut args, "remove");
    push_text(&mut args, "-f");
    push_text(&mut args, path);
    args
}

/// Makes the arguments for finding where two refs part.
pub fn make_merge_base_args(nixpkgs: &str, one: &str, other: &str) -> (args: Vec<String>)
    ensures
        texts(args@) == seq!["-C"@, nixpkgs@, "merge-base"@, one@, other@],
{
    let mut args = no_texts();
    push_text(&mut args, "-C");
    push_text(&mut args, nixpkgs);
    push_text(&mut args, "merge-base");
    push_text(&mut args, one);
    push_text(&mut args, other);
    args
}

/// A commit is fetched from the remote that is asked for into the ref that is asked for,
/// and nothing else: no tags come, and no other ref goes.
pub proof fn law_fetch_args(
    nixpkgs: Seq<char>,
    remote: Seq<char>,
    sha: Seq<char>,
    ref_name: Seq<char>,
)
    ensures
        ({
            let args = fetch_args(nixpkgs, remote, sha, ref_name);
            &&& args.len() == 9
            &&& args[0] == "-C"@ && args[1] == nixpkgs
            &&& args[3] == "fetch.prune=false"@
            &&& args[4] == "fetch"@ && args[5] == "--no-tags"@ && args[6] == "--force"@
            &&& args[7] == remote
            &&& args[8] == sha + ":"@ + ref_name
        }),
{
}

} // verus!
