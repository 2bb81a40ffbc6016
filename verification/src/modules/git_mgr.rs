//! The names and decisions behind the synchronisation of the dotfiles
//! repository. The repository itself is worked on elsewhere.

use crate::text::{concat2, str_starts_with, views};
use vstd::prelude::*;
use vstd::string::*;

verus! {

/// The reference under which a branch is stored.
pub open spec fn branch_ref_of(branch: Seq<char>) -> Seq<char> {
    "refs/heads/"@ + branch
}

/// The branches among the references `refs`: each reference that starts with
/// `refs/heads/`, without that prefix, in the order of `refs`.
pub open spec fn branch_names(refs: Seq<Seq<char>>) -> Seq<Seq<char>>
    decreases refs.len(),
{
    if refs.len() == 0 {
        Seq::empty()
    } else if "refs/heads/"@.is_prefix_of(refs.last()) {
        branch_names(refs.drop_last()).push(refs.last().subrange(11, refs.last().len() as int))
    } else {
        branch_names(refs.drop_last())
    }
}

/// How fetched changes are brought into a branch.
#[derive(Clone, Copy, Debug, PartialEq, Eq, Structural)]
pub enum MergeStep {
    /// Move the branch to the fetched commit.
    FastForward,
    /// Merge the fetched commit and commit the result.
    Merge,
    /// Leave the branch as it is.
    Nothing,
}

/// The reference under which `branch` is stored.
pub fn branch_ref(branch: &str) -> (r: String)
    ensures
        r@ == branch_ref_of(branch@),
{
    concat2("refs/heads/", branch)
}

/// The branches among the references `refs`.
pub fn remote_branches(refs: &Vec<String>) -> (r: Vec<String>)
    ensures
        views(r@) == branch_names(views(refs@)),
{
    let mut out: Vec<String> = Vec::new();
    let mut i: usize = 0;
    proof {
        reveal_strlit("refs/heads/");
        assert(views(refs@).take(0) =~= Seq::empty());
        assert(views(out@) =~= Seq::empty());
    }
    while i < refs.len()
        invariant
            i <= refs.len(),
            "refs/heads/"@.len() == 11,
            views(out@) == branch_names(views(refs@).take(i as int)),
        decreases refs.len() - i,
    {
        proof {
            let next = views(refs@).take(i + 1);
            assert(next.drop_last() =~= views(refs@).take(i as int));
            assert(next.last() == refs@[i as int]@);
        }
        if str_starts_with(refs[i].as_str(), "refs/heads/") {
            let n = refs[i].as_str().unicode_len();
            let name = String::from_str(refs[i].as_str().substring_char(11, n));
            proof {
                assert(views(out@.push(name)) =~= views(out@).push(name@));
            }
            out.push(name);
        }
        i += 1;
    }
    assert(views(refs@).take(refs@.len() as int) =~= views(refs@));
    out
}

/// How fetched changes are brought in, given what the analysis of the merge
/// said: a fast-forward where one is possible, else a merge where one is
/// called for, else nothing.
pub fn merge_step(fast_forward: bool, normal: bool) -> (r: MergeStep)
    ensures
        r == (if fast_forward {
            MergeStep::FastForward
        } else if normal {
            MergeStep::Merge
        } else {
            MergeStep::Nothing
        }),
{
    if fast_forward {
        MergeStep::FastForward
    } else if normal {
        MergeStep::Merge
    } else {
        MergeStep::Nothing
    }
}

} // verus!
