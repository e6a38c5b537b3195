use crate::model::{RepoBranch, RepoBranchType, RepoError};
use vstd::prelude::*;

verus! {

/// A local branch as the store reported it.
pub struct RawBranch {
    /// `None` when the branch name cannot be read as text.
    pub name: Option<String>,
    /// Whether HEAD points at this branch.
    pub is_head: bool,
}

/// Some branch of `raw` has no readable name.
pub open spec fn name_unreadable(raw: Seq<RawBranch>) -> bool {
    exists|i: int| 0 <= i < raw.len() && (#[trigger] raw[i]).name is None
}

/// `b` reports the local branch `r`.
pub open spec fn reports_branch(b: RepoBranch, r: RawBranch) -> bool {
    &&& b.name == r.name->Some_0
    &&& b.branch_type == RepoBranchType::Local
    &&& b.is_checked_out == r.is_head
}

/// `v` is what callers are told of the local branches `raw`: one entry
/// for each, in the same order.
pub open spec fn reports_branches(raw: Seq<RawBranch>, v: Seq<RepoBranch>) -> bool {
    &&& v.len() == raw.len()
    &&& forall|k: int| 0 <= k < v.len() ==> reports_branch(#[trigger] v[k], raw[k])
}

/// The branch list for the local branches `raw`, in the store's order:
/// fails with `BranchName` exactly when some name cannot be read.
pub fn branches_from(raw: Vec<RawBranch>) -> (r: Result<Vec<RepoBranch>, RepoError>)
    ensures
        r.is_err() == name_unreadable(raw@),
        r matches Err(e) ==> e is BranchName,
        r matches Ok(v) ==> reports_branches(raw@, v@),
{
    let ghost w = raw@;
    let mut rest = raw;
    let mut out: Vec<RepoBranch> = Vec::new();
    proof {
        assert(rest@ =~= w.skip(0));
    }
    while rest.len() > 0
        invariant
            w == raw@,
            out@.len() <= w.len(),
            rest@ =~= w.skip(out@.len() as int),
            forall|k: int| 0 <= k < out@.len() ==> w[k].name is Some,
            forall|k: int| 0 <= k < out@.len() ==> reports_branch(#[trigger] out@[k], w[k]),
        decreases rest.len(),
    {
        let ghost i = out@.len() as int;
        let b = rest.remove(0);
        proof {
            assert(b == w[i]);
        }
        match b.name {
            Some(name) => {
                out.push(
                    RepoBranch {
                        name: name,
                        branch_type: RepoBranchType::Local,
                        is_checked_out: b.is_head,
                    },
                );
                proof {
                    assert(rest@ =~= w.skip(i + 1));
                }
            },
            None => {
                proof {
                    assert(w[i].name is None);
                }
                return Err(RepoError::BranchName);
            },
        }
    }
    proof {
        assert(!name_unreadable(w));
    }
    Ok(out)
}

/// The branch list depends on the store's branches alone: two lists
/// reported for the same branches are equal, so opening an unchanged
/// repository again lists the same branches.
pub proof fn lemma_branch_list_determined(
    raw: Seq<RawBranch>,
    v1: Seq<RepoBranch>,
    v2: Seq<RepoBranch>,
)
    requires
        reports_branches(raw, v1),
        reports_branches(raw, v2),
    ensures
        v1 == v2,
{
    assert forall|k: int| 0 <= k < v1.len() implies v1[k] == v2[k] by {
        assert(reports_branch(v1[k], raw[k]));
        assert(reports_branch(v2[k], raw[k]));
    }
    assert(v1 =~= v2);
}

} // verus!
