use vstd::prelude::*;

use crate::error::TmsError;
use crate::paths::last_component;
use crate::paths::short_name_of;

verus! {

/// Whether a worktree base directory is a default worktree: its final path
/// component is `master` or `main`.
pub open spec fn is_default_base(b: Seq<char>) -> bool {
    last_component(b) == "master"@ || last_component(b) == "main"@
}

/// The directory a session for the selected repository is rooted at.
///
/// With a non-empty head tree it is the repository's own working directory.
/// With an empty head tree (freshly initialized, no commits) it is the base of
/// the first linked worktree whose directory is named `master` or `main`;
/// when no such worktree exists, that is an explicit error.
pub fn resolve_working_path(
    head_tree_empty: bool,
    work_dir: Option<String>,
    worktree_bases: &Vec<String>,
) -> (r: Result<String, TmsError>)
    requires
        !head_tree_empty ==> (match work_dir {
            Option::Some(_) => true,
            Option::None => false,
        }),
    ensures
        match r {
            Ok(p) => {
                if head_tree_empty {
                    exists|i: int|
                        0 <= i < worktree_bases@.len() && is_default_base(
                            #[trigger] worktree_bases@[i]@,
                        ) && p@ == worktree_bases@[i]@ && (forall|j: int|
                            0 <= j < i ==> !is_default_base(#[trigger] worktree_bases@[j]@))
                } else {
                    match work_dir {
                        Option::Some(w) => p@ == w@,
                        Option::None => false,
                    }
                }
            },
            Err(e) => e == TmsError::NoDefaultWorktree && head_tree_empty && (forall|i: int|
                0 <= i < worktree_bases@.len() ==> !is_default_base(
                    #[trigger] worktree_bases@[i]@,
                )),
        },
{
    if !head_tree_empty {
        match work_dir {
            Option::Some(w) => Ok(w),
            Option::None => {
                proof {
                    assert(false);
                }
                Err(TmsError::NoDefaultWorktree)
            }
        }
    } else {
        let n: usize = worktree_bases.len();
        let mut i: usize = 0;
        while i < n
            invariant
                head_tree_empty,
                n == worktree_bases@.len(),
                i <= n,
                forall|j: int| 0 <= j < i ==> !is_default_base(#[trigger] worktree_bases@[j]@),
            decreases n - i,
        {
            let nm = short_name_of(worktree_bases[i].as_str());
            let master = "master".to_owned();
            let main_name = "main".to_owned();
            if nm == master || nm == main_name {
                let p = worktree_bases[i].clone();
                proof {
                    let ii = i as int;
                    assert(is_default_base(worktree_bases@[ii]@));
                    assert(0 <= ii && ii < worktree_bases@.len() && is_default_base(
                        worktree_bases@[ii]@,
                    ) && p@ == worktree_bases@[ii]@ && (forall|j: int|
                        0 <= j < ii ==> !is_default_base(#[trigger] worktree_bases@[j]@)));
                }
                return Ok(p);
            }
            i += 1;
        }
        Err(TmsError::NoDefaultWorktree)
    }
}

} // verus!
