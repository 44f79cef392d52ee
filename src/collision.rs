//! The batch-level check: no two entries of a batch may get the same new name.

use vstd::prelude::*;
use crate::engine::Expression;
use crate::projector::{ProjectionError, batch, names_view, pairs_view};

verus! {

/// Two entries of the batch get the same new name.
pub open spec fn collides(pairs: Seq<(Seq<char>, Seq<char>)>) -> bool {
    exists|i: int, j: int| 0 <= i < j < pairs.len() && #[trigger] pairs[i].1 == #[trigger] pairs[j].1
}

/// `(i, j)` is the first collision: `j` is the earliest entry whose new name
/// an earlier entry has, and `i` the earliest such earlier entry.
pub open spec fn is_first_collision(pairs: Seq<(Seq<char>, Seq<char>)>, i: int, j: int) -> bool {
    &&& 0 <= i < j < pairs.len()
    &&& pairs[i].1 == pairs[j].1
    &&& forall|a: int, b: int| 0 <= a < b < j ==> #[trigger] pairs[a].1 != #[trigger] pairs[b].1
    &&& forall|a: int| 0 <= a < i ==> #[trigger] pairs[a].1 != pairs[j].1
}

/// Why a batch of renames is rejected.
#[derive(Debug)]
pub enum RenameError {
    /// The target refers to a kind and id that the source never captured.
    UnknownCapture,
    /// Two old names would get the same new name: the two old names.
    Collision(String, String),
}

/// The first collision of the batch, if there is one.
pub fn find_collision(names: &Vec<(String, String)>) -> (r: Option<(usize, usize)>)
    ensures
        match r {
            Some((i, j)) => is_first_collision(pairs_view(names@), i as int, j as int),
            None => !collides(pairs_view(names@)),
        },
{
    let ghost pv = pairs_view(names@);
    let n = names.len();
    let mut j: usize = 0;
    while j < n
        invariant
            n == names@.len(),
            pv == pairs_view(names@),
            pv.len() == n,
            j <= n,
            forall|a: int, b: int| 0 <= a < b < j ==> #[trigger] pv[a].1 != #[trigger] pv[b].1,
        decreases n - j,
    {
        let mut i: usize = 0;
        while i < j
            invariant
                n == names@.len(),
                pv == pairs_view(names@),
                pv.len() == n,
                i <= j < n,
                forall|a: int, b: int| 0 <= a < b < j ==> #[trigger] pv[a].1 != #[trigger] pv[b].1,
                forall|a: int| 0 <= a < i ==> #[trigger] pv[a].1 != pv[j as int].1,
            decreases j - i,
        {
            assert(pv[i as int].1 == names@[i as int].1@ && pv[j as int].1 == names@[j as int].1@);
            if names[i].1 == names[j].1 {
                return Some((i, j));
            }
            i += 1;
        }
        j += 1;
    }
    None
}

/// Whether all new names of the batch differ.
pub fn target_names_different(names: &Vec<(String, String)>) -> (r: bool)
    ensures
        r == !collides(pairs_view(names@)),
{
    match find_collision(names) {
        Some(_) => false,
        None => true,
    }
}

/// The whole rename batch: every name that `source` matches, with the new
/// name `target` builds for it, in the order of `names`. The batch is
/// rejected as a whole where a target capture is unknown, or where two
/// entries would get the same new name (the first such pair is reported).
pub fn plan_renames(source: &Expression, target: &Expression, names: &Vec<String>) -> (r: Result<
    Vec<(String, String)>,
    RenameError,
>)
    ensures
        match batch(source@, target@, names_view(names@)) {
            None => r matches Err(RenameError::UnknownCapture),
            Some(pairs) => if collides(pairs) {
                r matches Err(RenameError::Collision(a, b)) && exists|i: int, j: int|
                    is_first_collision(pairs, i, j) && a@ == pairs[i].0 && b@ == pairs[j].0
            } else {
                r matches Ok(v) && pairs_view(v@) == pairs
            },
        },
{
    match source.match_new_names(names, target) {
        Err(ProjectionError::UnknownCapture) => Err(RenameError::UnknownCapture),
        Ok(pairs) => match find_collision(&pairs) {
            Some((i, j)) => {
                assert(pairs_view(pairs@)[i as int].0 == pairs@[i as int].0@);
                assert(pairs_view(pairs@)[j as int].0 == pairs@[j as int].0@);
                assert(collides(pairs_view(pairs@)));
                Err(RenameError::Collision(pairs[i].0.clone(), pairs[j].0.clone()))
            },
            None => Ok(pairs),
        },
    }
}

} // verus!
