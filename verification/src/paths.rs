//! The containment gate for canonical paths, as component lists: a requested
//! file is served only from inside the configured storage directory.

use vstd::prelude::*;

verus! {

/// Whether the components of `base` are a prefix of the components of
/// `path`. For canonicalized paths this is exactly "`path` lies inside
/// `base`": resolving symlinks and dot segments is the caller's concern.
pub fn path_is_within(base: &Vec<String>, path: &Vec<String>) -> (r: bool)
    ensures
        r == (base@.len() <= path@.len() && (forall|i: int|
            0 <= i < base@.len() ==> base@[i]@ == path@[i]@)),
{
    if base.len() > path.len() {
        return false;
    }
    let mut i: usize = 0;
    while i < base.len()
        invariant
            i <= base@.len(),
            base@.len() <= path@.len(),
            forall|t: int| 0 <= t < i ==> base@[t]@ == path@[t]@,
        decreases base@.len() - i,
    {
        if base[i] != path[i] {
            return false;
        }
        i = i + 1;
    }
    true
}

} // verus!
