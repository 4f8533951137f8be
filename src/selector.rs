//! Selected source files.
use vstd::prelude::*;

verus! {

/// A source file chosen for a pipeline, by its path.
pub struct Selector {
    pub path: String,
}

/// A selector for each of `paths`, in order.
pub fn make_selectors_for_paths(paths: Vec<String>) -> (r: Vec<Selector>)
    ensures
        r@.len() == paths@.len(),
        forall|i: int| 0 <= i < paths@.len() ==> (#[trigger] r@[i]).path == paths@[i],
{
    let mut selectors: Vec<Selector> = Vec::new();
    let mut i: usize = 0;
    while i < paths.len()
        invariant
            i <= paths.len(),
            selectors@.len() == i,
            forall|k: int| 0 <= k < i ==> (#[trigger] selectors@[k]).path == paths@[k],
        decreases paths.len() - i,
    {
        selectors.push(Selector { path: paths[i].clone() });
        i += 1;
    }
    selectors
}

} // verus!
