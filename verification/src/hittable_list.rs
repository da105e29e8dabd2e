//! A flat collection of surface handles: the linear-scan container that
//! scenes start from and the brute-force baseline the BVH is held to.

use vstd::prelude::*;

verus! {

#[derive(Clone, PartialEq, Eq, Debug)]
pub struct HittableList {
    pub objects: Vec<usize>,
}

impl HittableList {
    pub fn new() -> (l: HittableList)
        ensures
            l.objects@.len() == 0,
    {
        HittableList { objects: Vec::new() }
    }

    pub fn clear(&mut self)
        ensures
            final(self).objects@.len() == 0,
    {
        self.objects.truncate(0);
    }

    /// Add a surface handle to the list.
    pub fn add(&mut self, object: usize)
        ensures
            final(self).objects@ == old(self).objects@.push(object),
    {
        self.objects.push(object);
    }
}

} // verus!
