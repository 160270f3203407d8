//! Filesystem locations as sequences of interned name segments.
//!
//! The core never reads the text of a path: it only navigates to a parent
//! directory, tests containment in an output directory, and compares paths.
//! A path is therefore modelled as the sequence of its components, each
//! component interned to an integer by the caller.

use vstd::prelude::*;
use crate::util::copy_u64_vec;
use crate::util::u64_vec_eq;

verus! {

/// A filesystem location: the sequence of its path components, root first,
/// each component interned to an integer name.
#[verifier::ext_equal]
#[derive(Debug, Clone, PartialEq, Eq)]
pub struct FsPath {
    pub segments: Vec<u64>,
}

impl View for FsPath {
    type V = Seq<u64>;

    open spec fn view(&self) -> Seq<u64> {
        self.segments@
    }
}

/// `shorter` names a directory strictly above the location `longer`.
pub open spec fn strictly_contains(shorter: Seq<u64>, longer: Seq<u64>) -> bool {
    shorter.len() < longer.len() && shorter == longer.subrange(0, shorter.len() as int)
}

impl FsPath {
    /// The sequence of components of the enclosing directory: everything
    /// but the last component, and the root stays the root.
    pub open spec fn spec_parent(self) -> Seq<u64> {
        if self@.len() == 0 {
            self@
        } else {
            self@.drop_last()
        }
    }

    pub fn from_segments(segments: Vec<u64>) -> (p: FsPath)
        ensures
            p@ == segments@,
    {
        FsPath { segments }
    }

    /// An independently owned path naming the same location.
    pub fn duplicate(&self) -> (p: FsPath)
        ensures
            p@ == self@,
    {
        FsPath { segments: copy_u64_vec(&self.segments) }
    }

    /// The enclosing directory of this location.
    pub fn parent(&self) -> (p: FsPath)
        ensures
            p@ == self.spec_parent(),
    {
        let mut segments = copy_u64_vec(&self.segments);
        if segments.len() > 0 {
            segments.pop();
        }
        assert(segments@ =~= self.spec_parent());
        FsPath { segments }
    }

    /// Whether this location lies strictly below the directory `dir`.
    pub fn is_inside(&self, dir: &FsPath) -> (b: bool)
        ensures
            b == strictly_contains(dir@, self@),
    {
        if dir.segments.len() >= self.segments.len() {
            return false;
        }
        let mut i: usize = 0;
        while i < dir.segments.len()
            invariant
                i <= dir.segments.len(),
                dir@.len() < self@.len(),
                forall|j: int| 0 <= j < i ==> dir@[j] == self@[j],
            decreases dir.segments.len() - i,
        {
            if dir.segments[i] != self.segments[i] {
                return false;
            }
            i = i + 1;
        }
        assert(dir@ =~= self@.subrange(0, dir@.len() as int));
        true
    }

    /// Whether the two locations are the same.
    pub fn same_path(&self, other: &FsPath) -> (b: bool)
        ensures
            b == (self@ == other@),
    {
        u64_vec_eq(&self.segments, &other.segments)
    }
}

} // verus!
