//! Transactional cursors: cheap speculative branches over a shared
//! root resource, with commit-or-discard semantics.
use vstd::prelude::*;

verus! {

/// Cursor data a branch carries: a child starts as a copy of its
/// parent's data, and committing copies the child's data back.
pub trait BranchData: Sized {
    fn child_data(&self) -> (r: Self)
        ensures
            r == *self,
    ;

    fn update_from(&mut self, other: Self)
        ensures
            *final(self) == other,
    ;
}

/// A speculative, rollback-capable cursor used to attempt one grammar
/// alternative. A branch that is never committed vanishes with no
/// effect on its parent.
pub struct Branch<D> {
    pub data: D,
}

/// A root resource that hands out baseline cursor data and can be
/// branched over.
pub trait BranchRoot: Sized {
    type BranchData: BranchData;

    /// The root's own invariant.
    spec fn inv(&self) -> bool;

    /// When cursor data is valid for this root.
    spec fn data_inv(&self, d: Self::BranchData) -> bool;

    /// The baseline cursor data of the root.
    fn data(&self) -> (r: Self::BranchData)
        requires
            self.inv(),
        ensures
            self.data_inv(r),
    ;

    /// A fresh top-level branch seeded from the baseline.
    fn branch(&self) -> (b: Branch<Self::BranchData>)
        requires
            self.inv(),
        ensures
            self.data_inv(b.data),
    ;
}

/// A grammar rule that can be attempted at a branch: on absence the
/// branch's cursor is exactly where it was, so failed alternatives
/// leave no trace.
pub trait Inspect<Root: BranchRoot>: Sized {
    fn inspect(root: &mut Root, branch: &mut Branch<Root::BranchData>) -> (r: Option<Self>)
        requires
            old(root).inv(),
            old(root).data_inv(old(branch).data),
        ensures
            final(root).inv(),
            final(root).data_inv(final(branch).data),
            forall|d: Root::BranchData|
                old(root).data_inv(d) ==> #[trigger] final(root).data_inv(d),
            r is None ==> final(branch).data == old(branch).data,
    ;
}

impl<D: BranchData> Branch<D> {
    /// A child branch: a logical copy of the parent's cursor.
    pub fn new(parent: &Branch<D>) -> (b: Branch<D>)
        ensures
            b.data == parent.data,
    {
        Branch { data: parent.data.child_data() }
    }

    /// A fresh top-level branch seeded from a root's baseline.
    pub fn from_root<R: BranchRoot<BranchData = D>>(root: &R) -> (b: Branch<D>)
        requires
            root.inv(),
        ensures
            root.data_inv(b.data),
    {
        Branch { data: root.data() }
    }

    /// Makes this branch's consumption permanent in the parent.
    pub fn commit(self, parent: &mut Branch<D>)
        ensures
            final(parent).data == self.data,
    {
        parent.data.update_from(self.data);
    }

    /// Attempts one rule on a child branch: a present result commits
    /// the child, an absent one discards it, leaving this branch's
    /// cursor untouched.
    pub fn inspect<R: BranchRoot<BranchData = D>, T: Inspect<R>>(&mut self, root: &mut R) -> (r:
        Option<T>)
        requires
            old(root).inv(),
            old(root).data_inv(old(self).data),
        ensures
            final(root).inv(),
            final(root).data_inv(final(self).data),
            r is None ==> final(self).data == old(self).data,
    {
        let mut child = Branch::new(self);
        let val = match T::inspect(root, &mut child) {
            Some(v) => v,
            None => {
                return None;
            },
        };
        child.commit(self);
        Some(val)
    }
}

} // verus!
