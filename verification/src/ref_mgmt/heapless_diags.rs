//! A list of diagnostics without allocation.

use vstd::prelude::*;

use crate::ref_mgmt::RefMgmtDiag;

verus! {

/// Most diagnostics the list holds.
pub const MAX: usize = 8;

/// A list of at most eight diagnostics that only grows.
#[derive(Debug, Clone, Copy, PartialEq, Eq)]
pub struct Diags {
    items: [Option<RefMgmtDiag>; 8],
    len: usize,
}

impl View for Diags {
    type V = Seq<RefMgmtDiag>;

    closed spec fn view(&self) -> Seq<RefMgmtDiag> {
        Seq::new(self.len as nat, |i: int| self.items@[i]->0)
    }
}

impl Diags {
    /// The list holds what it counts.
    pub closed spec fn wf(self) -> bool {
        &&& self.len <= 8
        &&& forall|i: int| 0 <= i < self.len ==> #[trigger] self.items@[i] is Some
    }

    /// Adds a diagnostic. A full list stays as it is.
    pub(crate) fn push(&mut self, d: RefMgmtDiag)
        requires
            old(self).wf(),
        ensures
            final(self).wf(),
            final(self)@ == if old(self)@.len() < 8 {
                old(self)@.push(d)
            } else {
                old(self)@
            },
    {
        if self.len < MAX {
            self.items[self.len] = Some(d);
            self.len = self.len + 1;
            assert(self@ =~= old(self)@.push(d));
        }
    }

    /// The diagnostics, in order.
    pub fn as_slice(&self) -> (r: Vec<RefMgmtDiag>)
        requires
            self.wf(),
        ensures
            r@ == self@,
    {
        let mut r: Vec<RefMgmtDiag> = Vec::new();
        let mut i: usize = 0;
        while i < self.len
            invariant
                self.wf(),
                i <= self.len,
                r@ == self@.subrange(0, i as int),
            decreases self.len - i,
        {
            if let Some(d) = self.items[i] {
                r.push(d);
            }
            i = i + 1;
            assert(r@ =~= self@.subrange(0, i as int));
        }
        assert(r@ =~= self@);
        r
    }

    /// Number of diagnostics.
    pub fn len(&self) -> (r: usize)
        requires
            self.wf(),
        ensures
            r == self@.len(),
    {
        self.len
    }

    /// There are none.
    pub fn is_empty(&self) -> (r: bool)
        requires
            self.wf(),
        ensures
            r == (self@.len() == 0),
    {
        self.len == 0
    }

    /// A diagnostic is in the list.
    pub fn contains(&self, d: RefMgmtDiag) -> (r: bool)
        requires
            self.wf(),
        ensures
            r == self@.contains(d),
    {
        let mut i: usize = 0;
        while i < self.len
            invariant
                self.wf(),
                i <= self.len,
                forall|k: int| 0 <= k < i ==> #[trigger] self@[k] != d,
            decreases self.len - i,
        {
            if let Some(x) = self.items[i] {
                if x == d {
                    assert(self@[i as int] == d);
                    return true;
                }
            }
            i = i + 1;
        }
        false
    }
}

impl Default for Diags {
    fn default() -> (r: Self)
        ensures
            r.wf(),
            r@ == Seq::<RefMgmtDiag>::empty(),
    {
        let r: Diags = Diags { items: [None; 8], len: 0 };
        assert(r@ =~= Seq::<RefMgmtDiag>::empty());
        r
    }
}

} // verus!
