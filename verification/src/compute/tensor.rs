//! Tensor shapes.

use vstd::prelude::*;

verus! {

/// The number of elements of a shape: the product of its dimensions (1
/// for no dimensions).
pub open spec fn dims_product(d: Seq<usize>) -> int
    decreases d.len(),
{
    if d.len() == 0 { 1 } else { dims_product(d.drop_last()) * d.last() }
}

/// Multiplying the dimensions in order never exceeds `usize::MAX`.
pub open spec fn products_fit(d: Seq<usize>) -> bool {
    forall|k: int| 0 <= k <= d.len() ==> #[trigger] dims_product(d.subrange(0, k)) <= usize::MAX
}

/// The shape of a tensor: its dimensions.
#[derive(Debug, Clone, PartialEq, Eq, Hash)]
pub struct TensorShape(pub Vec<usize>);

impl TensorShape {
    /// A shape with the given dimensions.
    pub fn new(dims: Vec<usize>) -> (s: Self)
        ensures
            s.0@ == dims@,
    {
        TensorShape(dims)
    }

    /// The number of elements.
    pub fn size(&self) -> (n: usize)
        requires
            products_fit(self.0@),
        ensures
            n == dims_product(self.0@),
    {
        let d = &self.0;
        let mut n: usize = 1;
        let mut i: usize = 0;
        while i < d.len()
            invariant
                i <= d@.len(),
                n == dims_product(d@.subrange(0, i as int)),
                products_fit(d@),
            decreases d@.len() - i,
        {
            proof {
                assert(d@.subrange(0, i + 1).drop_last() =~= d@.subrange(0, i as int));
                assert(dims_product(d@.subrange(0, i + 1)) <= usize::MAX);
            }
            n = n * d[i];
            i = i + 1;
        }
        assert(d@.subrange(0, d@.len() as int) =~= d@);
        n
    }

    /// The dimensions.
    pub fn dims(&self) -> (d: &[usize])
        ensures
            d@ == self.0@,
    {
        self.0.as_slice()
    }
}

} // verus!
