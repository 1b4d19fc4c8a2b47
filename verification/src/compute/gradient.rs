//! Errors of gradient operations.

use vstd::prelude::*;
use crate::compute::tensor::TensorShape;
use crate::text::{decimal, push_decimal, string_push_str};

verus! {

/// `[d1, d2, ...]`: a list of dimensions as `Debug` prints it.
pub open spec fn dims_text(d: Seq<usize>) -> Seq<char> {
    "["@ + dims_items(d) + "]"@
}

/// The dimensions in decimal, separated by `, `.
pub open spec fn dims_items(d: Seq<usize>) -> Seq<char>
    decreases d.len(),
{
    if d.len() == 0 {
        Seq::empty()
    } else if d.len() == 1 {
        decimal(d[0] as nat)
    } else {
        dims_items(d.drop_last()) + ", "@ + decimal(d.last() as nat)
    }
}

fn push_dims(s: &mut String, d: &Vec<usize>)
    ensures
        final(s)@ == old(s)@ + dims_text(d@),
{
    let ghost s0 = s@;
    string_push_str(s, "[");
    let mut i: usize = 0;
    while i < d.len()
        invariant
            i <= d@.len(),
            s@ == s0 + "["@ + dims_items(d@.subrange(0, i as int)),
        decreases d@.len() - i,
    {
        let ghost before = s@;
        if i > 0 {
            string_push_str(s, ", ");
        }
        push_decimal(s, d[i] as u64);
        proof {
            let p = d@.subrange(0, i + 1);
            assert(p.drop_last() =~= d@.subrange(0, i as int));
            if i == 0 {
                assert(dims_items(d@.subrange(0, 0)) =~= Seq::<char>::empty());
                assert(s@ =~= s0 + "["@ + dims_items(p));
            } else {
                assert(s@ =~= s0 + "["@ + dims_items(p));
            }
        }
        i = i + 1;
    }
    string_push_str(s, "]");
    assert(d@.subrange(0, d@.len() as int) =~= d@);
    assert(s@ =~= s0 + dims_text(d@));
}

/// Errors of gradient operations.
#[derive(Debug, Clone)]
pub enum GradientError {
    LayerNotFound(String),
    ShapeMismatch { expected: TensorShape, got: TensorShape },
    DependencyMissing(String),
}

/// The text of a gradient error.
pub open spec fn gradient_error_text(e: GradientError) -> Seq<char> {
    match e {
        GradientError::LayerNotFound(id) => "Layer not found: "@ + id@,
        GradientError::ShapeMismatch { expected, got } => "Shape mismatch: expected "@ + dims_text(expected.0@)
            + ", got "@ + dims_text(got.0@),
        GradientError::DependencyMissing(id) => "Dependency missing: "@ + id@,
    }
}

impl GradientError {
    /// The error's text.
    pub fn message(&self) -> (s: String)
        ensures
            s@ == gradient_error_text(*self),
    {
        match self {
            GradientError::LayerNotFound(id) => {
                let mut s = String::from_str("Layer not found: ");
                string_push_str(&mut s, id.as_str());
                s
            },
            GradientError::ShapeMismatch { expected, got } => {
                let mut s = String::from_str("Shape mismatch: expected ");
                push_dims(&mut s, &expected.0);
                string_push_str(&mut s, ", got ");
                push_dims(&mut s, &got.0);
                s
            },
            GradientError::DependencyMissing(id) => {
                let mut s = String::from_str("Dependency missing: ");
                string_push_str(&mut s, id.as_str());
                s
            },
        }
    }
}

} // verus!
