//! A single linear binary classifier: a weight vector plus a separate scalar
//! bias, producing a +1/-1 decision.
//!
//! Weights and bias are integer numerators over a fixed positive
//! denominator; the sign of the underlying rational equals the sign of the
//! integer combination computed here.

use vstd::prelude::*;

use crate::{
    dot_spec, dot_u8_i64, ints_of_i64, ints_of_u8, sign_i128, sign_spec, BIAS_LIMIT,
    MAX_WEIGHT_LEN, WEIGHT_LIMIT,
};

verus! {

/// One linear unit: a weight vector over pixel features plus a scalar bias.
/// Immutable once constructed.
pub struct Perceptron {
    pub weights: Vec<i64>,
    pub bias: i64,
}

impl Perceptron {
    /// The weight numerators as mathematical integers.
    pub open spec fn w_ints(self) -> Seq<int> {
        ints_of_i64(self.weights@)
    }

    /// Well-formedness: the magnitudes stay within the caps that rule out
    /// overflow in `compute`.
    pub open spec fn wf(self) -> bool {
        &&& self.weights@.len() <= MAX_WEIGHT_LEN
        &&& forall|k: int|
            0 <= k < self.weights@.len() ==> -WEIGHT_LIMIT <= #[trigger] self.weights@[k]
                <= WEIGHT_LIMIT
        &&& -BIAS_LIMIT <= self.bias <= BIAS_LIMIT
    }

    /// The decision this unit takes on input `x` (as integers): the sign of
    /// `dot(x, W) + b`, with sign of exactly zero resolving to `+1`.
    pub open spec fn decision(self, x: Seq<int>) -> int {
        sign_spec(dot_spec(x, self.w_ints()) + self.bias as int)
    }

    /// Computes the output of a single perceptron as +1 or -1: the sign of
    /// the dot product of the input with the stored weight vector, plus the
    /// bias. An input whose length differs from the weight vector's is a
    /// contract violation, excluded by precondition rather than recovered
    /// from.
    pub fn compute(&self, input: &Vec<u8>) -> (r: i64)
        requires
            self.wf(),
            input@.len() == self.weights@.len(),
        ensures
            r as int == self.decision(ints_of_u8(input@)),
            r == 1 || r == -1,
    {
        let d: i128 = dot_u8_i64(input, &self.weights);
        proof {
            assert(input@.len() as int * 255 * WEIGHT_LIMIT <= MAX_WEIGHT_LEN as int * 255
                * WEIGHT_LIMIT) by (nonlinear_arith)
                requires
                    0 <= input@.len() as int <= MAX_WEIGHT_LEN as int,
            ;
        }
        sign_i128(d + self.bias as i128)
    }

    /// Creates a new perceptron with a single zero weight and zero bias.
    pub fn new() -> (p: Perceptron)
        ensures
            p.weights@.len() == 1,
            p.weights@[0] == 0,
            p.bias == 0,
            p.wf(),
    {
        Perceptron { weights: vec![0], bias: 0 }
    }

    /// Creates a new perceptron consuming a vector with its weight
    /// numerators and a bias numerator.
    pub fn from_vec(w: Vec<i64>, bias: i64) -> (p: Perceptron)
        requires
            w@.len() <= MAX_WEIGHT_LEN,
            forall|k: int| 0 <= k < w@.len() ==> -WEIGHT_LIMIT <= #[trigger] w@[k] <= WEIGHT_LIMIT,
            -BIAS_LIMIT <= bias <= BIAS_LIMIT,
        ensures
            p.weights@ == w@,
            p.bias == bias,
            p.wf(),
    {
        Perceptron { weights: w, bias }
    }
}

} // verus!
