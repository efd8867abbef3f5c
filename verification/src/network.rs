//! An ordered ensemble of ten perceptrons, one per decimal digit, deciding
//! which digit a 28x28 grayscale image shows: the first classifier in index
//! order to answer +1 names the digit.

use vstd::prelude::*;

use crate::perceptron::Perceptron;
use crate::{ints_of_u8, CLASSES, PIXELS};

verus! {

/// Exactly ten perceptrons in fixed index order: index `i` is the
/// classifier for digit `i`.
pub struct Network {
    pub neurons: Vec<Perceptron>,
}

/// The index of the first perceptron at or after `j` whose decision on `x`
/// is +1, if any.
pub open spec fn first_fire_from(neurons: Seq<Perceptron>, x: Seq<int>, j: nat) -> Option<int>
    decreases neurons.len() - j,
{
    if j >= neurons.len() {
        None
    } else if neurons[j as int].decision(x) == 1 {
        Some(j as int)
    } else {
        first_fire_from(neurons, x, j + 1)
    }
}

impl Network {
    /// Well-formedness: exactly ten members, each with a 784-long weight
    /// vector within the overflow caps.
    pub open spec fn wf(self) -> bool {
        &&& self.neurons@.len() == CLASSES
        &&& forall|j: int|
            0 <= j < self.neurons@.len() ==> (#[trigger] self.neurons@[j]).weights@.len() == PIXELS
        &&& forall|j: int| 0 <= j < self.neurons@.len() ==> (#[trigger] self.neurons@[j]).wf()
    }

    /// The predicted digit for input `x`: the index of the first classifier
    /// whose decision is +1, or nothing when no classifier fires.
    pub open spec fn predict_spec(self, x: Seq<int>) -> Option<int> {
        first_fire_from(self.neurons@, x, 0)
    }

    /// Given an input vector of 28*28 pixels, returns the predicted digit:
    /// the index of the first classifier in order 0..9 whose output is +1,
    /// or an "undecided" error when none fires. An input of any other length
    /// is a contract violation, excluded by precondition.
    pub fn predict(&self, input: &Vec<u8>) -> (r: Result<u8, &'static str>)
        requires
            self.wf(),
            input@.len() == PIXELS,
        ensures
            self.predict_spec(ints_of_u8(input@)) is Some ==> r is Ok && r->Ok_0 as int
                == self.predict_spec(ints_of_u8(input@))->Some_0,
            self.predict_spec(ints_of_u8(input@)) is None ==> r is Err && r->Err_0@
                == "Could not tell what number is this"@,
    {
        let ghost x = ints_of_u8(input@);
        let mut j: usize = 0;
        while j < CLASSES
            invariant
                self.wf(),
                input@.len() == PIXELS,
                x == ints_of_u8(input@),
                0 <= j <= CLASSES,
                first_fire_from(self.neurons@, x, j as nat) == self.predict_spec(x),
            decreases CLASSES - j,
        {
            if self.neurons[j].compute(input) == 1 {
                return Ok(j as u8);
            }
            j = j + 1;
        }
        Err("Could not tell what number is this")
    }

    /// Creates a network from a vector of exactly ten perceptrons, each with
    /// a 784-long weight vector. Any other shape is a construction-contract
    /// violation, excluded by precondition rather than recovered from.
    pub fn new(neurons: Vec<Perceptron>) -> (n: Network)
        requires
            neurons@.len() == CLASSES,
            forall|j: int|
                0 <= j < neurons@.len() ==> (#[trigger] neurons@[j]).weights@.len() == PIXELS,
            forall|j: int| 0 <= j < neurons@.len() ==> (#[trigger] neurons@[j]).wf(),
        ensures
            n.neurons@ == neurons@,
            n.wf(),
    {
        Network { neurons }
    }
}

} // verus!
