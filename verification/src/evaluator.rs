//! Evaluation of a trained network against the held-out test set: the share
//! of test samples whose predicted digit equals the true label. A sample on
//! which the network is undecided counts as wrong; evaluation never fails.

use vstd::prelude::*;

use crate::network::Network;
use crate::{ints_of_u8, PIXELS};

verus! {

/// Whether the network's prediction on test sample `(features, label)` is
/// correct: it decides, and decides the true label.
pub open spec fn is_hit(net: Network, sample: (Vec<u8>, u8)) -> bool {
    net.predict_spec(ints_of_u8(sample.0@)) == Some(sample.1 as int)
}

/// Number of correct predictions among the test samples from index `i` on.
pub open spec fn hit_count(net: Network, tests: Seq<(Vec<u8>, u8)>, i: nat) -> int
    decreases tests.len() - i,
{
    if i >= tests.len() {
        0
    } else {
        (if is_hit(net, tests[i as int]) {
            1int
        } else {
            0int
        }) + hit_count(net, tests, i + 1)
    }
}

/// The hit count over a suffix never exceeds that suffix's length.
pub proof fn lemma_hit_count_bounds(net: Network, tests: Seq<(Vec<u8>, u8)>, i: nat)
    requires
        i <= tests.len(),
    ensures
        0 <= hit_count(net, tests, i) <= tests.len() - i,
    decreases tests.len() - i,
{
    if i < tests.len() {
        lemma_hit_count_bounds(net, tests, i + 1);
    }
}

/// When every prediction is correct, the hit count is the whole test set.
pub proof fn lemma_hit_count_all_correct(net: Network, tests: Seq<(Vec<u8>, u8)>, i: nat)
    requires
        i <= tests.len(),
        forall|m: int| 0 <= m < tests.len() ==> is_hit(net, #[trigger] tests[m]),
    ensures
        hit_count(net, tests, i) == tests.len() - i,
    decreases tests.len() - i,
{
    if i < tests.len() {
        lemma_hit_count_all_correct(net, tests, i + 1);
    }
}

/// When every prediction is undecided or wrong, the hit count is zero.
pub proof fn lemma_hit_count_none_correct(net: Network, tests: Seq<(Vec<u8>, u8)>, i: nat)
    requires
        i <= tests.len(),
        forall|m: int| 0 <= m < tests.len() ==> !is_hit(net, #[trigger] tests[m]),
    ensures
        hit_count(net, tests, i) == 0,
    decreases tests.len() - i,
{
    if i < tests.len() {
        lemma_hit_count_none_correct(net, tests, i + 1);
    }
}

/// The outcome of an evaluation: how many test samples there were, and on
/// how many of them the prediction was correct.
pub struct Accuracy {
    pub hits: usize,
    pub total: usize,
}

impl Accuracy {
    /// The accuracy as a whole percentage, rounded down:
    /// `100 * hits / total`. An empty test set is defined to give 0 rather
    /// than an undefined division.
    pub fn floor_percent(&self) -> (p: u8)
        requires
            self.hits <= self.total,
        ensures
            self.total == 0 ==> p == 0,
            self.total > 0 ==> p as int == 100 * self.hits as int / self.total as int,
            self.total > 0 && self.hits == self.total ==> p == 100,
            self.hits == 0 ==> p == 0,
    {
        if self.total == 0 {
            0
        } else {
            let q: u128 = 100u128 * (self.hits as u128) / (self.total as u128);
            proof {
                let h = self.hits as int;
                let t = self.total as int;
                assert(100 * h <= 100 * t) by (nonlinear_arith)
                    requires
                        h <= t,
                ;
                vstd::arithmetic::div_mod::lemma_div_is_ordered(100 * h, 100 * t, t);
                vstd::arithmetic::div_mod::lemma_div_multiples_vanish(100, t);
                assert(100 * h / t <= 100);
                vstd::arithmetic::div_mod::lemma_div_pos_is_pos(100 * h, t);
            }
            q as u8
        }
    }
}

/// Tests a trained network with a set of test samples and returns how many
/// predictions were correct: a prediction is correct when the network
/// decides exactly the true label; an undecided prediction counts as wrong.
pub fn test_network(network: &Network, test_data: &Vec<(Vec<u8>, u8)>) -> (acc: Accuracy)
    requires
        network.wf(),
        forall|i: int|
            0 <= i < test_data@.len() ==> (#[trigger] test_data@[i]).0@.len() == PIXELS,
    ensures
        acc.total == test_data@.len(),
        acc.hits as int == hit_count(*network, test_data@, 0),
        acc.hits <= acc.total,
{
    let total = test_data.len();
    let mut hits: usize = 0;
    let mut i: usize = 0;
    while i < total
        invariant
            network.wf(),
            total == test_data@.len(),
            forall|m: int|
                0 <= m < test_data@.len() ==> (#[trigger] test_data@[m]).0@.len() == PIXELS,
            i <= total,
            hits <= i,
            hits as int + hit_count(*network, test_data@, i as nat) == hit_count(
                *network,
                test_data@,
                0,
            ),
        decreases total - i,
    {
        let sample = &test_data[i];
        match network.predict(&sample.0) {
            Ok(digit) => {
                if digit == sample.1 {
                    hits = hits + 1;
                }
            },
            Err(_) => {},
        }
        i = i + 1;
    }
    proof {
        lemma_hit_count_bounds(*network, test_data@, 0);
    }
    Accuracy { hits, total }
}

} // verus!
