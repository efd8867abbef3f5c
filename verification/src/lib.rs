//! A bank of ten linear binary classifiers ("perceptrons"), one per decimal
//! digit, trained on flattened 28x28 grayscale images supplied as CSV rows,
//! and evaluated on a held-out slice of the same file.
//!
//! Every quantity in the pipeline is an exact rational with a fixed positive
//! denominator: a pixel intensity is `raw / 255` with `raw` in `0 ..= 255`,
//! and a trained weight is `m * (learning_rate / 255)` with an integer
//! numerator `m`. The code stores only the integer numerators. A sign, and
//! hence every classification decision, is invariant under scaling by a
//! positive rational (see `lemma_sign_scale_invariant`), so the numerators
//! alone determine every +1/-1 output, every vote and the final accuracy.

use vstd::prelude::*;

pub mod dataset;
pub mod evaluator;
pub mod network;
pub mod perceptron;
pub mod trainer;

use crate::dataset::{load_error_of, parse, parse_output_ok, LoadError, TrainSet};
use crate::evaluator::{hit_count, test_network, Accuracy};
use crate::network::Network;
use crate::trainer::{init_cols_ok, net_matches_trained, train, zero_network, LearningRate};

verus! {

/// Number of pixels in one flattened 28x28 image.
pub const PIXELS: usize = 784;

/// Number of numeric fields in one CSV row: a label followed by 784 pixels.
/// It is also the length of one training feature row (784 pixels followed by
/// the constant bias feature) and of one weight column (784 pixel weights
/// followed by the bias weight).
pub const ROW_LEN: usize = 785;

/// Number of classifiers in a network: one per decimal digit.
pub const CLASSES: usize = 10;

/// Common denominator of the pipeline's rationals: raw CSV fields range over
/// `0 ..= 255` and are scaled by `1 / 255`, so the constant bias feature
/// (value one) has numerator 255.
pub const SCALE: i64 = 255;

/// Largest weight numerator magnitude a perceptron may hold. Training keeps
/// numerators far below this; the cap only serves to rule out overflow in
/// the dot products.
pub const WEIGHT_LIMIT: i64 = 0x4_0000_0000_0000;

/// Largest bias numerator magnitude a perceptron may hold.
pub const BIAS_LIMIT: i64 = 0x1000_0000_0000_0000;

/// Largest weight-vector length a perceptron may hold.
pub const MAX_WEIGHT_LEN: usize = 0x10_0000;

/// Largest number of training rows a data set may hold: the largest round
/// count for which every weight numerator provably stays within
/// `WEIGHT_LIMIT` over at most 255 epochs (each epoch moves a numerator by
/// at most `2 * 255` per row, so the bound `255 + 510 * rows * epochs`
/// must stay below `WEIGHT_LIMIT`).
pub const MAX_TRAIN_ROWS: u64 = 8_000_000_000;

/// The sign of a quantity: `1` when it is zero or positive, `-1` when it is
/// negative. Zero resolving to `+1` is the convention the whole pipeline
/// shares.
pub open spec fn sign_spec(x: int) -> int {
    if x >= 0 {
        1
    } else {
        -1
    }
}

/// Dot product of two equally long integer sequences.
pub open spec fn dot_spec(a: Seq<int>, b: Seq<int>) -> int
    decreases a.len(),
{
    if a.len() == 0 {
        0
    } else {
        a[0] * b[0] + dot_spec(a.drop_first(), b.drop_first())
    }
}

/// The integers denoted by a sequence of raw byte fields.
pub open spec fn ints_of_u8(s: Seq<u8>) -> Seq<int> {
    s.map_values(|x: u8| x as int)
}

/// The integers denoted by a sequence of weight numerators.
pub open spec fn ints_of_i64(s: Seq<i64>) -> Seq<int> {
    s.map_values(|x: i64| x as int)
}

/// The sign of a rational is the sign of its numerator: scaling by a
/// positive factor never changes a sign. This is why the integer numerators
/// alone determine every decision the pipeline makes, whatever positive
/// learning rate the weights are denominated in.
pub proof fn lemma_sign_scale_invariant(k: int, x: int)
    requires
        k > 0,
    ensures
        sign_spec(k * x) == sign_spec(x),
{
    if x >= 0 {
        assert(k * x >= 0) by (nonlinear_arith)
            requires
                k > 0,
                x >= 0,
        ;
    } else {
        assert(k * x < 0) by (nonlinear_arith)
            requires
                k > 0,
                x < 0,
        ;
    }
}

/// Appending one term to each side extends a dot product by the product of
/// the new terms.
pub proof fn lemma_dot_push(a: Seq<int>, b: Seq<int>, x: int, y: int)
    requires
        a.len() == b.len(),
    ensures
        dot_spec(a.push(x), b.push(y)) == dot_spec(a, b) + x * y,
    decreases a.len(),
{
    if a.len() == 0 {
        assert(a.push(x).drop_first() =~= Seq::<int>::empty());
        assert(b.push(y).drop_first() =~= Seq::<int>::empty());
        assert(a.push(x)[0] == x);
        assert(dot_spec(a.push(x), b.push(y)) == x * y + dot_spec(
            Seq::<int>::empty(),
            Seq::<int>::empty(),
        ));
        assert(dot_spec(a, b) == 0);
    } else {
        assert(a.push(x).drop_first() =~= a.drop_first().push(x));
        assert(b.push(y).drop_first() =~= b.drop_first().push(y));
        lemma_dot_push(a.drop_first(), b.drop_first(), x, y);
        assert(a.push(x)[0] == a[0]);
        assert(b.push(y)[0] == b[0]);
        assert(dot_spec(a.push(x), b.push(y)) == a[0] * b[0] + dot_spec(
            a.drop_first().push(x),
            b.drop_first().push(y),
        ));
    }
}

/// Returns the sign of `x`: `1` for zero or positive, `-1` for negative.
pub fn sign_i128(x: i128) -> (r: i64)
    ensures
        r as int == sign_spec(x as int),
{
    if x >= 0 {
        1
    } else {
        -1
    }
}

/// Dot product of a raw feature vector and a weight-numerator vector,
/// accumulated exactly in 128-bit arithmetic.
pub fn dot_u8_i64(a: &Vec<u8>, b: &Vec<i64>) -> (r: i128)
    requires
        a@.len() == b@.len(),
        a@.len() <= MAX_WEIGHT_LEN,
        forall|k: int| 0 <= k < b@.len() ==> -WEIGHT_LIMIT <= #[trigger] b@[k] <= WEIGHT_LIMIT,
    ensures
        r as int == dot_spec(ints_of_u8(a@), ints_of_i64(b@)),
        -(a@.len() as int * 255 * WEIGHT_LIMIT) <= r as int <= a@.len() as int * 255
            * WEIGHT_LIMIT,
{
    let ghost aa = ints_of_u8(a@);
    let ghost bb = ints_of_i64(b@);
    let mut acc: i128 = 0;
    let n = a.len();
    for k in 0..n
        invariant
            n == a@.len(),
            a@.len() == b@.len(),
            a@.len() <= MAX_WEIGHT_LEN,
            forall|m: int| 0 <= m < b@.len() ==> -WEIGHT_LIMIT <= #[trigger] b@[m] <= WEIGHT_LIMIT,
            aa == ints_of_u8(a@),
            bb == ints_of_i64(b@),
            acc as int == dot_spec(aa.take(k as int), bb.take(k as int)),
            -(k as int * 255 * WEIGHT_LIMIT) <= acc as int <= k as int * 255 * WEIGHT_LIMIT,
    {
        proof {
            assert(aa.take(k + 1) =~= aa.take(k as int).push(aa[k as int]));
            assert(bb.take(k + 1) =~= bb.take(k as int).push(bb[k as int]));
            lemma_dot_push(aa.take(k as int), bb.take(k as int), aa[k as int], bb[k as int]);
            assert(-(255 * WEIGHT_LIMIT) <= aa[k as int] * bb[k as int] <= 255 * WEIGHT_LIMIT)
                by (nonlinear_arith)
                requires
                    0 <= aa[k as int] <= 255,
                    -WEIGHT_LIMIT <= bb[k as int] <= WEIGHT_LIMIT,
            ;
            assert((k + 1) as int * 255 * WEIGHT_LIMIT == k as int * 255 * WEIGHT_LIMIT + 255
                * WEIGHT_LIMIT) by (nonlinear_arith);
            assert(k as int * 255 * WEIGHT_LIMIT <= MAX_WEIGHT_LEN as int * 255 * WEIGHT_LIMIT)
                by (nonlinear_arith)
                requires
                    0 <= k as int <= MAX_WEIGHT_LEN as int,
            ;
        }
        acc = acc + (a[k] as i128) * (b[k] as i128);
    }
    proof {
        assert(aa.take(n as int) =~= aa);
        assert(bb.take(n as int) =~= bb);
    }
    acc
}

/// What a successful pipeline result reports: `ts` is exactly the data set
/// the file parses to, `net` is a network trained on it (the zero network
/// at learning rate zero, otherwise one trained from some admissible
/// random initial matrix), and the accuracy counts exactly that network's
/// correct predictions on the held-out test slice.
pub open spec fn run_witnesses(
    data: Seq<u8>,
    epochs: nat,
    lr: LearningRate,
    acc: Accuracy,
    ts: TrainSet,
    net: Network,
) -> bool {
    &&& parse_output_ok(data, ts)
    &&& net.wf()
    &&& lr.num == 0 ==> zero_network(net)
    &&& lr.num > 0 ==> exists|init: Seq<Seq<int>>|
        #[trigger] init_cols_ok(init) && net_matches_trained(
            net,
            init,
            ts.rows_int(),
            ts.labels_int(),
            epochs,
        )
    &&& acc.total == ts.test_data@.len()
    &&& acc.hits as int == hit_count(net, ts.test_data@, 0)
}

/// A successful pipeline result is witnessed by the parsed data set and a
/// network trained on it.
pub open spec fn run_ok(data: Seq<u8>, epochs: nat, lr: LearningRate, acc: Accuracy) -> bool {
    exists|ts: TrainSet, net: Network| #[trigger] run_witnesses(data, epochs, lr, acc, ts, net)
}

/// The whole pipeline on the contents of a data file: parse, train for the
/// given number of epochs at the given learning rate, and evaluate the
/// trained network on the held-out test slice. Fails exactly when the data
/// does not load, with the load error passed through unchanged; once the
/// data is well-formed, training and evaluation always complete, and the
/// reported accuracy is that of a network trained on the parsed data.
pub fn run(data: &Vec<u8>, epochs: u8, learning_rate: &LearningRate) -> (r: Result<
    Accuracy,
    LoadError,
>)
    requires
        learning_rate.wf(),
    ensures
        r is Ok <==> load_error_of(data@) is None,
        r is Err ==> Some(r->Err_0) == load_error_of(data@),
        r is Ok ==> run_ok(data@, epochs as nat, *learning_rate, r->Ok_0),
{
    match parse(data) {
        Err(e) => Err(e),
        Ok(ts) => {
            let net = train(&ts, epochs, learning_rate);
            let acc = test_network(&net, &ts.test_data);
            proof {
                assert(run_witnesses(data@, epochs as nat, *learning_rate, acc, ts, net));
                assert(run_ok(data@, epochs as nat, *learning_rate, acc));
            }
            Ok(acc)
        },
    }
}

} // verus!
