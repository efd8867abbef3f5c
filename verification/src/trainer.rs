//! The perceptron learning rule, run for a fixed number of epochs over the
//! training matrix, producing a trained network.
//!
//! Weight columns are integer numerators in units of `learning_rate / 255`.
//! One epoch first takes the sign of `training_matrix . weight_matrix` as a
//! snapshot, then, per class column and per sample in order, adds
//! `(desired - snapshot_sign) * feature_row` to the column in place,
//! immediately. The error signal stays fixed at the epoch-start snapshot
//! while the weights already reflect earlier samples' updates: this
//! semi-batch timing is deliberate and is what `col_pass` pins down.

use vstd::prelude::*;

use crate::dataset::TrainSet;
use crate::network::Network;
use crate::perceptron::Perceptron;
use crate::{
    dot_spec, dot_u8_i64, ints_of_i64, ints_of_u8, sign_i128, sign_spec, BIAS_LIMIT, CLASSES,
    MAX_TRAIN_ROWS, PIXELS, ROW_LEN, SCALE, WEIGHT_LIMIT,
};

verus! {

/// A learning rate in `[0, 1]`, held exactly as the rational `num / den`.
/// A positive learning rate scales every trained weight by the same
/// positive factor and so never changes a decision; a zero learning rate
/// makes every weight zero.
pub struct LearningRate {
    pub num: u32,
    pub den: u32,
}

impl LearningRate {
    /// Well-formedness: a rational in `[0, 1]`.
    pub open spec fn wf(self) -> bool {
        1 <= self.den && self.num <= self.den
    }
}

/// One-vs-rest desired output: `+1` when the sample's label is the class,
/// `-1` otherwise.
pub open spec fn desired_spec(label: int, class: int) -> int {
    if label == class {
        1
    } else {
        -1
    }
}

/// A weight column after one sample's update with coefficient `c`: the
/// feature row `x`, scaled by `c`, added to the column.
pub open spec fn col_update(w: Seq<int>, c: int, x: Seq<int>) -> Seq<int> {
    Seq::new(w.len(), |k: int| w[k] + c * x[k])
}

/// A weight column `w` for class `j` after the updates of samples
/// `i, i+1, ...` of one epoch, where every sample's error coefficient is
/// computed against the epoch-start column `w0` — not against the running
/// column `w` — while the updates themselves land in `w` immediately.
pub open spec fn col_pass(
    w0: Seq<int>,
    w: Seq<int>,
    rows: Seq<Seq<int>>,
    labels: Seq<int>,
    j: int,
    i: nat,
) -> Seq<int>
    decreases rows.len() - i,
{
    if i >= rows.len() {
        w
    } else {
        let c = desired_spec(labels[i as int], j) - sign_spec(dot_spec(rows[i as int], w0));
        col_pass(w0, col_update(w, c, rows[i as int]), rows, labels, j, (i + 1) as nat)
    }
}

/// All weight columns after one epoch.
pub open spec fn epoch_cols(cols: Seq<Seq<int>>, rows: Seq<Seq<int>>, labels: Seq<int>) -> Seq<
    Seq<int>,
> {
    Seq::new(cols.len(), |j: int| col_pass(cols[j], cols[j], rows, labels, j, 0))
}

/// All weight columns after `epochs` epochs from the initial columns.
pub open spec fn trained_cols(
    cols0: Seq<Seq<int>>,
    rows: Seq<Seq<int>>,
    labels: Seq<int>,
    epochs: nat,
) -> Seq<Seq<int>>
    decreases epochs,
{
    if epochs == 0 {
        cols0
    } else {
        epoch_cols(trained_cols(cols0, rows, labels, (epochs - 1) as nat), rows, labels)
    }
}

/// The error coefficient of sample `i` for class `j` in an epoch that
/// started from column `w0`: `desired - sign`, with the sign taken of the
/// epoch-start column.
pub open spec fn err_coef(w0: Seq<int>, rows: Seq<Seq<int>>, labels: Seq<int>, j: int, i: int) -> int {
    desired_spec(labels[i], j) - sign_spec(dot_spec(rows[i], w0))
}

/// Sum over samples `i, i+1, ...` of `err_coef * rows[m][k]`: the total
/// update an epoch adds at weight position `k`.
pub open spec fn delta_sum(
    w0: Seq<int>,
    rows: Seq<Seq<int>>,
    labels: Seq<int>,
    j: int,
    k: int,
    i: nat,
) -> int
    decreases rows.len() - i,
{
    if i >= rows.len() {
        0
    } else {
        err_coef(w0, rows, labels, j, i as int) * rows[i as int][k] + delta_sum(
            w0,
            rows,
            labels,
            j,
            k,
            (i + 1) as nat,
        )
    }
}

proof fn lemma_col_pass_delta_sum(
    w0: Seq<int>,
    w: Seq<int>,
    rows: Seq<Seq<int>>,
    labels: Seq<int>,
    j: int,
    k: int,
    i: nat,
)
    requires
        0 <= k < w.len(),
    ensures
        col_pass(w0, w, rows, labels, j, i)[k] == w[k] + delta_sum(w0, rows, labels, j, k, i),
    decreases rows.len() - i,
{
    if i < rows.len() {
        let c = desired_spec(labels[i as int], j) - sign_spec(dot_spec(rows[i as int], w0));
        lemma_col_pass_delta_sum(
            w0,
            col_update(w, c, rows[i as int]),
            rows,
            labels,
            j,
            k,
            (i + 1) as nat,
        );
    }
}

/// The law the epoch timing obeys: after one epoch, position `k` of class
/// `j`'s column has changed by the sum, over all samples, of
/// `(desired - sign) * feature`, where every sample's sign is the one taken
/// of the start-of-epoch column — even though each sample's update lands in
/// the running column immediately. No sample's update ever feeds into
/// another sample's error signal within the same epoch.
pub proof fn lemma_epoch_uses_start_signs(
    cols: Seq<Seq<int>>,
    rows: Seq<Seq<int>>,
    labels: Seq<int>,
    j: int,
    k: int,
)
    requires
        0 <= j < cols.len(),
        0 <= k < cols[j].len(),
    ensures
        epoch_cols(cols, rows, labels)[j][k] == cols[j][k] + delta_sum(
            cols[j],
            rows,
            labels,
            j,
            k,
            0,
        ),
{
    lemma_col_pass_delta_sum(cols[j], cols[j], rows, labels, j, k, 0);
}

/// Relies on rand::random_range: returns a value sampled from the given
/// range, which here is constant and non-empty. Nothing more is assumed of
/// a random value than its range.
#[verifier::external_body]
fn random_init_weight() -> (r: i64)
    ensures
        0 <= r <= SCALE,
{
    rand::random_range(0..=SCALE)
}

/// A sequence of weight columns as integer sequences.
pub open spec fn cols_int(v: Seq<Vec<i64>>) -> Seq<Seq<int>> {
    v.map_values(|c: Vec<i64>| ints_of_i64(c@))
}

/// Shape of a set of weight columns: one column of length 785 per class.
pub open spec fn cols_shape(v: Seq<Vec<i64>>) -> bool {
    &&& v.len() == CLASSES
    &&& forall|j: int| 0 <= j < v.len() ==> (#[trigger] v[j])@.len() == ROW_LEN
}

/// All weight numerators bounded in magnitude by `b`.
pub open spec fn cols_bounded(v: Seq<Vec<i64>>, b: int) -> bool {
    forall|j: int, k: int|
        0 <= j < v.len() && 0 <= k < v[j]@.len() ==> -b <= #[trigger] v[j]@[k] <= b
}

/// The sign of `training_matrix . weight_matrix`, one row of ten signs per
/// training sample, taken as the epoch-start snapshot.
fn compute_signs(cols: &Vec<Vec<i64>>, ts: &TrainSet) -> (signs: Vec<Vec<i64>>)
    requires
        ts.wf(),
        cols_shape(cols@),
        cols_bounded(cols@, WEIGHT_LIMIT as int),
    ensures
        signs@.len() == ts.input_data@.len(),
        forall|i: int| 0 <= i < signs@.len() ==> (#[trigger] signs@[i])@.len() == CLASSES,
        forall|i: int, j: int|
            0 <= i < signs@.len() && 0 <= j < CLASSES ==> #[trigger] signs@[i]@[j] == sign_spec(
                dot_spec(ts.rows_int()[i], cols_int(cols@)[j]),
            ),
{
    let n = ts.input_data.len();
    let mut signs: Vec<Vec<i64>> = Vec::new();
    for i in 0..n
        invariant
            ts.wf(),
            cols_shape(cols@),
            cols_bounded(cols@, WEIGHT_LIMIT as int),
            n == ts.input_data@.len(),
            signs@.len() == i,
            forall|m: int| 0 <= m < i ==> (#[trigger] signs@[m])@.len() == CLASSES,
            forall|m: int, j: int|
                0 <= m < i && 0 <= j < CLASSES ==> #[trigger] signs@[m]@[j] == sign_spec(
                    dot_spec(ts.rows_int()[m], cols_int(cols@)[j]),
                ),
    {
        let mut srow: Vec<i64> = Vec::new();
        for j in 0..CLASSES
            invariant
                ts.wf(),
                cols_shape(cols@),
                cols_bounded(cols@, WEIGHT_LIMIT as int),
                n == ts.input_data@.len(),
                i < n,
                srow@.len() == j,
                forall|m: int|
                    0 <= m < j ==> #[trigger] srow@[m] == sign_spec(
                        dot_spec(ts.rows_int()[i as int], cols_int(cols@)[m]),
                    ),
        {
            let d: i128 = dot_u8_i64(&ts.input_data[i], &cols[j]);
            srow.push(sign_i128(d));
        }
        signs.push(srow);
    }
    signs
}

/// Runs the updates of one epoch on one class column, in place: per sample
/// in order, adds `(desired - snapshot_sign) * feature_row` to the column,
/// immediately, while every sample's snapshot sign stays the one taken of
/// the epoch-start column `w0`.
fn pass_column(
    col: &mut Vec<i64>,
    ts: &TrainSet,
    j: usize,
    signs: &Vec<Vec<i64>>,
    Ghost(w0): Ghost<Seq<int>>,
    Ghost(bound): Ghost<int>,
)
    requires
        ts.wf(),
        j < CLASSES,
        old(col)@.len() == ROW_LEN,
        ints_of_i64(old(col)@) == w0,
        signs@.len() == ts.input_data@.len(),
        forall|i: int| 0 <= i < signs@.len() ==> (#[trigger] signs@[i])@.len() == CLASSES,
        forall|i: int|
            0 <= i < signs@.len() ==> #[trigger] signs@[i]@[j as int] == sign_spec(
                dot_spec(ts.rows_int()[i], w0),
            ),
        bound >= 0,
        bound + 510 * ts.input_data@.len() <= WEIGHT_LIMIT,
        forall|k: int| 0 <= k < old(col)@.len() ==> -bound <= #[trigger] old(col)@[k] <= bound,
    ensures
        final(col)@.len() == ROW_LEN,
        ints_of_i64(final(col)@) == col_pass(
            w0,
            w0,
            ts.rows_int(),
            ts.labels_int(),
            j as int,
            0,
        ),
        forall|k: int|
            0 <= k < final(col)@.len() ==> -(bound + 510 * ts.input_data@.len() as int)
                <= #[trigger] final(col)@[k] <= bound + 510 * ts.input_data@.len() as int,
{
    let ghost rows = ts.rows_int();
    let ghost labels = ts.labels_int();
    let n = ts.input_data.len();
    let mut i: usize = 0;
    while i < n
        invariant
            ts.wf(),
            j < CLASSES,
            n == ts.input_data@.len(),
            rows == ts.rows_int(),
            labels == ts.labels_int(),
            i <= n,
            col@.len() == ROW_LEN,
            signs@.len() == n,
            forall|m: int| 0 <= m < n ==> (#[trigger] signs@[m])@.len() == CLASSES,
            forall|m: int|
                0 <= m < n ==> #[trigger] signs@[m]@[j as int] == sign_spec(
                    dot_spec(rows[m], w0),
                ),
            bound >= 0,
            bound + 510 * n <= WEIGHT_LIMIT,
            forall|k: int|
                0 <= k < col@.len() ==> -(bound + 510 * i) <= #[trigger] col@[k] <= bound + 510
                    * i,
            col_pass(w0, ints_of_i64(col@), rows, labels, j as int, i as nat) == col_pass(
                w0,
                w0,
                rows,
                labels,
                j as int,
                0,
            ),
        decreases n - i,
    {
        let d: i64 = if ts.desired_result[i] == (j as u8) {
            1
        } else {
            -1
        };
        let s: i64 = signs[i][j];
        let c: i64 = d - s;
        let ghost w_before = ints_of_i64(col@);
        let ghost x = rows[i as int];
        proof {
            assert(x == ints_of_u8(ts.input_data@[i as int]@));
            assert(s as int == sign_spec(dot_spec(x, w0)));
            assert(d as int == desired_spec(labels[i as int], j as int));
            assert(c as int == err_coef(w0, rows, labels, j as int, i as int));
        }
        if c != 0 {
            let mut updated: Vec<i64> = Vec::new();
            let row = &ts.input_data[i];
            for k in 0..ROW_LEN
                invariant
                    ts.wf(),
                    i < n,
                    n == ts.input_data@.len(),
                    row@ == ts.input_data@[i as int]@,
                    row@.len() == ROW_LEN,
                    x == ints_of_u8(row@),
                    col@.len() == ROW_LEN,
                    -2 <= c <= 2,
                    w_before == ints_of_i64(col@),
                    bound >= 0,
                    bound + 510 * n <= WEIGHT_LIMIT,
                    i + 1 <= n,
                    forall|m: int|
                        0 <= m < col@.len() ==> -(bound + 510 * i) <= #[trigger] col@[m] <= bound
                            + 510 * i,
                    updated@.len() == k,
                    forall|m: int|
                        0 <= m < k ==> #[trigger] updated@[m] == col@[m] + c * row@[m],
            {
                let xv: i64 = row[k] as i64;
                let cur: i64 = col[k];
                proof {
                    assert(-510 <= c * xv <= 510) by (nonlinear_arith)
                        requires
                            -2 <= c <= 2,
                            0 <= xv <= 255,
                    ;
                }
                updated.push(cur + c * xv);
            }
            *col = updated;
            proof {
                assert(ints_of_i64(col@) =~= col_update(w_before, c as int, x));
            }
        } else {
            proof {
                assert(ints_of_i64(col@) =~= col_update(w_before, 0, x));
            }
        }
        proof {
            assert(col_pass(w0, w_before, rows, labels, j as int, i as nat) == col_pass(
                w0,
                col_update(w_before, c as int, x),
                rows,
                labels,
                j as int,
                (i + 1) as nat,
            ));
            assert forall|m: int| 0 <= m < col@.len() implies -(bound + 510 * (i + 1))
                <= #[trigger] col@[m] <= bound + 510 * (i + 1) by {
                assert(-510 <= (c as int) * x[m] <= 510) by (nonlinear_arith)
                    requires
                        -2 <= c as int <= 2,
                        0 <= x[m] <= 255,
                ;
            }
        }
        i = i + 1;
    }
}

/// Runs one epoch in place: takes the sign snapshot of
/// `training_matrix . weight_matrix` once, from the weights at epoch start,
/// then updates each class column per sample against that fixed snapshot.
fn run_epoch(cols: &mut Vec<Vec<i64>>, ts: &TrainSet, Ghost(bound): Ghost<int>)
    requires
        ts.wf(),
        cols_shape(old(cols)@),
        bound >= 0,
        bound + 510 * ts.input_data@.len() <= WEIGHT_LIMIT,
        cols_bounded(old(cols)@, bound),
    ensures
        cols_shape(final(cols)@),
        cols_int(final(cols)@) == epoch_cols(
            cols_int(old(cols)@),
            ts.rows_int(),
            ts.labels_int(),
        ),
        cols_bounded(final(cols)@, bound + 510 * ts.input_data@.len()),
{
    let ghost rows = ts.rows_int();
    let ghost labels = ts.labels_int();
    let ghost start = cols_int(old(cols)@);
    let ghost n = ts.input_data@.len() as int;
    proof {
        assert(cols_bounded(cols@, WEIGHT_LIMIT as int));
    }
    let signs = compute_signs(cols, ts);
    let mut j: usize = 0;
    while j < CLASSES
        invariant
            ts.wf(),
            rows == ts.rows_int(),
            labels == ts.labels_int(),
            n == ts.input_data@.len() as int,
            j <= CLASSES,
            cols@.len() == CLASSES,
            start.len() == CLASSES,
            bound >= 0,
            bound + 510 * n <= WEIGHT_LIMIT,
            signs@.len() == n,
            forall|i: int| 0 <= i < n ==> (#[trigger] signs@[i])@.len() == CLASSES,
            forall|i: int, m: int|
                0 <= i < n && 0 <= m < CLASSES ==> #[trigger] signs@[i]@[m] == sign_spec(
                    dot_spec(rows[i], start[m]),
                ),
            forall|m: int| 0 <= m < CLASSES ==> (#[trigger] cols@[m])@.len() == ROW_LEN,
            forall|m: int| j <= m < CLASSES ==> ints_of_i64(#[trigger] cols@[m]@) == start[m],
            forall|m: int, k: int|
                j <= m < CLASSES && 0 <= k < cols@[m]@.len() ==> -bound <= #[trigger] cols@[m]@[k]
                    <= bound,
            forall|m: int|
                0 <= m < j ==> ints_of_i64(#[trigger] cols@[m]@) == col_pass(
                    start[m],
                    start[m],
                    rows,
                    labels,
                    m,
                    0,
                ),
            forall|m: int, k: int|
                0 <= m < j && 0 <= k < cols@[m]@.len() ==> -(bound + 510 * n)
                    <= #[trigger] cols@[m]@[k] <= bound + 510 * n,
        decreases CLASSES - j,
    {
        let ghost cols_before = cols@;
        let mut col = cols.remove(j);
        pass_column(&mut col, ts, j, &signs, Ghost(start[j as int]), Ghost(bound));
        cols.insert(j, col);
        proof {
            assert(cols@ =~= cols_before.update(j as int, col));
        }
        j = j + 1;
    }
    proof {
        assert(cols_int(cols@) =~= epoch_cols(start, rows, labels));
    }
}

/// An admissible initial weight matrix: ten columns of length 785 whose
/// numerators lie in `0 ..= 255`, that is, whose values lie in
/// `[0, learning_rate]` — mirroring a random fill of `[0, 1)` scaled into
/// the training lattice.
pub open spec fn init_cols_ok(init: Seq<Seq<int>>) -> bool {
    &&& init.len() == CLASSES
    &&& forall|j: int| 0 <= j < init.len() ==> (#[trigger] init[j]).len() == ROW_LEN
    &&& forall|j: int, k: int|
        0 <= j < init.len() && 0 <= k < init[j].len() ==> 0 <= #[trigger] init[j][k] <= SCALE
}

/// The network is the trained weight matrix, sliced: perceptron `j` holds
/// positions `0 ..= 783` of class `j`'s trained column as its weights, and
/// the bias-row weight (position 784) as its bias — restated over the 255
/// times finer denominator of the test feature vectors, hence the factor
/// 255.
pub open spec fn net_matches_trained(
    net: Network,
    init: Seq<Seq<int>>,
    rows: Seq<Seq<int>>,
    labels: Seq<int>,
    epochs: nat,
) -> bool {
    forall|j: int|
        0 <= j < CLASSES ==> {
            let tc = trained_cols(init, rows, labels, epochs)[j];
            &&& (#[trigger] net.neurons@[j]).w_ints() == tc.subrange(0, PIXELS as int)
            &&& net.neurons@[j].bias as int == SCALE * tc[PIXELS as int]
        }
}

/// Every weight and bias numerator of the network is zero.
pub open spec fn zero_network(net: Network) -> bool {
    &&& forall|j: int, k: int|
        0 <= j < net.neurons@.len() && 0 <= k < net.neurons@[j].weights@.len()
            ==> #[trigger] net.neurons@[j].weights@[k] == 0
    &&& forall|j: int| 0 <= j < net.neurons@.len() ==> (#[trigger] net.neurons@[j]).bias == 0
}

/// Trains from a given initial weight matrix: runs exactly `epochs` epochs
/// of the semi-batch update rule, then slices the trained matrix into ten
/// perceptrons. Deterministic in its arguments; `train` feeds it the random
/// initial fill.
pub fn train_from(init: Vec<Vec<i64>>, ts: &TrainSet, epochs: u8) -> (net: Network)
    requires
        ts.wf(),
        cols_shape(init@),
        cols_bounded(init@, SCALE as int),
    ensures
        net.wf(),
        net_matches_trained(
            net,
            cols_int(init@),
            ts.rows_int(),
            ts.labels_int(),
            epochs as nat,
        ),
{
    let ghost init0 = cols_int(init@);
    let ghost rows = ts.rows_int();
    let ghost labels = ts.labels_int();
    let n = ts.input_data.len();
    let mut cols = init;
    let mut e: u8 = 0;
    while e < epochs
        invariant
            ts.wf(),
            rows == ts.rows_int(),
            labels == ts.labels_int(),
            n == ts.input_data@.len(),
            e <= epochs,
            cols_shape(cols@),
            cols_int(cols@) == trained_cols(init0, rows, labels, e as nat),
            cols_bounded(cols@, 255 + 510 * (n as int) * (e as int)),
        decreases epochs - e,
    {
        let ghost bound = 255 + 510 * (n as int) * (e as int);
        proof {
            assert(0 <= 510 * (n as int) * (e as int) && bound + 510 * (n as int) == 255 + 510 * (
            n as int) * ((e + 1) as int) && 255 + 510 * (n as int) * ((e + 1) as int)
                <= WEIGHT_LIMIT) by (nonlinear_arith)
                requires
                    0 <= n as int <= MAX_TRAIN_ROWS as int,
                    0 <= e as int <= 255,
                    bound == 255 + 510 * (n as int) * (e as int),
            ;
        }
        run_epoch(&mut cols, ts, Ghost(bound));
        e = e + 1;
    }
    let ghost fbound = 255 + 510 * (n as int) * (epochs as int);
    proof {
        assert(0 <= 510 * (n as int) * (epochs as int) && fbound <= WEIGHT_LIMIT && SCALE * fbound
            <= BIAS_LIMIT && -(SCALE * fbound) >= -BIAS_LIMIT) by (nonlinear_arith)
            requires
                0 <= n as int <= MAX_TRAIN_ROWS as int,
                0 <= epochs as int <= 255,
                fbound == 255 + 510 * (n as int) * (epochs as int),
        ;
    }
    let ghost tc = trained_cols(init0, rows, labels, epochs as nat);
    let mut neurons: Vec<Perceptron> = Vec::new();
    let mut j: usize = 0;
    while j < CLASSES
        invariant
            cols_shape(cols@),
            cols_int(cols@) == tc,
            cols_bounded(cols@, fbound),
            0 <= fbound <= WEIGHT_LIMIT,
            0 <= SCALE * fbound <= BIAS_LIMIT,
            j <= CLASSES,
            neurons@.len() == j,
            forall|m: int|
                0 <= m < j ==> {
                    &&& (#[trigger] neurons@[m]).wf()
                    &&& neurons@[m].weights@.len() == PIXELS
                    &&& neurons@[m].w_ints() == tc[m].subrange(0, PIXELS as int)
                    &&& neurons@[m].bias as int == SCALE * tc[m][PIXELS as int]
                },
        decreases CLASSES - j,
    {
        let mut w: Vec<i64> = Vec::new();
        let mut k: usize = 0;
        while k < PIXELS
            invariant
                cols_shape(cols@),
                cols_bounded(cols@, fbound),
                0 <= fbound <= WEIGHT_LIMIT,
                j < CLASSES,
                k <= PIXELS,
                w@.len() == k,
                forall|m: int| 0 <= m < k ==> #[trigger] w@[m] == cols@[j as int]@[m],
            decreases PIXELS - k,
        {
            w.push(cols[j][k]);
            k = k + 1;
        }
        let bias: i64 = SCALE * cols[j][PIXELS];
        let ghost wv = w@;
        let p = Perceptron::from_vec(w, bias);
        proof {
            assert(ints_of_i64(wv) =~= tc[j as int].subrange(0, PIXELS as int));
        }
        neurons.push(p);
        j = j + 1;
    }
    Network::new(neurons)
}

/// Trains a network on the data set for the given number of epochs at the
/// given learning rate. The weight matrix starts from an independent random
/// fill of values in `[0, learning_rate]`; a positive learning rate scales
/// every weight value uniformly and so leaves every decision of the trained
/// network the same, while a zero learning rate makes every weight value
/// exactly zero.
pub fn train(ts: &TrainSet, epochs: u8, learning_rate: &LearningRate) -> (net: Network)
    requires
        ts.wf(),
        learning_rate.wf(),
    ensures
        net.wf(),
        learning_rate.num == 0 ==> zero_network(net),
        learning_rate.num > 0 ==> exists|init: Seq<Seq<int>>|
            #[trigger] init_cols_ok(init) && net_matches_trained(
                net,
                init,
                ts.rows_int(),
                ts.labels_int(),
                epochs as nat,
            ),
{
    if learning_rate.num == 0 {
        let mut neurons: Vec<Perceptron> = Vec::new();
        let mut j: usize = 0;
        while j < CLASSES
            invariant
                j <= CLASSES,
                neurons@.len() == j,
                forall|m: int|
                    0 <= m < j ==> {
                        &&& (#[trigger] neurons@[m]).wf()
                        &&& neurons@[m].weights@.len() == PIXELS
                        &&& neurons@[m].bias == 0
                        &&& forall|k: int|
                            0 <= k < PIXELS ==> neurons@[m].weights@[k] == 0
                    },
            decreases CLASSES - j,
        {
            let mut w: Vec<i64> = Vec::new();
            let mut k: usize = 0;
            while k < PIXELS
                invariant
                    k <= PIXELS,
                    w@.len() == k,
                    forall|m: int| 0 <= m < k ==> #[trigger] w@[m] == 0,
                decreases PIXELS - k,
            {
                w.push(0);
                k = k + 1;
            }
            neurons.push(Perceptron::from_vec(w, 0));
            j = j + 1;
        }
        Network::new(neurons)
    } else {
        let mut init: Vec<Vec<i64>> = Vec::new();
        let mut j: usize = 0;
        while j < CLASSES
            invariant
                j <= CLASSES,
                init@.len() == j,
                forall|m: int| 0 <= m < j ==> (#[trigger] init@[m])@.len() == ROW_LEN,
                forall|m: int, k: int|
                    0 <= m < j && 0 <= k < init@[m]@.len() ==> 0 <= #[trigger] init@[m]@[k]
                        <= SCALE,
            decreases CLASSES - j,
        {
            let mut c: Vec<i64> = Vec::new();
            let mut k: usize = 0;
            while k < ROW_LEN
                invariant
                    k <= ROW_LEN,
                    c@.len() == k,
                    forall|m: int| 0 <= m < k ==> 0 <= #[trigger] c@[m] <= SCALE,
                decreases ROW_LEN - k,
            {
                c.push(random_init_weight());
                k = k + 1;
            }
            init.push(c);
            j = j + 1;
        }
        let ghost ginit = cols_int(init@);
        proof {
            assert(init_cols_ok(ginit));
        }
        train_from(init, ts, epochs)
    }
}

} // verus!
