use perceptron::dataset::{parse, LoadError, TrainSet};
use perceptron::evaluator::{test_network, Accuracy};
use perceptron::network::Network;
use perceptron::perceptron::Perceptron;
use perceptron::run;
use perceptron::trainer::{train, train_from, LearningRate};

/// One CSV row: a label, a first pixel, then 783 zero pixels.
fn csv_row(label: u8, first_pixel: u8) -> String {
    let mut s = format!("{},{}", label, first_pixel);
    for _ in 0..783 {
        s.push_str(",0");
    }
    s
}

fn zero_cols() -> Vec<Vec<i64>> {
    let mut cols = Vec::new();
    for _ in 0..10 {
        cols.push(vec![0i64; 785]);
    }
    cols
}

/// A perceptron that never fires (negative bias, zero weights).
fn silent_neuron() -> Perceptron {
    Perceptron::from_vec(vec![0; 784], -1)
}

/// A perceptron that always fires (positive bias, zero weights).
fn eager_neuron() -> Perceptron {
    Perceptron::from_vec(vec![0; 784], 1)
}

#[test]
fn test_perceptron_computation() {
    // Check correct computation (inner product)
    let input = vec![1u8, 2, 3];
    let bias: i64 = 10;
    let p = Perceptron::from_vec(vec![1; 3], bias);

    assert_eq!(1, p.compute(&input));
}

#[test]
fn perceptron_sign_of_zero_is_positive() {
    // dot = 1*2 - 2*1 = 0, bias 0: the sign of exactly zero is +1.
    let p = Perceptron::from_vec(vec![2, -1], 0);
    assert_eq!(1, p.compute(&vec![1u8, 2]));
    // A strictly negative combination gives -1.
    let q = Perceptron::from_vec(vec![-1, -1], 1);
    assert_eq!(-1, q.compute(&vec![1u8, 2]));
}

#[test]
fn perceptron_new_is_single_zero_weight() {
    let p = Perceptron::new();
    assert_eq!(p.weights, vec![0i64]);
    assert_eq!(p.bias, 0);
    assert_eq!(1, p.compute(&vec![9u8]));
}

#[test]
fn network_first_positive_match_wins() {
    let mut neurons = Vec::new();
    for j in 0..10 {
        if j == 2 || j == 5 {
            neurons.push(eager_neuron());
        } else {
            neurons.push(silent_neuron());
        }
    }
    let net = Network::new(neurons);
    assert_eq!(Ok(2), net.predict(&vec![0u8; 784]));
}

#[test]
fn network_undecided_when_no_neuron_fires() {
    let mut neurons = Vec::new();
    for _ in 0..10 {
        neurons.push(silent_neuron());
    }
    let net = Network::new(neurons);
    assert_eq!(
        Err("Could not tell what number is this"),
        net.predict(&vec![0u8; 784])
    );
}

#[test]
fn parse_splits_twenty_percent_to_test() {
    let mut text = String::new();
    for i in 0..5u8 {
        text.push_str(&csv_row(i, 10 + i));
        text.push('\n');
    }
    let ts = parse(&text.into_bytes()).unwrap();
    // floor(5 * 0.2) = 1 test row: the first in file order.
    assert_eq!(1, ts.test_data.len());
    assert_eq!(4, ts.input_data.len());
    assert_eq!(4, ts.desired_result.len());
    // Test vectors are 784 long (bias feature stripped).
    assert_eq!(784, ts.test_data[0].0.len());
    // Training rows are 785 long (bias feature retained).
    for row in &ts.input_data {
        assert_eq!(785, row.len());
    }
}

#[test]
fn parse_round_trips_labels_and_pixels() {
    let mut text = String::new();
    text.push_str(&csv_row(9, 200));
    for i in 0..4u8 {
        text.push(' ');
        text.push_str(&csv_row(i, 50 + i));
    }
    let ts = parse(&text.into_bytes()).unwrap();
    // The first row lands in the test partition: feature vector is the raw
    // pixels (numerators of pixel/255), label recovered exactly.
    assert_eq!(9, ts.test_data[0].1);
    assert_eq!(200, ts.test_data[0].0[0]);
    assert_eq!(0, ts.test_data[0].0[1]);
    // The remaining rows land in training: 784 pixels then the constant
    // bias feature (numerator 255, value one); labels in a parallel vector.
    for i in 0..4usize {
        assert_eq!(i as u8, ts.desired_result[i]);
        assert_eq!(50 + i as u8, ts.input_data[i][0]);
        assert_eq!(0, ts.input_data[i][1]);
        assert_eq!(255, ts.input_data[i][784]);
    }
}

#[test]
fn parse_accepts_one_trailing_comma() {
    let mut text = csv_row(3, 7);
    text.push(',');
    let ts = parse(&text.into_bytes()).unwrap();
    assert_eq!(1, ts.test_data.len() + ts.input_data.len());
}

#[test]
fn parse_empty_input_gives_empty_dataset() {
    let ts = parse(&Vec::new()).unwrap();
    assert_eq!(0, ts.test_data.len());
    assert_eq!(0, ts.input_data.len());
}

#[test]
fn parse_rejects_non_numeric_field() {
    let text = csv_row(1, 2).replace("1,2", "1,abc");
    assert_eq!(
        Err(LoadError::MalformedField),
        parse(&text.into_bytes()).map(|_| ())
    );
}

#[test]
fn parse_rejects_field_out_of_range() {
    let text = csv_row(1, 2).replace("1,2,", "1,300,");
    assert_eq!(
        Err(LoadError::MalformedField),
        parse(&text.into_bytes()).map(|_| ())
    );
}

#[test]
fn parse_rejects_empty_field() {
    let text = csv_row(1, 2).replace("1,2,", "1,,");
    assert_eq!(
        Err(LoadError::MalformedField),
        parse(&text.into_bytes()).map(|_| ())
    );
}

#[test]
fn parse_rejects_jagged_rows() {
    let mut text = csv_row(0, 1);
    text.push('\n');
    text.push_str("1,2,3");
    assert_eq!(
        Err(LoadError::ShapeMismatch),
        parse(&text.into_bytes()).map(|_| ())
    );
}

#[test]
fn trainer_uses_start_of_epoch_signs() {
    // Two identical samples, labels 5 and 0, zero initial weights, one
    // epoch. With the epoch-start snapshot every sign is +1 (sign of zero):
    //   class 0: sample 0 (label 5) gives delta -2, sample 1 (label 0)
    //   gives delta 1 - 1 = 0, so the column stays at -2 * features.
    // A fully online rule would see the sign flip to -1 after sample 0 and
    // add +2 * features back, leaving class 0's column at zero.
    let mut row = vec![0u8; 785];
    row[0] = 1;
    row[784] = 255;
    let ts = TrainSet {
        input_data: vec![row.clone(), row.clone()],
        desired_result: vec![5, 0],
        test_data: vec![],
    };
    let net = train_from(zero_cols(), &ts, 1);
    // Class 0: one update with coefficient -2.
    assert_eq!(-2, net.neurons[0].weights[0]);
    assert_eq!(0, net.neurons[0].weights[1]);
    assert_eq!(255 * (-2 * 255), net.neurons[0].bias);
    // Class 5: its own sample contributes 0, the other -2.
    assert_eq!(-2, net.neurons[5].weights[0]);
    assert_eq!(255 * (-2 * 255), net.neurons[5].bias);
    // Any other class: both samples contribute -2.
    assert_eq!(-4, net.neurons[2].weights[0]);
    assert_eq!(255 * (-4 * 255), net.neurons[2].bias);
}

#[test]
fn trainer_runs_every_epoch() {
    // Same data as above, two epochs. In epoch 2 the class 0 column starts
    // at -2 * x, every dot is negative, so sample 0 (desired -1) adds 0 and
    // sample 1 (desired +1) adds +2 * x, returning the column to zero.
    let mut row = vec![0u8; 785];
    row[0] = 1;
    row[784] = 255;
    let ts = TrainSet {
        input_data: vec![row.clone(), row.clone()],
        desired_result: vec![5, 0],
        test_data: vec![],
    };
    let net = train_from(zero_cols(), &ts, 2);
    assert_eq!(0, net.neurons[0].weights[0]);
    assert_eq!(0, net.neurons[0].bias);
}

#[test]
fn train_zero_learning_rate_gives_zero_network() {
    let ts = TrainSet {
        input_data: vec![],
        desired_result: vec![],
        test_data: vec![],
    };
    let lr = LearningRate { num: 0, den: 100 };
    let net = train(&ts, 50, &lr);
    for neuron in &net.neurons {
        assert_eq!(0, neuron.bias);
        assert!(neuron.weights.iter().all(|w| *w == 0));
    }
}

#[test]
fn train_initial_weights_stay_in_range() {
    // With zero epochs the network is exactly the random initial fill:
    // every numerator must lie in 0 ..= 255 (values in [0, learning_rate]).
    let ts = TrainSet {
        input_data: vec![],
        desired_result: vec![],
        test_data: vec![],
    };
    let lr = LearningRate { num: 1, den: 100 };
    let net = train(&ts, 0, &lr);
    assert_eq!(10, net.neurons.len());
    for neuron in &net.neurons {
        assert_eq!(784, neuron.weights.len());
        assert!(neuron.weights.iter().all(|w| 0 <= *w && *w <= 255));
        assert!(0 <= neuron.bias && neuron.bias <= 255 * 255);
    }
}

#[test]
fn evaluator_all_correct_is_hundred_percent() {
    let mut neurons = vec![eager_neuron()];
    for _ in 0..9 {
        neurons.push(silent_neuron());
    }
    let net = Network::new(neurons);
    let tests = vec![(vec![0u8; 784], 0u8), (vec![1u8; 784], 0u8)];
    let acc = test_network(&net, &tests);
    assert_eq!(2, acc.hits);
    assert_eq!(2, acc.total);
    assert_eq!(100, acc.floor_percent());
}

#[test]
fn evaluator_all_wrong_is_zero_percent() {
    let mut neurons = vec![eager_neuron()];
    for _ in 0..9 {
        neurons.push(silent_neuron());
    }
    let net = Network::new(neurons);
    // Every prediction is 0, every true label is 3.
    let acc = test_network(&net, &vec![(vec![0u8; 784], 3u8); 2]);
    assert_eq!(0, acc.hits);
    assert_eq!(0, acc.floor_percent());
}

#[test]
fn evaluator_undecided_counts_as_wrong() {
    let mut neurons = Vec::new();
    for _ in 0..10 {
        neurons.push(silent_neuron());
    }
    let net = Network::new(neurons);
    let acc = test_network(&net, &vec![(vec![0u8; 784], 0u8)]);
    assert_eq!(0, acc.hits);
    assert_eq!(1, acc.total);
    assert_eq!(0, acc.floor_percent());
}

#[test]
fn evaluator_empty_test_set_is_defined_as_zero() {
    let mut neurons = Vec::new();
    for _ in 0..10 {
        neurons.push(eager_neuron());
    }
    let net = Network::new(neurons);
    let acc = test_network(&net, &Vec::new());
    assert_eq!(0, acc.total);
    assert_eq!(0, acc.floor_percent());
}

#[test]
fn accuracy_rounds_down_to_whole_percent() {
    let acc = Accuracy { hits: 1, total: 3 };
    assert_eq!(33, acc.floor_percent());
}

#[test]
fn run_whole_pipeline_on_small_file() {
    let mut text = String::new();
    for i in 0..10u8 {
        text.push_str(&csv_row(i % 10, i));
        text.push('\n');
    }
    let lr = LearningRate { num: 1, den: 100 };
    let acc = run(&text.into_bytes(), 3, &lr).unwrap();
    assert_eq!(2, acc.total);
    assert!(acc.hits <= 2);
}

#[test]
fn run_reports_load_failure() {
    let text = String::from("0,1,oops");
    let lr = LearningRate { num: 1, den: 100 };
    assert_eq!(
        Err(LoadError::MalformedField),
        run(&text.into_bytes(), 1, &lr).map(|_| ())
    );
}
