use nnet::network::FeedForwardNet;
use nnet::params::{
    LogisticNeuralNet, MSEFunction, NegativeOneBiasFunction, PositiveOneBiasFunction,
    TanhNeuralNet,
};
use nnet::prelude::{
    ActivationFunction, ErrorFunction, Layer, LearningRate, MomentumConstant, NeuralNet,
    NeuralNetParameters, NeuralNetTrainer, Node, Numbers, WeightFunction,
};
use nnet::scalar::{Integer, Scalar};
use nnet::trainer::backpropagation::parallel;
use nnet::trainer::backpropagation::{
    observe_all, pool_size, run_shard, shard_of, shard_size, BatchEpochTrainer,
    BatchEpochTrainerParallel, SeqEpochTrainer, SeqErrorAverageTrainer, TrainerError,
};
use nnet::trainer::util::{update_state, TrainerState};

#[derive(Clone, Copy, Debug, PartialEq)]
struct Real(f64);

impl Scalar for Real {
    fn spec_from_int(_n: Integer) -> Self {
        unreachable!()
    }

    fn spec_add(self, rhs: Self) -> Self {
        self.add(rhs)
    }

    fn spec_sub(self, rhs: Self) -> Self {
        self.sub(rhs)
    }

    fn spec_mul(self, rhs: Self) -> Self {
        self.mul(rhs)
    }

    fn spec_div(self, rhs: Self) -> Self {
        self.div(rhs)
    }

    fn spec_le(self, rhs: Self) -> bool {
        self.le(rhs)
    }

    fn from_int(n: i32) -> Self {
        Real(n as f64)
    }

    fn from_usize(n: usize) -> Self {
        Real(n as f64)
    }

    fn add(self, rhs: Self) -> Self {
        Real(self.0 + rhs.0)
    }

    fn sub(self, rhs: Self) -> Self {
        Real(self.0 - rhs.0)
    }

    fn mul(self, rhs: Self) -> Self {
        Real(self.0 * rhs.0)
    }

    fn div(self, rhs: Self) -> Self {
        Real(self.0 / rhs.0)
    }

    fn le(self, rhs: Self) -> bool {
        self.0 <= rhs.0
    }
}

fn reals(values: &[f64]) -> Vec<Real> {
    values.iter().map(|v| Real(*v)).collect()
}

fn floats(values: &[Real]) -> Vec<f64> {
    values.iter().map(|v| v.0).collect()
}

fn rows(matrix: &Vec<Vec<Real>>) -> Vec<Vec<f64>> {
    matrix.iter().map(|row| floats(row)).collect()
}

/// An activation that halves its input, so that every value stays a sum of
/// powers of two.
struct Halving;

impl ActivationFunction<Real> for Halving {
    fn spec_activation(x: Real) -> Real {
        Self::activation(x)
    }

    fn spec_derivative(x: Real) -> Real {
        Self::derivative(x)
    }

    fn activation(x: Real) -> Real {
        Real(x.0 / 2.0)
    }

    fn derivative(_x: Real) -> Real {
        Real(0.5)
    }
}

impl ActivationFunction<Real> for LogisticNeuralNet {
    fn spec_activation(x: Real) -> Real {
        Self::activation(x)
    }

    fn spec_derivative(x: Real) -> Real {
        Self::derivative(x)
    }

    fn activation(x: Real) -> Real {
        Real(1.0 / (1.0 + (-x.0).exp()))
    }

    fn derivative(x: Real) -> Real {
        Real(x.0 * (1.0 - x.0))
    }
}

/// Every weight is zero, to be set by the test.
struct Blank;

impl WeightFunction<Real> for Blank {
    fn spec_initw(_ins: usize, _outs: usize, weight: Real) -> bool {
        weight == Real(0.0)
    }

    fn initw(_ins: usize, _outs: usize) -> Real {
        Real(0.0)
    }
}

impl ActivationFunction<Real> for TanhNeuralNet {
    fn spec_activation(x: Real) -> Real {
        Self::activation(x)
    }

    fn spec_derivative(x: Real) -> Real {
        Self::derivative(x)
    }

    fn activation(x: Real) -> Real {
        Real(x.0.tanh())
    }

    fn derivative(x: Real) -> Real {
        Real(1.0 - x.0.tanh().powi(2))
    }
}

struct TanhNet;

impl NeuralNetParameters<Real> for TanhNet {
    type ActivationFunction = TanhNeuralNet;
    type WeightFunction = Blank;
    type BiasWeightFunction = PositiveOneBiasFunction;
}

/// A learning rate of a tenth and a momentum of four tenths.
struct TanhRates;

impl LearningRate<Real> for TanhRates {
    fn spec_lrate() -> Real {
        Self::lrate()
    }

    fn lrate() -> Real {
        Real(0.1)
    }
}

impl MomentumConstant<Real> for TanhRates {
    fn spec_momentum() -> Real {
        Self::momentum()
    }

    fn momentum() -> Real {
        Real(0.4)
    }
}

struct HalvingNet;

impl NeuralNetParameters<Real> for HalvingNet {
    type ActivationFunction = Halving;
    type WeightFunction = Blank;
    type BiasWeightFunction = PositiveOneBiasFunction;
}

struct LogisticNet;

impl NeuralNetParameters<Real> for LogisticNet {
    type ActivationFunction = LogisticNeuralNet;
    type WeightFunction = Blank;
    type BiasWeightFunction = NegativeOneBiasFunction;
}

/// A learning rate of a half, a momentum of a quarter, and the mean squared
/// error.
struct Rates;

impl LearningRate<Real> for Rates {
    fn spec_lrate() -> Real {
        Self::lrate()
    }

    fn lrate() -> Real {
        Real(0.5)
    }
}

impl MomentumConstant<Real> for Rates {
    fn spec_momentum() -> Real {
        Self::momentum()
    }

    fn momentum() -> Real {
        Real(0.25)
    }
}

impl ErrorFunction<Real> for Rates {
    fn spec_error(_predictions: Numbers<Real>, _expected: Numbers<Real>) -> Real {
        unreachable!()
    }

    fn error(predictions: &[Real], expected: &[Real]) -> Real {
        MSEFunction::error(predictions, expected)
    }
}

/// A learning rate of a half, a momentum of three tenths, and the mean
/// squared error.
struct XorRates;

impl LearningRate<Real> for XorRates {
    fn spec_lrate() -> Real {
        Self::lrate()
    }

    fn lrate() -> Real {
        Real(0.5)
    }
}

impl MomentumConstant<Real> for XorRates {
    fn spec_momentum() -> Real {
        Self::momentum()
    }

    fn momentum() -> Real {
        Real(0.3)
    }
}

impl ErrorFunction<Real> for XorRates {
    fn spec_error(_predictions: Numbers<Real>, _expected: Numbers<Real>) -> Real {
        unreachable!()
    }

    fn error(predictions: &[Real], expected: &[Real]) -> Real {
        MSEFunction::error(predictions, expected)
    }
}

type Net = FeedForwardNet<Real, HalvingNet>;
type XorNet = FeedForwardNet<Real, LogisticNet>;
type Member = (Vec<Real>, Vec<Real>);

fn set_weights<P: NeuralNetParameters<Real>>(
    nn: &mut FeedForwardNet<Real, P>,
    winput: &[&[f64]],
    woutput: &[&[f64]],
) {
    for (i, row) in winput.iter().enumerate() {
        for (j, w) in row.iter().enumerate() {
            *nn.node_mut(Node::WeightInputHidden(i, j)) = Real(*w);
        }
    }
    for (i, row) in woutput.iter().enumerate() {
        for (j, w) in row.iter().enumerate() {
            *nn.node_mut(Node::WeightHiddenOutput(i, j)) = Real(*w);
        }
    }
}

fn weights<P: NeuralNetParameters<Real>>(nn: &FeedForwardNet<Real, P>) -> (Vec<Vec<f64>>, Vec<Vec<f64>>) {
    let mut winput = Vec::new();
    for i in 0..nn.dim_input() + 1 {
        let mut row = Vec::new();
        for j in 0..nn.dim_hidden() {
            row.push(nn.node(Node::WeightInputHidden(i, j)).0);
        }
        winput.push(row);
    }
    let mut woutput = Vec::new();
    for i in 0..nn.dim_hidden() + 1 {
        let mut row = Vec::new();
        for j in 0..nn.dim_output() {
            row.push(nn.node(Node::WeightHiddenOutput(i, j)).0);
        }
        woutput.push(row);
    }
    (winput, woutput)
}

fn sample_net() -> Net {
    let mut nn = Net::new(2, 2, 1);
    set_weights(
        &mut nn,
        &[&[0.5, -1.0], &[0.25, 2.0], &[1.0, -0.5]],
        &[&[2.0], &[-1.0], &[0.5]],
    );
    nn
}

fn sample_set() -> Vec<Member> {
    vec![
        (reals(&[1.0, 2.0]), reals(&[1.0])),
        (reals(&[0.5, -1.0]), reals(&[0.0])),
        (reals(&[-2.0, 0.25]), reals(&[0.5])),
        (reals(&[0.0, 1.0]), reals(&[1.0])),
        (reals(&[4.0, 4.0]), reals(&[-1.0])),
    ]
}

fn xor_net() -> XorNet {
    let mut nn = XorNet::new(2, 3, 1);
    set_weights(
        &mut nn,
        &[&[-0.75, 0.125, -0.625], &[0.25, -0.5, 0.375], &[-0.375, 0.5, -0.25]],
        &[&[0.625], &[-0.125], &[0.75], &[0.0]],
    );
    nn
}

fn xor_set() -> Vec<Member> {
    vec![
        (reals(&[0.0, 0.0]), reals(&[0.0])),
        (reals(&[0.0, 1.0]), reals(&[1.0])),
        (reals(&[1.0, 0.0]), reals(&[1.0])),
        (reals(&[1.0, 1.0]), reals(&[0.0])),
    ]
}

fn xor_error(nn: &mut XorNet) -> f64 {
    let mut sum = 0.0;
    for (input, expected) in xor_set().iter() {
        nn.predict(input);
        let diff = nn.layer(Layer::Output)[0].0 - expected[0].0;
        sum += diff * diff;
    }
    sum / 4.0
}

fn assert_learned_xor(nn: &mut XorNet) {
    for (input, expected) in xor_set().iter() {
        nn.predict(input);
        assert_eq!(nn.layer(Layer::Output)[0].0.round(), expected[0].0);
    }
}

#[test]
fn sequential_trainer_reports_each_epoch_and_then_stops() {
    let mut nn = sample_net();
    let tset = sample_set();
    {
        let mut trainer =
            SeqEpochTrainer::<Real, Net, Member, Rates, HalvingNet>::with_epochs(&mut nn, &tset[..2], 3);
        assert_eq!(trainer.next(), Some(0));
        assert_eq!(trainer.next(), Some(1));
        assert_eq!(trainer.next(), Some(2));
        assert_eq!(trainer.next(), None);
        assert_eq!(trainer.next(), None);
    }
    let (winput, woutput) = weights(&nn);
    assert_eq!(
        winput,
        vec![
            vec![0.2563581273962267, -0.9360643589191769],
            vec![0.8663390236633186, 1.6867203812109615],
            vec![0.4804524351785105, -0.3257766336815057]
        ]
    );
    assert_eq!(
        woutput,
        vec![vec![1.754570119431919], vec![-0.1532829789123817], vec![-0.0018776591521769085]]
    );
    assert_eq!(floats(nn.layer(Layer::Hidden)), vec![-0.1275930263619195, -1.2411078880733932, 1.0]);
    assert_eq!(floats(nn.layer(Layer::Output)), vec![-0.01650192638596335]);
}

#[test]
fn train_runs_to_the_last_epoch_and_returns_its_report() {
    let mut stepped = sample_net();
    let mut trained = sample_net();
    let tset = sample_set();
    {
        let mut trainer = SeqEpochTrainer::<Real, Net, Member, Rates, HalvingNet>::with_epochs(
            &mut stepped,
            &tset[..2],
            3,
        );
        while trainer.next().is_some() {}
    }
    {
        let mut trainer = SeqEpochTrainer::<Real, Net, Member, Rates, HalvingNet>::with_epochs(
            &mut trained,
            &tset[..2],
            3,
        );
        assert_eq!(trainer.train(), Some(2));
        assert_eq!(trainer.train(), None);
    }
    assert_eq!(weights(&stepped), weights(&trained));
}

#[test]
fn train_without_epochs_leaves_the_network() {
    let mut nn = sample_net();
    let before = weights(&nn);
    let tset = sample_set();
    {
        let mut trainer =
            SeqEpochTrainer::<Real, Net, Member, Rates, HalvingNet>::with_epochs(&mut nn, &tset, 0);
        assert_eq!(trainer.train(), None);
    }
    assert_eq!(weights(&nn), before);
    assert_eq!(floats(nn.layer(Layer::Hidden)), vec![0.0, 0.0, 1.0]);
}

#[test]
fn release_gives_the_trained_network_back() {
    let mut nn = sample_net();
    let tset = sample_set();
    let mut trainer =
        SeqEpochTrainer::<Real, Net, Member, Rates, HalvingNet>::with_epochs(&mut nn, &tset[..2], 3);
    trainer.train();
    let back = trainer.release();
    assert_eq!(back.node(Node::WeightHiddenOutput(0, 0)), Real(1.754570119431919));
}

#[test]
fn batch_trainer_updates_weights_once_an_epoch() {
    let mut nn = sample_net();
    let tset = sample_set();
    {
        let mut trainer =
            BatchEpochTrainer::<Real, Net, Member, Rates, HalvingNet>::new(&mut nn, &tset[..2], 2);
        assert_eq!(trainer.next(), Some(0));
        assert_eq!(trainer.next(), Some(1));
        assert_eq!(trainer.next(), None);
    }
    let (winput, woutput) = weights(&nn);
    assert_eq!(
        winput,
        vec![
            vec![0.28491868963465095, -0.9037781107472256],
            vec![0.80170972738415, 1.7528738894034177],
            vec![0.5394506026059389, -0.2938856384716928]
        ]
    );
    assert_eq!(
        woutput,
        vec![vec![1.8253565109334886], vec![-0.23464120808057487], vec![0.031674861907958984]]
    );
    assert_eq!(floats(nn.layer(Layer::Output)), vec![0.4030580520629883]);
}

#[test]
fn error_trainer_rejects_a_target_of_zero_or_less() {
    let tset = sample_set();
    let mut nn = sample_net();
    let before = weights(&nn);
    let zero = SeqErrorAverageTrainer::<Real, Net, Member, Rates, HalvingNet>::new(
        &mut nn,
        &tset,
        Real(0.0),
    );
    assert!(matches!(zero, Err(TrainerError::TargetNotPositive)));
    let negative = SeqErrorAverageTrainer::<Real, Net, Member, Rates, HalvingNet>::with_epoch_bound(
        &mut nn,
        &tset,
        Real(-0.5),
        10,
    );
    assert!(matches!(negative, Err(TrainerError::TargetNotPositive)));
    let negative_zero = SeqErrorAverageTrainer::<Real, Net, Member, Rates, HalvingNet>::new(
        &mut nn,
        &tset,
        Real(-0.0),
    );
    assert!(negative_zero.is_err());
    assert_eq!(weights(&nn), before);
    assert_eq!(floats(nn.layer(Layer::Hidden)), vec![0.0, 0.0, 1.0]);
    let tiny = SeqErrorAverageTrainer::<Real, Net, Member, Rates, HalvingNet>::new(
        &mut nn,
        &tset,
        Real(f64::MIN_POSITIVE),
    );
    assert!(tiny.is_ok());
}

#[test]
fn error_trainer_reports_the_average_error_and_stops_at_the_target() {
    let mut nn = sample_net();
    let tset = sample_set();
    let mut trainer = SeqErrorAverageTrainer::<Real, Net, Member, Rates, HalvingNet>::new(
        &mut nn,
        &tset[..2],
        Real(0.1),
    )
    .ok()
    .unwrap();
    assert_eq!(trainer.next(), Some((0, Real(1.1255000486271456))));
    assert_eq!(trainer.next(), Some((1, Real(0.08313580888865674))));
    assert_eq!(trainer.next(), None);
    assert_eq!(trainer.next(), None);
}

#[test]
fn error_trainer_stops_at_the_epoch_bound() {
    let mut nn = sample_net();
    let tset = sample_set();
    let mut trainer = SeqErrorAverageTrainer::<Real, Net, Member, Rates, HalvingNet>::with_epoch_bound(
        &mut nn,
        &tset[..2],
        Real(0.000001),
        3,
    )
    .ok()
    .unwrap();
    assert_eq!(trainer.train(), Some((2, Real(0.00517183700602228))));
    assert_eq!(trainer.next(), None);
}

#[test]
fn error_trainer_whose_target_is_met_at_once_runs_one_epoch() {
    let mut nn = sample_net();
    let tset = sample_set();
    let mut trainer = SeqErrorAverageTrainer::<Real, Net, Member, Rates, HalvingNet>::new(
        &mut nn,
        &tset[..2],
        Real(100.0),
    )
    .ok()
    .unwrap();
    assert_eq!(trainer.train(), Some((0, Real(1.1255000486271456))));
}

#[test]
fn parallel_trainer_with_one_worker_goes_the_way_of_the_batch_trainer() {
    let tset = sample_set();
    let mut batch = sample_net();
    let mut parallel = sample_net();
    for epochs in 1..6 {
        let mut batch_net = sample_net();
        let mut parallel_net = sample_net();
        {
            let mut b = BatchEpochTrainer::<Real, Net, Member, Rates, HalvingNet>::new(
                &mut batch_net,
                &tset[..2],
                epochs,
            );
            let mut p = BatchEpochTrainerParallel::<Real, Net, Member, Rates, HalvingNet>::with_threads(
                &mut parallel_net,
                &tset[..2],
                epochs,
                1,
            );
            for epoch in 0..epochs {
                assert_eq!(b.next(), Some(epoch));
                assert_eq!(p.next(), Some(epoch));
            }
            assert_eq!(b.next(), None);
            assert_eq!(p.next(), None);
        }
        assert_eq!(weights(&parallel_net), weights(&batch_net));
        if epochs == 1 {
            batch = batch_net;
            parallel = parallel_net;
        }
    }
    let (batch_input, batch_output) = weights(&batch);
    assert_eq!(
        batch_input,
        vec![vec![0.3359375, -0.91796875], vec![0.671875, 1.7890625], vec![0.6484375, -0.32421875]]
    );
    assert_eq!(batch_output, vec![vec![1.8359375], vec![-0.408203125], vec![0.1484375]]);
    assert_eq!(weights(&parallel), (batch_input, batch_output));
}

#[test]
fn parallel_trainer_with_one_worker_on_a_net_of_zero_weights() {
    let tset: Vec<Member> = vec![
        (reals(&[0.0, 1.0]), reals(&[1.0])),
        (reals(&[1.0, 0.0]), reals(&[1.0])),
    ];
    let mut nn = FeedForwardNet::<Real, TanhNet>::new(2, 3, 1);
    {
        let mut trainer = BatchEpochTrainerParallel::<
            Real,
            FeedForwardNet<Real, TanhNet>,
            Member,
            TanhRates,
            TanhNet,
        >::with_threads(&mut nn, &tset, 1, 1);
        assert_eq!(trainer.next(), Some(0));
    }
    let (winput, woutput) = weights(&nn);
    assert!((woutput[3][0] - 0.14).abs() < 1e-12);
    assert_eq!(woutput[0][0], 0.0);
    assert_eq!(woutput[1][0], 0.0);
    assert_eq!(woutput[2][0], 0.0);
    assert!(winput.iter().flatten().all(|w| *w == 0.0));
    let mut other = FeedForwardNet::<Real, TanhNet>::new(2, 3, 1);
    {
        let mut trainer = BatchEpochTrainer::<
            Real,
            FeedForwardNet<Real, TanhNet>,
            Member,
            TanhRates,
            TanhNet,
        >::new(&mut other, &tset, 1);
        assert_eq!(trainer.next(), Some(0));
    }
    assert_eq!(weights(&other), (winput, woutput));
}

#[test]
fn parallel_trainer_leaves_the_layers_of_the_callers_network() {
    let tset = sample_set();
    let mut nn = sample_net();
    {
        let mut trainer = BatchEpochTrainerParallel::<Real, Net, Member, Rates, HalvingNet>::with_threads(
            &mut nn,
            &tset,
            2,
            2,
        );
        assert_eq!(trainer.next(), Some(0));
        assert_eq!(trainer.next(), Some(1));
        assert_eq!(trainer.next(), None);
    }
    assert_eq!(floats(nn.layer(Layer::Input)), vec![0.0, 0.0, 1.0]);
    assert_eq!(floats(nn.layer(Layer::Hidden)), vec![0.0, 0.0, 1.0]);
    assert_eq!(floats(nn.layer(Layer::Output)), vec![0.0]);
}

#[test]
fn parallel_trainer_averages_the_workers_states() {
    let tset = sample_set();
    let mut nn = sample_net();
    {
        let mut trainer = BatchEpochTrainerParallel::<Real, Net, Member, Rates, HalvingNet>::with_threads(
            &mut nn,
            &tset,
            2,
            2,
        );
        assert_eq!(trainer.train(), Some(1));
    }
    let (winput, woutput) = weights(&nn);
    assert_eq!(
        winput,
        vec![
            vec![0.2816925789098046, -0.9055085568865309],
            vec![0.7026435048248385, 1.801123946611046],
            vec![0.8433448882665575, -0.4322462076234359]
        ]
    );
    assert_eq!(
        woutput,
        vec![vec![1.953455497484978], vec![-0.4096714339339924], vec![0.34204608444997575]]
    );
}

#[test]
fn parallel_trainer_drops_what_is_left_over_of_the_training_set() {
    let tset = sample_set();
    let mut all = sample_net();
    {
        let mut trainer = BatchEpochTrainerParallel::<Real, Net, Member, Rates, HalvingNet>::with_threads(
            &mut all,
            &tset,
            2,
            2,
        );
        trainer.train();
    }
    let mut four = sample_net();
    {
        let mut trainer = BatchEpochTrainerParallel::<Real, Net, Member, Rates, HalvingNet>::with_threads(
            &mut four,
            &tset[..4],
            2,
            2,
        );
        trainer.train();
    }
    assert_eq!(weights(&all), weights(&four));
}

#[test]
fn parallel_trainer_with_three_workers() {
    let tset = sample_set();
    let mut nn = sample_net();
    {
        let mut trainer = BatchEpochTrainerParallel::<Real, Net, Member, Rates, HalvingNet>::with_threads(
            &mut nn,
            &tset,
            1,
            3,
        );
        assert_eq!(trainer.train(), Some(0));
    }
    let (winput, woutput) = weights(&nn);
    assert_eq!(
        winput,
        vec![
            vec![0.34895833333333337, -0.9244791666666666],
            vec![0.45247395833333337, 1.8987630208333333],
            vec![0.9661458333333334, -0.4830729166666667]
        ]
    );
    assert_eq!(
        woutput,
        vec![vec![1.9706217447916667], vec![-0.7135416666666667], vec![0.4661458333333333]]
    );
}

#[test]
fn parallel_trainer_with_more_workers_than_examples_learns_nothing() {
    let tset = sample_set();
    let mut nn = sample_net();
    let before = weights(&nn);
    {
        let mut trainer = BatchEpochTrainerParallel::<Real, Net, Member, Rates, HalvingNet>::with_threads(
            &mut nn,
            &tset,
            4,
            8,
        );
        assert_eq!(trainer.train(), Some(3));
    }
    assert_eq!(weights(&nn), before);
}

#[test]
fn parallel_trainer_takes_its_workers_from_the_machine() {
    let tset = xor_set();
    let mut nn = xor_net();
    {
        let mut trainer = BatchEpochTrainerParallel::<Real, XorNet, Member, XorRates, LogisticNet>::with_epochs(
            &mut nn,
            &tset,
            2,
        );
        assert_eq!(trainer.next(), Some(0));
        assert_eq!(trainer.next(), Some(1));
        assert_eq!(trainer.next(), None);
    }
    let (winput, woutput) = weights(&nn);
    assert!(winput.iter().flatten().all(|w| w.is_finite()));
    assert!(woutput.iter().flatten().all(|w| w.is_finite()));
}

#[test]
fn run_shard_works_on_a_copy_of_the_state() {
    let tset = sample_set();
    let mut nn = sample_net();
    let state = TrainerState::<Real>::new::<HalvingNet, _>(&nn);
    let local = run_shard::<Real, Net, Member, Rates, HalvingNet>(&mut nn, &state, &tset[..1]);
    assert_eq!(rows(state.doutput()), vec![vec![0.0], vec![0.0], vec![0.0]]);
    assert_eq!(rows(local.doutput()), vec![vec![0.09375], vec![0.1171875], vec![0.09375]]);
    assert_eq!(floats(local.eoutput()), vec![0.1875, 0.0]);
    assert_eq!(nn.node(Node::WeightHiddenOutput(0, 0)), Real(2.0));
}

#[test]
fn observe_all_is_update_state_on_each_example() {
    let tset = sample_set();
    let mut a = sample_net();
    let mut b = sample_net();
    let mut all = TrainerState::<Real>::new::<HalvingNet, _>(&a);
    let mut each = TrainerState::<Real>::new::<HalvingNet, _>(&b);
    observe_all::<Real, Net, Member, Rates, HalvingNet>(&mut a, &mut all, &tset);
    for member in tset.iter() {
        update_state::<Real, Rates, HalvingNet, _, _>(&mut b, &mut each, member);
    }
    assert_eq!(rows(all.dinput()), rows(each.dinput()));
    assert_eq!(rows(all.doutput()), rows(each.doutput()));
    assert_eq!(floats(all.ehidden()), floats(each.ehidden()));
    assert_eq!(floats(all.eoutput()), floats(each.eoutput()));
    assert_eq!(floats(a.layer(Layer::Output)), floats(b.layer(Layer::Output)));
}

#[test]
fn sequential_trainer_learns_xor() {
    let mut nn = xor_net();
    let tset = xor_set();
    {
        let mut trainer = SeqEpochTrainer::<Real, XorNet, Member, XorRates, LogisticNet>::with_epochs(
            &mut nn,
            &tset,
            5000,
        );
        assert_eq!(trainer.train(), Some(4999));
    }
    assert!(xor_error(&mut nn) < 0.05);
    assert_learned_xor(&mut nn);
}

#[test]
fn error_trainer_learns_xor_down_to_its_target() {
    let mut nn = xor_net();
    let tset = xor_set();
    let last = {
        let mut trainer = SeqErrorAverageTrainer::<Real, XorNet, Member, XorRates, LogisticNet>::new(
            &mut nn,
            &tset,
            Real(0.01),
        )
        .ok()
        .unwrap();
        trainer.train()
    };
    let (epoch, average) = last.unwrap();
    assert!(average.0 <= 0.01);
    assert!(epoch > 100 && epoch < 5000);
    assert!(xor_error(&mut nn) < 0.05);
    assert_learned_xor(&mut nn);
}

fn state_of(dinput: &[&[f64]], doutput: &[&[f64]], ehidden: &[f64], eoutput: &[f64]) -> TrainerState<Real> {
    TrainerState::from_parts(
        dinput.iter().map(|row| reals(row)).collect(),
        doutput.iter().map(|row| reals(row)).collect(),
        reals(ehidden),
        reals(eoutput),
    )
}

fn parts(state: &TrainerState<Real>) -> (Vec<Vec<f64>>, Vec<Vec<f64>>, Vec<f64>, Vec<f64>) {
    (rows(state.dinput()), rows(state.doutput()), floats(state.ehidden()), floats(state.eoutput()))
}

fn assert_close(a: &TrainerState<Real>, b: &TrainerState<Real>) {
    let (a, b) = (parts(a), parts(b));
    let flat = |p: &(Vec<Vec<f64>>, Vec<Vec<f64>>, Vec<f64>, Vec<f64>)| -> Vec<f64> {
        let mut all: Vec<f64> = Vec::new();
        all.extend(p.0.iter().flatten());
        all.extend(p.1.iter().flatten());
        all.extend(p.2.iter());
        all.extend(p.3.iter());
        all
    };
    let (a, b) = (flat(&a), flat(&b));
    assert_eq!(a.len(), b.len());
    for (x, y) in a.iter().zip(b.iter()) {
        assert!((x - y).abs() <= 1e-12, "{} and {} differ", x, y);
    }
}

fn state_a() -> TrainerState<Real> {
    state_of(&[&[0.1, 0.2], &[0.3, 0.4]], &[&[0.5], &[0.6], &[0.7]], &[0.8, 0.9, 1.0], &[1.1, 1.2])
}

fn state_b() -> TrainerState<Real> {
    state_of(&[&[-3.0, 0.7], &[0.0, 12.5]], &[&[0.01], &[-0.6], &[7.0]], &[8.0, -0.9, 0.3], &[2.2, 0.1])
}

fn state_c() -> TrainerState<Real> {
    state_of(&[&[5.5, -0.2], &[1e-3, 0.4]], &[&[0.25], &[0.6], &[-1.7]], &[0.0, 9.0, 1.5], &[-1.1, 3.3])
}

fn state_d() -> TrainerState<Real> {
    state_of(&[&[1.0, 2.0], &[3.0, 4.0]], &[&[5.0], &[6.0], &[7.0]], &[8.0, 9.0, 10.0], &[11.0, 12.0])
}

#[test]
fn merge_is_the_running_average() {
    let mut acc = state_of(&[&[1.0, 2.0]], &[&[3.0]], &[4.0], &[5.0, 6.0]);
    let peer = state_of(&[&[4.0, 8.0]], &[&[0.0]], &[-2.0], &[5.0, 0.0]);
    acc.merge(&peer, Real(2.0));
    assert_eq!(
        parts(&acc),
        (vec![vec![2.0, 4.0]], vec![vec![2.0]], vec![2.0], vec![5.0, 4.0])
    );
}

#[test]
fn combine_is_the_mean_of_the_state_and_its_peers() {
    let mut acc = state_of(&[&[1.0, 10.0]], &[&[-1.0]], &[0.0], &[3.0, 30.0]);
    let first = state_of(&[&[2.0, 20.0]], &[&[-2.0]], &[0.0], &[3.0, 60.0]);
    let second = state_of(&[&[6.0, 60.0]], &[&[-6.0]], &[9.0], &[3.0, 0.0]);
    acc.combine(vec![first, second]);
    assert_eq!(
        parts(&acc),
        (vec![vec![3.0, 30.0]], vec![vec![-3.0]], vec![3.0], vec![3.0, 30.0])
    );
}

#[test]
fn combine_without_peers_leaves_the_state() {
    let mut acc = state_a();
    acc.combine(Vec::new());
    assert_eq!(parts(&acc), parts(&state_a()));
}

#[test]
fn combine_gives_the_same_in_any_order_of_the_peers() {
    let orders: Vec<Vec<TrainerState<Real>>> = vec![
        vec![state_a(), state_b(), state_c()],
        vec![state_a(), state_c(), state_b()],
        vec![state_b(), state_a(), state_c()],
        vec![state_b(), state_c(), state_a()],
        vec![state_c(), state_b(), state_a()],
    ];
    let mut reference = state_d();
    reference.combine(vec![state_c(), state_a(), state_b()]);
    for order in orders {
        let mut acc = state_d();
        acc.combine(order);
        assert_close(&acc, &reference);
    }
}

#[test]
fn combine_of_copies_of_a_state_gives_the_state() {
    for copies in 1..8 {
        let mut acc = state_a();
        acc.combine((0..copies).map(|_| state_a()).collect());
        assert_close(&acc, &state_a());
    }
    let mut exact = state_d();
    exact.combine(vec![state_d(), state_d(), state_d()]);
    assert_eq!(parts(&exact), parts(&state_d()));
}

#[test]
fn duplicate_of_a_state_holds_the_same() {
    let state = state_b();
    let copy = state.duplicate();
    assert_eq!(parts(&copy), parts(&state));
}

#[test]
fn shards_are_cut_in_equal_size_and_the_rest_is_left() {
    assert_eq!(shard_size(10, 3), 3);
    assert_eq!(shard_size(10, 1), 10);
    assert_eq!(shard_size(2, 3), 0);
    assert_eq!(shard_size(0, 4), 0);
    let tset: Vec<u32> = (0..10).collect();
    assert_eq!(shard_of(&tset, 3, 0), &[0, 1, 2]);
    assert_eq!(shard_of(&tset, 3, 1), &[3, 4, 5]);
    assert_eq!(shard_of(&tset, 3, 2), &[6, 7, 8]);
    assert_eq!(shard_of(&tset, 10, 0).len(), 10);
    assert_eq!(shard_of(&tset, 0, 7).len(), 0);
}

#[test]
fn parallel_module_names_the_parallel_trainer() {
    let tset = sample_set();
    let mut by_module = sample_net();
    {
        let mut trainer = parallel::BatchEpochTrainer::<Real, Net, Member, Rates, HalvingNet>::with_threads(
            &mut by_module,
            &tset,
            1,
            2,
        );
        assert_eq!(trainer.train(), Some(0));
    }
    let mut by_name = sample_net();
    {
        let mut trainer = BatchEpochTrainerParallel::<Real, Net, Member, Rates, HalvingNet>::with_threads(
            &mut by_name,
            &tset,
            1,
            2,
        );
        assert_eq!(trainer.train(), Some(0));
    }
    assert_eq!(weights(&by_module), weights(&by_name));
}

#[test]
fn error_trainer_on_an_empty_training_set_never_meets_its_target() {
    let mut nn = sample_net();
    let before = weights(&nn);
    let tset: Vec<Member> = Vec::new();
    {
        let mut trainer = SeqErrorAverageTrainer::<Real, Net, Member, Rates, HalvingNet>::with_epoch_bound(
            &mut nn,
            &tset,
            Real(0.5),
            2,
        )
        .ok()
        .unwrap();
        let first = trainer.next().unwrap();
        assert_eq!(first.0, 0);
        assert!(first.1 .0.is_nan());
        let second = trainer.next().unwrap();
        assert_eq!(second.0, 1);
        assert!(trainer.next().is_none());
    }
    assert_eq!(weights(&nn), before);
}

#[test]
fn error_trainer_takes_a_target_that_is_no_number() {
    let mut nn = sample_net();
    let tset = sample_set();
    let trainer = SeqErrorAverageTrainer::<Real, Net, Member, Rates, HalvingNet>::new(
        &mut nn,
        &tset,
        Real(f64::NAN),
    );
    assert!(trainer.is_ok());
}

#[test]
fn average_is_the_mean_of_the_states() {
    let first = state_of(&[&[1.0, 10.0]], &[&[-1.0]], &[0.0], &[3.0, 30.0]);
    let second = state_of(&[&[2.0, 20.0]], &[&[-2.0]], &[0.0], &[3.0, 60.0]);
    let third = state_of(&[&[6.0, 60.0]], &[&[-6.0]], &[9.0], &[3.0, 0.0]);
    let mean = TrainerState::average(vec![first, second, third]);
    assert_eq!(
        parts(&mean),
        (vec![vec![3.0, 30.0]], vec![vec![-3.0]], vec![3.0], vec![3.0, 30.0])
    );
    let alone = TrainerState::average(vec![state_b()]);
    assert_eq!(parts(&alone), parts(&state_b()));
}

#[test]
fn pool_has_a_thread_for_each_worker_as_far_as_it_can_count() {
    assert_eq!(pool_size(1), 1);
    assert_eq!(pool_size(8), 8);
    assert_eq!(pool_size(u32::MAX as usize), u32::MAX);
    assert_eq!(pool_size(usize::MAX), u32::MAX);
    assert_eq!(pool_size(0), 0);
}
