use nnet::fixed::Fixed;
use nnet::network::FeedForwardNet;
use nnet::params::{
    ConstantLearningRate, DefaultMomentumConstant, MSEFunction, PositiveOneBiasFunction,
};
use nnet::prelude::{
    ActivationFunction, ErrorFunction, Layer, LearningRate, MomentumConstant, NeuralNet,
    NeuralNetParameters, NeuralNetTrainer, Node, WeightFunction,
};
use nnet::scalar::Scalar;
use nnet::trainer::backpropagation::SeqEpochTrainer;
use nnet::trainer::util::TrainerState;

const ONE: i64 = 1 << 32;

fn fixed(numerator: i64, denominator: i64) -> Fixed {
    Fixed::from_raw(numerator * ONE / denominator)
}

#[test]
fn from_int_scales_by_two_to_the_thirty_two() {
    assert_eq!(Fixed::from_int(3).to_raw(), 3 * ONE);
    assert_eq!(Fixed::from_int(-1).to_raw(), -ONE);
    assert_eq!(Fixed::from_int(0).to_raw(), 0);
    assert_eq!(Fixed::from_int(i32::MAX).to_raw(), (i32::MAX as i64) * ONE);
    assert_eq!(Fixed::from_int(i32::MIN).to_raw(), i64::MIN);
    assert_eq!(Fixed::from_usize(7).to_raw(), 7 * ONE);
}

#[test]
fn from_usize_saturates() {
    assert_eq!(Fixed::from_usize(1 << 31).to_raw(), i64::MAX);
    assert_eq!(Fixed::from_usize(usize::MAX).to_raw(), i64::MAX);
    assert_eq!(Fixed::from_usize((1 << 31) - 1).to_raw(), ((1i64 << 31) - 1) * ONE);
}

#[test]
fn addition_and_subtraction_saturate() {
    assert_eq!(fixed(1, 2).add(fixed(1, 4)), fixed(3, 4));
    assert_eq!(fixed(1, 2).sub(fixed(3, 4)), fixed(-1, 4));
    assert_eq!(Fixed::from_raw(i64::MAX).add(Fixed::from_raw(1)).to_raw(), i64::MAX);
    assert_eq!(Fixed::from_raw(i64::MIN).add(Fixed::from_raw(-1)).to_raw(), i64::MIN);
    assert_eq!(Fixed::from_raw(i64::MIN).sub(Fixed::from_raw(1)).to_raw(), i64::MIN);
    assert_eq!(Fixed::from_raw(i64::MAX).sub(Fixed::from_raw(-1)).to_raw(), i64::MAX);
    assert_eq!(Fixed::from_raw(0).sub(Fixed::from_raw(i64::MIN)).to_raw(), i64::MAX);
}

#[test]
fn multiplication_rounds_toward_zero_and_saturates() {
    assert_eq!(fixed(3, 2).mul(fixed(5, 2)), fixed(15, 4));
    assert_eq!(fixed(-3, 2).mul(fixed(5, 2)), fixed(-15, 4));
    assert_eq!(fixed(-3, 2).mul(fixed(-5, 2)), fixed(15, 4));
    assert_eq!(Fixed::from_raw(1).mul(Fixed::from_raw(1)).to_raw(), 0);
    assert_eq!(Fixed::from_raw(-1).mul(Fixed::from_raw(1)).to_raw(), 0);
    assert_eq!(Fixed::from_raw(3).mul(fixed(1, 2)).to_raw(), 1);
    assert_eq!(Fixed::from_raw(-3).mul(fixed(1, 2)).to_raw(), -1);
    assert_eq!(Fixed::from_int(1 << 20).mul(Fixed::from_int(1 << 20)).to_raw(), i64::MAX);
    assert_eq!(Fixed::from_int(-(1 << 20)).mul(Fixed::from_int(1 << 20)).to_raw(), i64::MIN);
    assert_eq!(Fixed::from_raw(i64::MIN).mul(Fixed::from_raw(i64::MIN)).to_raw(), i64::MAX);
}

#[test]
fn division_rounds_toward_zero_and_saturates() {
    assert_eq!(fixed(15, 4).div(fixed(5, 2)), fixed(3, 2));
    assert_eq!(Fixed::from_int(1).div(Fixed::from_int(3)).to_raw(), ONE / 3);
    assert_eq!(Fixed::from_int(-1).div(Fixed::from_int(3)).to_raw(), -(ONE / 3));
    assert_eq!(Fixed::from_int(1).div(Fixed::from_int(-3)).to_raw(), -(ONE / 3));
    assert_eq!(Fixed::from_int(-1).div(Fixed::from_int(-3)).to_raw(), ONE / 3);
    assert_eq!(Fixed::from_int(1 << 20).div(Fixed::from_raw(1)).to_raw(), i64::MAX);
    assert_eq!(Fixed::from_int(-(1 << 20)).div(Fixed::from_raw(1)).to_raw(), i64::MIN);
}

#[test]
fn division_by_zero_goes_to_the_end_of_the_range() {
    let zero = Fixed::from_int(0);
    assert_eq!(Fixed::from_int(5).div(zero).to_raw(), i64::MAX);
    assert_eq!(Fixed::from_int(-5).div(zero).to_raw(), i64::MIN);
    assert_eq!(zero.div(zero).to_raw(), 0);
}

#[test]
fn order_is_that_of_the_raw_values() {
    assert!(fixed(1, 4).le(fixed(1, 2)));
    assert!(fixed(1, 2).le(fixed(1, 2)));
    assert!(!fixed(1, 2).le(fixed(1, 4)));
    assert!(fixed(-1, 2).le(Fixed::from_int(0)));
}

#[test]
fn constant_rates_are_a_tenth_and_three_tenths() {
    let lrate: Fixed = ConstantLearningRate::lrate();
    let momentum: Fixed = DefaultMomentumConstant::momentum();
    assert_eq!(lrate.to_raw(), ONE / 10);
    assert_eq!(momentum.to_raw(), 3 * ONE / 10);
}

#[test]
fn mean_squared_error_on_fixed_point_numbers() {
    let predictions = [fixed(3, 2), fixed(-1, 2)];
    let expected = [fixed(1, 2), fixed(1, 2)];
    assert_eq!(MSEFunction::error(&predictions, &expected), Fixed::from_int(1));
    let none: [Fixed; 0] = [];
    assert_eq!(MSEFunction::error(&none, &none).to_raw(), 0);
}

/// Clamps its input to the range from zero to one.
struct Clamp;

impl ActivationFunction<Fixed> for Clamp {
    fn spec_activation(x: Fixed) -> Fixed {
        Self::activation(x)
    }

    fn spec_derivative(x: Fixed) -> Fixed {
        Self::derivative(x)
    }

    fn activation(x: Fixed) -> Fixed {
        if x.le(Fixed::from_int(0)) {
            Fixed::from_int(0)
        } else if Fixed::from_int(1).le(x) {
            Fixed::from_int(1)
        } else {
            x
        }
    }

    fn derivative(_x: Fixed) -> Fixed {
        Fixed::from_int(1)
    }
}

/// Every weight is a half.
struct HalfWeights;

impl WeightFunction<Fixed> for HalfWeights {
    fn spec_initw(_ins: usize, _outs: usize, weight: Fixed) -> bool {
        weight == Fixed::from_raw(ONE / 2)
    }

    fn initw(_ins: usize, _outs: usize) -> Fixed {
        Fixed::from_raw(ONE / 2)
    }
}

struct ClampNet;

impl NeuralNetParameters<Fixed> for ClampNet {
    type ActivationFunction = Clamp;
    type WeightFunction = HalfWeights;
    type BiasWeightFunction = PositiveOneBiasFunction;
}

/// A learning rate of a tenth and a momentum of three tenths.
struct Rates;

impl LearningRate<Fixed> for Rates {
    fn spec_lrate() -> Fixed {
        Self::lrate()
    }

    fn lrate() -> Fixed {
        ConstantLearningRate::lrate()
    }
}

impl MomentumConstant<Fixed> for Rates {
    fn spec_momentum() -> Fixed {
        Self::momentum()
    }

    fn momentum() -> Fixed {
        DefaultMomentumConstant::momentum()
    }
}

type Net = FeedForwardNet<Fixed, ClampNet>;

#[test]
fn predict_on_fixed_point_numbers() {
    let mut nn = Net::new(2, 2, 1);
    nn.predict(&[fixed(1, 4), fixed(-1, 2)]);
    // Each hidden node: 1/4 * 1/2 - 1/2 * 1/2 + 1 * 1/2 = 3/8.
    assert_eq!(nn.layer(Layer::Hidden).to_vec(), vec![fixed(3, 8), fixed(3, 8), fixed(1, 1)]);
    // The output node: 2 * (3/8 * 1/2) + 1 * 1/2 = 7/8.
    assert_eq!(nn.layer(Layer::Output).to_vec(), vec![fixed(7, 8)]);
}

#[test]
fn training_on_fixed_point_numbers_moves_the_output_to_the_target() {
    let mut nn = Net::new(2, 2, 1);
    let tset = vec![(vec![fixed(1, 4), fixed(-1, 2)], vec![fixed(1, 4)])];
    {
        let mut trainer =
            SeqEpochTrainer::<Fixed, Net, (Vec<Fixed>, Vec<Fixed>), Rates, ClampNet>::with_epochs(
                &mut nn, &tset, 200,
            );
        assert_eq!(trainer.train(), Some(199));
    }
    nn.predict(&tset[0].0);
    let output = nn.node(Node::Output(0)).to_raw();
    assert!((output - ONE / 4).abs() < ONE / 1000, "the output is {} / 2^32", output);
}

#[test]
fn combine_of_copies_of_a_fixed_point_state_gives_the_state() {
    let state = || {
        TrainerState::from_parts(
            vec![vec![fixed(1, 3), fixed(-7, 5)], vec![Fixed::from_raw(1), Fixed::from_raw(-1)]],
            vec![vec![fixed(22, 7)], vec![fixed(-1, 1000)]],
            vec![fixed(5, 1), fixed(0, 1)],
            vec![fixed(-9, 11)],
        )
    };
    let mut acc = state();
    acc.combine((0..6).map(|_| state()).collect());
    assert_eq!(acc.dinput(), state().dinput());
    assert_eq!(acc.doutput(), state().doutput());
    assert_eq!(acc.ehidden(), state().ehidden());
    assert_eq!(acc.eoutput(), state().eoutput());
}

#[test]
fn combine_of_fixed_point_states_depends_on_the_order_by_a_unit_for_each_peer() {
    let state = |values: [i64; 4]| {
        TrainerState::from_parts(
            vec![vec![Fixed::from_raw(values[0])]],
            vec![vec![Fixed::from_raw(values[1])]],
            vec![Fixed::from_raw(values[2])],
            vec![Fixed::from_raw(values[3])],
        )
    };
    let a = [1, -7 * ONE / 3, 5, i64::MAX / 4];
    let b = [2, ONE / 7, -5, -(i64::MAX / 4)];
    let c = [4, -ONE / 9, 6, i64::MAX / 4 - 1];
    let start = [0, ONE, -1, 17];
    let orders = [[a, b, c], [a, c, b], [b, a, c], [b, c, a], [c, b, a]];
    let mut reference = state(start);
    reference.combine(vec![state(c), state(a), state(b)]);
    for order in orders.iter() {
        let mut acc = state(start);
        acc.combine(order.iter().map(|values| state(*values)).collect());
        let pairs = [
            (acc.dinput()[0][0], reference.dinput()[0][0]),
            (acc.doutput()[0][0], reference.doutput()[0][0]),
            (acc.ehidden()[0], reference.ehidden()[0]),
            (acc.eoutput()[0], reference.eoutput()[0]),
        ];
        for (x, y) in pairs.iter() {
            assert!((x.to_raw() - y.to_raw()).abs() <= 3, "{} and {}", x.to_raw(), y.to_raw());
        }
    }
}
