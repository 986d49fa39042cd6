//! Implemented parameters for neural nets or trainers.
//!
//! What needs the four arithmetic operations alone is implemented here, for
//! every number type. The parameters that need an exponential, a logarithm,
//! a root or a random number are named here, and are implemented beside a
//! number type that has these.

use crate::prelude::{
    ActivationFunction, BiasWeightFunction, ErrorFunction, ErrorGradient, LearningRate,
    MomentumConstant,
};
use crate::scalar::{counted, one, zero, Scalar};
use vstd::prelude::*;

verus! {

/// Parameters for a logistic neural net: the logistic activation, the default
/// weight function and a bias of minus one.
#[derive(Clone, Copy, Debug)]
pub struct LogisticNeuralNet;

/// Parameters for a tanh neural net: the hyperbolic tangent as activation,
/// the default weight function and a bias of one.
#[derive(Clone, Copy, Debug)]
pub struct TanhNeuralNet;

/// Parameters for a sigmoid neural net: the weight function that goes with
/// a sigmoid as activation.
#[derive(Clone, Copy, Debug)]
pub struct SigmoidNeuralNet;

/// Default weight function that is dependent on the input size: a random
/// weight between plus and minus one over the root of the number of inputs.
#[derive(Clone, Copy, Debug)]
pub struct DefaultWeightFunction;

/// Bias function that returns a random weight between -0.5 and 0.5.
#[derive(Clone, Copy, Debug)]
pub struct RandomBiasWeightFunction;

/// Cross entropy error function: minus the mean of the logarithms of the
/// predictions, each times the expected value.
#[derive(Clone, Copy, Debug)]
pub struct CEFunction;

/// Default error gradient functions.
#[derive(Clone, Copy, Debug)]
pub struct DefaultErrorGradient;

impl<S: Scalar, A: ActivationFunction<S>> ErrorGradient<S, A> for DefaultErrorGradient {
    open spec fn spec_errhidden(act: S, sum: S) -> S {
        A::spec_derivative(act).spec_mul(sum)
    }

    open spec fn spec_erroutput(exp: S, act: S) -> S {
        A::spec_derivative(act).spec_mul(exp.spec_sub(act))
    }

    fn errhidden(act: S, sum: S) -> (r: S) {
        A::derivative(act).mul(sum)
    }

    fn erroutput(exp: S, act: S) -> (r: S) {
        A::derivative(act).mul(exp.sub(act))
    }
}

/// Returns -1 for each bias node.
#[derive(Clone, Copy, Debug)]
pub struct NegativeOneBiasFunction;

impl<S: Scalar> BiasWeightFunction<S> for NegativeOneBiasFunction {
    open spec fn spec_biasw(value: S) -> bool {
        value == S::spec_from_int(-1)
    }

    fn biasw() -> (r: S) {
        S::from_int(-1)
    }
}

/// Returns 1 for each bias node.
#[derive(Clone, Copy, Debug)]
pub struct PositiveOneBiasFunction;

impl<S: Scalar> BiasWeightFunction<S> for PositiveOneBiasFunction {
    open spec fn spec_biasw(value: S) -> bool {
        value == one::<S>()
    }

    fn biasw() -> (r: S) {
        S::from_int(1)
    }
}

/// A learning rate of one tenth.
#[derive(Clone, Copy, Debug)]
pub struct ConstantLearningRate;

impl<S: Scalar> LearningRate<S> for ConstantLearningRate {
    open spec fn spec_lrate() -> S {
        one::<S>().spec_div(S::spec_from_int(10))
    }

    fn lrate() -> (r: S) {
        S::from_int(1).div(S::from_int(10))
    }
}

/// A momentum constant of three tenths.
#[derive(Clone, Copy, Debug)]
pub struct DefaultMomentumConstant;

impl<S: Scalar> MomentumConstant<S> for DefaultMomentumConstant {
    open spec fn spec_momentum() -> S {
        S::spec_from_int(3).spec_div(S::spec_from_int(10))
    }

    fn momentum() -> (r: S) {
        S::from_int(3).div(S::from_int(10))
    }
}

/// The sum of the squared differences of the first `n` predictions and
/// expected values, added up from zero and from the left.
pub open spec fn squared_error_sum<S: Scalar>(predictions: Seq<S>, expected: Seq<S>, n: nat) -> S
    decreases n,
{
    if n == 0 {
        zero::<S>()
    } else {
        let diff = predictions[n - 1].spec_sub(expected[n - 1]);
        squared_error_sum(predictions, expected, (n - 1) as nat).spec_add(diff.spec_mul(diff))
    }
}

/// The number of pairs that two sequences give.
pub open spec fn pairs<S>(predictions: Seq<S>, expected: Seq<S>) -> nat {
    if predictions.len() <= expected.len() {
        predictions.len()
    } else {
        expected.len()
    }
}

/// MSE error function.
#[derive(Clone, Copy, Debug)]
pub struct MSEFunction;

impl<S: Scalar> ErrorFunction<S> for MSEFunction {
    /// The mean of the squared differences: one over the number of pairs,
    /// counted up from zero, times the sum of the squares.
    open spec fn spec_error(predictions: Seq<S>, expected: Seq<S>) -> S {
        let n = pairs(predictions, expected);
        one::<S>().spec_div(counted(zero::<S>(), n)).spec_mul(
            squared_error_sum(predictions, expected, n),
        )
    }

    fn error(predictions: &[S], expected: &[S]) -> (r: S) {
        let len: usize = if predictions.len() <= expected.len() {
            predictions.len()
        } else {
            expected.len()
        };
        let mut n: S = S::from_int(0);
        let mut sum: S = S::from_int(0);
        let mut i: usize = 0;
        while i < len
            invariant
                i <= len,
                len == pairs(predictions@, expected@),
                n == counted(zero::<S>(), i as nat),
                sum == squared_error_sum(predictions@, expected@, i as nat),
            decreases len - i,
        {
            let diff: S = predictions[i].sub(expected[i]);
            n = n.add(S::from_int(1));
            sum = sum.add(diff.mul(diff));
            i += 1;
        }
        S::from_int(1).div(n).mul(sum)
    }
}

} // verus!
