//! Trait and enum definitions.

use crate::params::DefaultErrorGradient;
use crate::scalar::{weighted_sum, Scalar};
use vstd::prelude::*;

verus! {

/// Layers
#[derive(Clone, Copy, Debug)]
pub enum Layer {
    Input,
    Hidden,
    Output,
}

/// Coordinates for a node in a specified layer, or for a weight between two
/// layers.
///
/// A weight is addressed by the node it leaves and the node it enters, in
/// that order.
#[derive(Clone, Copy, Debug)]
pub enum Node {
    Input(usize),
    Hidden(usize),
    Output(usize),
    WeightInputHidden(usize, usize),
    WeightHiddenOutput(usize, usize),
}

/// Why an example cannot be given to a network.
#[derive(Clone, Copy, Debug, PartialEq, Eq, Structural)]
pub enum ShapeError {
    /// The example has more or fewer inputs than the network has input
    /// nodes.
    InputLength,
    /// The example has more or fewer expected values than the network has
    /// output nodes.
    ExpectedLength,
}

/// A sequence of numbers, as an implementation of [`ErrorFunction`] or of
/// [`TrainingSetMember`] names it in the signatures of its specification
/// functions.
pub type Numbers<S> = Seq<S>;

/// Learning rate
pub trait LearningRate<S: Scalar> {
    /// The learning rate.
    spec fn spec_lrate() -> S;

    fn lrate() -> (r: S)
        ensures
            r == Self::spec_lrate(),
    ;
}

/// Momentum constant
pub trait MomentumConstant<S: Scalar> {
    /// The momentum constant.
    spec fn spec_momentum() -> S;

    fn momentum() -> (r: S)
        ensures
            r == Self::spec_momentum(),
    ;
}

/// Activation function
pub trait ActivationFunction<S: Scalar> {
    /// The activation of a node whose weighted input is `x`.
    spec fn spec_activation(x: S) -> S;

    /// The derivative of the activation function, given the activation `x`
    /// of a node.
    spec fn spec_derivative(x: S) -> S;

    fn activation(x: S) -> (r: S)
        ensures
            r == Self::spec_activation(x),
    ;

    fn derivative(x: S) -> (r: S)
        ensures
            r == Self::spec_derivative(x),
    ;
}

/// Error gradient method, for nodes whose activation function is `A`.
pub trait ErrorGradient<S: Scalar, A: ActivationFunction<S>> {
    /// The error term of a hidden node with activation `act`, where `sum` is
    /// the sum of the output errors weighted by the node's outgoing weights.
    spec fn spec_errhidden(act: S, sum: S) -> S;

    /// The error term of an output node with activation `act`, where `exp`
    /// is the expected value.
    spec fn spec_erroutput(exp: S, act: S) -> S;

    fn errhidden(act: S, sum: S) -> (r: S)
        ensures
            r == Self::spec_errhidden(act, sum),
    ;

    fn erroutput(exp: S, act: S) -> (r: S)
        ensures
            r == Self::spec_erroutput(exp, act),
    ;
}

/// The weight function to generate the initial weights.
///
/// A weight may be drawn at random, so the function is described by the
/// weights that it may return.
pub trait WeightFunction<S: Scalar> {
    /// Whether `initw(ins, outs)` may return `weight`.
    spec fn spec_initw(ins: usize, outs: usize, weight: S) -> bool;

    fn initw(ins: usize, outs: usize) -> (r: S)
        ensures
            Self::spec_initw(ins, outs, r),
    ;
}

/// The weight function to generate the bias nodes' values.
///
/// A value may be drawn at random, so the function is described by the
/// values that it may return.
pub trait BiasWeightFunction<S: Scalar> {
    /// Whether `biasw()` may return `value`.
    spec fn spec_biasw(value: S) -> bool;

    fn biasw() -> (r: S)
        ensures
            Self::spec_biasw(r),
    ;
}

/// Function to calculate error during training.
pub trait ErrorFunction<S: Scalar> {
    /// The error between a predicted result and the expected result. Where
    /// one is longer than the other, what is beyond the shorter one is left
    /// out.
    spec fn spec_error(predictions: Numbers<S>, expected: Numbers<S>) -> S;

    /// Calculates the error between a predicted result and the expected
    /// result.
    fn error(predictions: &[S], expected: &[S]) -> (r: S)
        ensures
            r == Self::spec_error(predictions@, expected@),
    ;
}

/// Collection of parameters for a `NeuralNetTrainer` that trains a network
/// whose activation function is `A`.
pub trait TrainerParameters<S: Scalar, A: ActivationFunction<S>> {
    type MomentumConstant: MomentumConstant<S>;

    type LearningRate: LearningRate<S>;

    type ErrorGradient: ErrorGradient<S, A>;
}

impl<S: Scalar, A: ActivationFunction<S>, T> TrainerParameters<S, A> for T where
    T: MomentumConstant<S> + LearningRate<S>,
 {
    type MomentumConstant = T;

    type LearningRate = T;

    type ErrorGradient = DefaultErrorGradient;
}

/// Collection of parameters for a `NeuralNetTrainer` that measures the
/// error of each epoch.
pub trait TrainerParametersWithErrorFunction<S: Scalar, A: ActivationFunction<S>>:
    TrainerParameters<S, A> {
    type ErrorFunction: ErrorFunction<S>;
}

impl<S: Scalar, A: ActivationFunction<S>, T> TrainerParametersWithErrorFunction<S, A> for T where
    T: MomentumConstant<S> + LearningRate<S> + ErrorFunction<S>,
 {
    type ErrorFunction = T;
}

/// The epochs of a trainer, as a state machine on a model of what the
/// trainer holds.
pub trait Epochs: Sized {
    /// What an epoch reports.
    type Item;

    /// What the trainer holds.
    type Model;

    /// What must hold of a model for the trainer to run.
    spec fn valid(m: Self::Model) -> bool;

    /// An epoch: the model after it and what it reports, or the model as it
    /// is and `None` where the trainer has come to its end.
    spec fn spec_next(m: Self::Model) -> (Self::Model, Option<Self::Item>);

    /// A bound on the number of epochs that are left.
    spec fn epochs_left(m: Self::Model) -> nat;

    /// An epoch keeps the model valid; where it reports, fewer epochs are
    /// left after it; where it does not, the model stays as it is.
    proof fn lemma_next(m: Self::Model)
        requires
            Self::valid(m),
        ensures
            Self::valid(Self::spec_next(m).0),
            Self::spec_next(m).1 is Some ==> Self::epochs_left(Self::spec_next(m).0)
                < Self::epochs_left(m),
            Self::spec_next(m).1 is None ==> Self::spec_next(m).0 == m,
    ;
}

/// A trainer for a neural network with a single hidden layer.
///
/// A trainer is run epoch by epoch: `next` runs one epoch and reports on it,
/// until the trainer has come to its end, and `train` runs it to the end.
pub trait NeuralNetTrainer: Epochs {
    /// The network that is trained.
    type Network;

    /// What the trainer holds.
    spec fn model(&self) -> Self::Model;

    /// The borrow of the network that the trainer holds. The trainer keeps
    /// the borrow for as long as it lives, so what the network holds in the
    /// end is what the trainer leaves in it.
    spec fn borrowed(&self) -> &mut Self::Network;

    /// Runs one epoch, unless the trainer has come to its end.
    fn next(&mut self) -> (r: Option<Self::Item>)
        requires
            Self::valid(old(self).model()),
        ensures
            (final(self).model(), r) == Self::spec_next(old(self).model()),
            Self::valid(final(self).model()),
            *final(final(self).borrowed()) == *final(old(self).borrowed()),
    ;

    /// Trains a neural net until the stopping condition is met, and returns
    /// what the last epoch reported.
    fn train(&mut self) -> (r: Option<Self::Item>)
        requires
            Self::valid(old(self).model()),
        ensures
            (final(self).model(), r) == run::<Self>(
                old(self).model(),
                None,
                Self::epochs_left(old(self).model()) + 1,
            ),
            Self::spec_next(final(self).model()).1 is None,
            Self::valid(final(self).model()),
            *final(final(self).borrowed()) == *final(old(self).borrowed()),
    {
        let mut last: Option<Self::Item> = None;
        loop
            invariant
                Self::valid(self.model()),
                *final(self.borrowed()) == *final(old(self).borrowed()),
                run::<Self>(old(self).model(), None, Self::epochs_left(old(self).model()) + 1)
                    == run::<Self>(self.model(), last, Self::epochs_left(self.model()) + 1),
            decreases Self::epochs_left(self.model()),
        {
            let ghost before = self.model();
            proof {
                Self::lemma_next(before);
            }
            match self.next() {
                None => {
                    return last;
                },
                Some(item) => {
                    last = Some(item);
                    proof {
                        lemma_run_fuel::<Self>(
                            self.model(),
                            last,
                            Self::epochs_left(before),
                            Self::epochs_left(self.model()) + 1,
                        );
                    }
                },
            }
        }
    }
}

/// The model and the last report after a trainer has run until it came to
/// its end, or for `fuel` epochs if that is sooner, given the last report so
/// far.
pub open spec fn run<T: Epochs>(m: T::Model, last: Option<T::Item>, fuel: nat) -> (
    T::Model,
    Option<T::Item>,
)
    decreases fuel,
{
    if fuel == 0 {
        (m, last)
    } else {
        let (after, item) = T::spec_next(m);
        if item is None {
            (after, last)
        } else {
            run::<T>(after, item, (fuel - 1) as nat)
        }
    }
}

/// Once the fuel is more than the epochs that are left, more fuel changes
/// nothing.
pub proof fn lemma_run_fuel<T: Epochs>(
    m: T::Model,
    last: Option<T::Item>,
    fuel1: nat,
    fuel2: nat,
)
    requires
        T::valid(m),
        T::epochs_left(m) < fuel1,
        T::epochs_left(m) < fuel2,
    ensures
        run::<T>(m, last, fuel1) == run::<T>(m, last, fuel2),
    decreases fuel1,
{
    T::lemma_next(m);
    let (after, item) = T::spec_next(m);
    if item is Some {
        lemma_run_fuel::<T>(after, item, (fuel1 - 1) as nat, (fuel2 - 1) as nat);
    }
}

/// Collection of parameters for a `NeuralNet`.
pub trait NeuralNetParameters<S: Scalar> {
    type ActivationFunction: ActivationFunction<S>;

    type WeightFunction: WeightFunction<S>;

    type BiasWeightFunction: BiasWeightFunction<S>;
}

/// A member of a training set.
pub trait TrainingSetMember<S: Scalar> {
    /// The values expected of the output layer.
    spec fn spec_expected(&self) -> Numbers<S>;

    /// The values given to the input layer.
    spec fn spec_input(&self) -> Numbers<S>;

    fn expected(&self) -> (r: &[S])
        ensures
            r@ == self.spec_expected(),
    ;

    fn input(&self) -> (r: &[S])
        ensures
            r@ == self.spec_input(),
    ;
}

impl<'a, S: Scalar> TrainingSetMember<S> for (&'a [S], &'a [S]) {
    open spec fn spec_expected(&self) -> Seq<S> {
        self.1@
    }

    open spec fn spec_input(&self) -> Seq<S> {
        self.0@
    }

    fn expected(&self) -> (r: &[S]) {
        self.1
    }

    fn input(&self) -> (r: &[S]) {
        self.0
    }
}

impl<S: Scalar> TrainingSetMember<S> for (Vec<S>, Vec<S>) {
    open spec fn spec_expected(&self) -> Seq<S> {
        self.1@
    }

    open spec fn spec_input(&self) -> Seq<S> {
        self.0@
    }

    fn expected(&self) -> (r: &[S]) {
        self.1.as_slice()
    }

    fn input(&self) -> (r: &[S]) {
        self.0.as_slice()
    }
}

/// What a network holds: the values of its three layers and its two weight
/// matrices.
///
/// The last slot of `input` and of `hidden` is the layer's bias node. Row `i`
/// of a weight matrix holds the weights that leave node `i` of the lower
/// layer, one for each node of the upper layer that is no bias node.
pub struct NetModel<S> {
    pub input: Seq<S>,
    pub hidden: Seq<S>,
    pub output: Seq<S>,
    pub winput: Seq<Seq<S>>,
    pub woutput: Seq<Seq<S>>,
}

impl<S: Scalar> NetModel<S> {
    /// The number of input nodes, without the bias node.
    pub open spec fn dim_input(self) -> nat {
        (self.input.len() - 1) as nat
    }

    /// The number of hidden nodes, without the bias node.
    pub open spec fn dim_hidden(self) -> nat {
        (self.hidden.len() - 1) as nat
    }

    /// The number of output nodes.
    pub open spec fn dim_output(self) -> nat {
        self.output.len()
    }

    /// The layers hold their bias nodes, the weight matrices have the shape
    /// the layers ask for, and every length fits the machine.
    pub open spec fn wf(self) -> bool {
        &&& 1 <= self.input.len() <= usize::MAX
        &&& 1 <= self.hidden.len() <= usize::MAX
        &&& self.output.len() < usize::MAX
        &&& self.winput.len() == self.input.len()
        &&& forall|i: int|
            0 <= i < self.winput.len() ==> (#[trigger] self.winput[i]).len() == self.dim_hidden()
        &&& self.woutput.len() == self.hidden.len()
        &&& forall|i: int|
            0 <= i < self.woutput.len() ==> (#[trigger] self.woutput[i]).len() == self.dim_output()
    }

    /// Whether two networks have the same dimensions.
    pub open spec fn same_shape(self, other: NetModel<S>) -> bool {
        &&& self.input.len() == other.input.len()
        &&& self.hidden.len() == other.hidden.len()
        &&& self.output.len() == other.output.len()
    }

    /// Whether the coordinate lies in the network.
    pub open spec fn has_node(self, node: Node) -> bool {
        match node {
            Node::Input(i) => i < self.input.len(),
            Node::Hidden(i) => i < self.hidden.len(),
            Node::Output(i) => i < self.output.len(),
            Node::WeightInputHidden(i, j) => i < self.input.len() && j < self.dim_hidden(),
            Node::WeightHiddenOutput(i, j) => i < self.hidden.len() && j < self.dim_output(),
        }
    }

    /// The value at a coordinate.
    pub open spec fn node(self, node: Node) -> S
        recommends
            self.wf(),
            self.has_node(node),
    {
        match node {
            Node::Input(i) => self.input[i as int],
            Node::Hidden(i) => self.hidden[i as int],
            Node::Output(i) => self.output[i as int],
            Node::WeightInputHidden(i, j) => self.winput[i as int][j as int],
            Node::WeightHiddenOutput(i, j) => self.woutput[i as int][j as int],
        }
    }

    /// The network with the value at one coordinate replaced.
    pub open spec fn set_node(self, node: Node, value: S) -> NetModel<S>
        recommends
            self.wf(),
            self.has_node(node),
    {
        match node {
            Node::Input(i) => NetModel { input: self.input.update(i as int, value), ..self },
            Node::Hidden(i) => NetModel { hidden: self.hidden.update(i as int, value), ..self },
            Node::Output(i) => NetModel { output: self.output.update(i as int, value), ..self },
            Node::WeightInputHidden(i, j) => NetModel {
                winput: self.winput.update(i as int, self.winput[i as int].update(j as int, value)),
                ..self
            },
            Node::WeightHiddenOutput(i, j) => NetModel {
                woutput: self.woutput.update(
                    i as int,
                    self.woutput[i as int].update(j as int, value),
                ),
                ..self
            },
        }
    }

    /// The values of a layer, the bias node included.
    pub open spec fn layer(self, layer: Layer) -> Seq<S> {
        match layer {
            Layer::Input => self.input,
            Layer::Hidden => self.hidden,
            Layer::Output => self.output,
        }
    }

    /// The input layer once `inp` has been written to it: the bias node keeps
    /// its value.
    pub open spec fn fed_input(self, inp: Seq<S>) -> Seq<S> {
        Seq::new(
            self.input.len(),
            |i: int|
                if i < self.dim_input() {
                    inp[i]
                } else {
                    self.input[i]
                },
        )
    }

    /// The hidden layer that the input layer `input` gives: each node is the
    /// activation of the weighted sum over all input nodes, the bias node
    /// included, and the hidden bias node keeps its value.
    pub open spec fn fed_hidden<A: ActivationFunction<S>>(self, input: Seq<S>) -> Seq<S> {
        Seq::new(
            self.hidden.len(),
            |i: int|
                if i < self.dim_hidden() {
                    A::spec_activation(weighted_sum(input, self.winput, i, input.len()))
                } else {
                    self.hidden[i]
                },
        )
    }

    /// The output layer that the hidden layer `hidden` gives: each node is
    /// the activation of the weighted sum over all hidden nodes, the bias
    /// node included.
    pub open spec fn fed_output<A: ActivationFunction<S>>(self, hidden: Seq<S>) -> Seq<S> {
        Seq::new(
            self.output.len(),
            |i: int| A::spec_activation(weighted_sum(hidden, self.woutput, i, hidden.len())),
        )
    }

    /// The network after a forward pass on `inp`: the three layers are
    /// overwritten, the weights and the bias nodes stay.
    pub open spec fn predict<A: ActivationFunction<S>>(self, inp: Seq<S>) -> NetModel<S> {
        let input = self.fed_input(inp);
        let hidden = self.fed_hidden::<A>(input);
        let output = self.fed_output::<A>(hidden);
        NetModel { input, hidden, output, winput: self.winput, woutput: self.woutput }
    }
}

/// A neural network with a single hidden layer.
pub trait NeuralNet<S: Scalar, P: NeuralNetParameters<S>>: Sized {
    /// What the network holds.
    spec fn view(&self) -> NetModel<S>;

    /// Returns the dimensions of the input layer.
    fn dim_input(&self) -> (r: usize)
        requires
            self@.wf(),
        ensures
            r == self@.dim_input(),
    ;

    /// Returns the dimensions of the output layer.
    fn dim_output(&self) -> (r: usize)
        requires
            self@.wf(),
        ensures
            r == self@.dim_output(),
    ;

    /// Returns the dimensions of the hidden layer.
    fn dim_hidden(&self) -> (r: usize)
        requires
            self@.wf(),
        ensures
            r == self@.dim_hidden(),
    ;

    /// Returns the value of a node in a layer at a specified coordinate.
    fn node(&self, i: Node) -> (r: S)
        requires
            self@.wf(),
            self@.has_node(i),
        ensures
            r == self@.node(i),
    ;

    /// Returns a mutable reference to a node in a layer. Whatever is written
    /// through it replaces the value at that coordinate, and nothing else
    /// changes.
    fn node_mut(&mut self, i: Node) -> (r: &mut S)
        requires
            old(self)@.wf(),
            old(self)@.has_node(i),
        ensures
            *r == old(self)@.node(i),
            final(self)@ == old(self)@.set_node(i, *final(r)),
    ;

    /// Returns the specified layer.
    fn layer(&self, layer: Layer) -> (r: &[S])
        requires
            self@.wf(),
        ensures
            r@ == self@.layer(layer),
    ;

    /// Computes the predicted value for a given input and stores it
    /// internally. The prediction can be retrieved using `layer`.
    fn predict(&mut self, inp: &[S])
        requires
            old(self)@.wf(),
            inp@.len() == old(self)@.dim_input(),
        ensures
            final(self)@ == old(self)@.predict::<P::ActivationFunction>(inp@),
    ;

    /// Returns a copy of the network.
    fn duplicate(&self) -> (r: Self)
        requires
            self@.wf(),
        ensures
            r@ == self@,
    ;
}

} // verus!
