//! A network whose dimensions are chosen when it is made.

use crate::prelude::{
    ActivationFunction, BiasWeightFunction, Layer, NetModel, NeuralNet, NeuralNetParameters, Node,
    ShapeError, WeightFunction,
};
use crate::scalar::{weighted_sum, zero, Scalar};
use std::marker::PhantomData;
use vstd::prelude::*;

verus! {

/// A feedforward network with one hidden layer.
///
/// The input and the hidden layer each end in a bias node, which is set when
/// the network is made and which a forward pass leaves as it is.
#[derive(Debug)]
pub struct FeedForwardNet<S, P> {
    input: Vec<S>,
    hidden: Vec<S>,
    output: Vec<S>,
    winput: Vec<Vec<S>>,
    woutput: Vec<Vec<S>>,
    ptype: PhantomData<P>,
}

/// The rows of a matrix, each by its view.
pub open spec fn rows<S>(m: Seq<Vec<S>>) -> Seq<Seq<S>> {
    Seq::new(m.len(), |i: int| m[i]@)
}

/// A vector of `len` copies of `value`.
pub(crate) fn filled<S: Scalar>(len: usize, value: S) -> (r: Vec<S>)
    ensures
        r@.len() == len,
        forall|i: int| 0 <= i < len ==> r@[i] == value,
{
    let mut v: Vec<S> = Vec::with_capacity(len);
    let mut i: usize = 0;
    while i < len
        invariant
            i <= len,
            v@.len() == i,
            forall|k: int| 0 <= k < i ==> v@[k] == value,
        decreases len - i,
    {
        v.push(value);
        i += 1;
    }
    v
}

/// A matrix of `height` rows and `width` columns, each weight drawn from the
/// weight function `W` with the arguments `ins` and `outs`.
fn drawn<S: Scalar, W: WeightFunction<S>>(height: usize, width: usize, ins: usize, outs: usize) -> (r:
    Vec<Vec<S>>)
    ensures
        r@.len() == height,
        forall|i: int| 0 <= i < height ==> (#[trigger] r@[i])@.len() == width,
        forall|i: int, j: int|
            0 <= i < height && 0 <= j < width ==> W::spec_initw(ins, outs, #[trigger] r@[i]@[j]),
{
    let mut m: Vec<Vec<S>> = Vec::with_capacity(height);
    let mut i: usize = 0;
    while i < height
        invariant
            i <= height,
            m@.len() == i,
            forall|k: int| 0 <= k < i ==> (#[trigger] m@[k])@.len() == width,
            forall|k: int, j: int|
                0 <= k < i && 0 <= j < width ==> W::spec_initw(ins, outs, #[trigger] m@[k]@[j]),
        decreases height - i,
    {
        let mut row: Vec<S> = Vec::with_capacity(width);
        let mut j: usize = 0;
        while j < width
            invariant
                j <= width,
                row@.len() == j,
                forall|k: int| 0 <= k < j ==> W::spec_initw(ins, outs, #[trigger] row@[k]),
            decreases width - j,
        {
            row.push(W::initw(ins, outs));
            j += 1;
        }
        m.push(row);
        i += 1;
    }
    m
}

/// A copy of a vector.
pub(crate) fn copied<S: Scalar>(v: &Vec<S>) -> (r: Vec<S>)
    ensures
        r@ == v@,
{
    let mut c: Vec<S> = Vec::with_capacity(v.len());
    let mut i: usize = 0;
    while i < v.len()
        invariant
            i <= v@.len(),
            c@ == v@.subrange(0, i as int),
        decreases v@.len() - i,
    {
        c.push(v[i]);
        assert(c@ =~= v@.subrange(0, i + 1));
        i += 1;
    }
    assert(c@ =~= v@);
    c
}

/// A copy of a matrix.
pub(crate) fn copied_rows<S: Scalar>(m: &Vec<Vec<S>>) -> (r: Vec<Vec<S>>)
    ensures
        rows(r@) == rows(m@),
{
    let mut c: Vec<Vec<S>> = Vec::with_capacity(m.len());
    let mut i: usize = 0;
    while i < m.len()
        invariant
            i <= m@.len(),
            c@.len() == i,
            forall|k: int| 0 <= k < i ==> (#[trigger] c@[k])@ == m@[k]@,
        decreases m@.len() - i,
    {
        c.push(copied(&m[i]));
        i += 1;
    }
    assert(rows(c@) =~= rows(m@));
    c
}

/// A mutable reference to one element of a matrix.
pub(crate) fn element_mut<S: Scalar>(m: &mut Vec<Vec<S>>, i: usize, j: usize) -> (r: &mut S)
    requires
        i < old(m)@.len(),
        j < old(m)@[i as int]@.len(),
    ensures
        *r == old(m)@[i as int]@[j as int],
        rows(final(m)@) =~= rows(old(m)@).update(
            i as int,
            rows(old(m)@)[i as int].update(j as int, *final(r)),
        ),
{
    &mut m[i][j]
}

/// The weighted sum that enters node `col` of the upper layer.
fn weighted_input<S: Scalar>(xs: &Vec<S>, ws: &Vec<Vec<S>>, col: usize) -> (r: S)
    requires
        ws@.len() == xs@.len(),
        forall|i: int| 0 <= i < ws@.len() ==> col < (#[trigger] ws@[i])@.len(),
    ensures
        r == weighted_sum(xs@, rows(ws@), col as int, xs@.len()),
{
    let mut acc: S = S::from_int(0);
    let mut j: usize = 0;
    while j < xs.len()
        invariant
            j <= xs@.len(),
            ws@.len() == xs@.len(),
            forall|i: int| 0 <= i < ws@.len() ==> col < (#[trigger] ws@[i])@.len(),
            acc == weighted_sum(xs@, rows(ws@), col as int, j as nat),
        decreases xs@.len() - j,
    {
        acc = acc.add(xs[j].mul(ws[j][col]));
        j += 1;
    }
    acc
}

impl<S: Scalar, P: NeuralNetParameters<S>> FeedForwardNet<S, P> {
    /// Makes a network of the given dimensions. Every weight is drawn from
    /// the weight function, with the dimensions of the input and of the
    /// output layer as its arguments; the two bias nodes get a value of the
    /// bias function each; every other node is zero.
    pub fn new(dim_input: usize, dim_hidden: usize, dim_output: usize) -> (r: Self)
        requires
            dim_input < usize::MAX,
            dim_hidden < usize::MAX,
            dim_output < usize::MAX,
        ensures
            r@.wf(),
            r@.dim_input() == dim_input,
            r@.dim_hidden() == dim_hidden,
            r@.dim_output() == dim_output,
            forall|i: int| 0 <= i < dim_input ==> r@.input[i] == zero::<S>(),
            forall|i: int| 0 <= i < dim_hidden ==> r@.hidden[i] == zero::<S>(),
            forall|i: int| 0 <= i < dim_output ==> r@.output[i] == zero::<S>(),
            P::BiasWeightFunction::spec_biasw(r@.input[dim_input as int]),
            P::BiasWeightFunction::spec_biasw(r@.hidden[dim_hidden as int]),
            forall|i: int, j: int|
                0 <= i <= dim_input && 0 <= j < dim_hidden ==> P::WeightFunction::spec_initw(
                    dim_input,
                    dim_output,
                    #[trigger] r@.winput[i][j],
                ),
            forall|i: int, j: int|
                0 <= i <= dim_hidden && 0 <= j < dim_output ==> P::WeightFunction::spec_initw(
                    dim_input,
                    dim_output,
                    #[trigger] r@.woutput[i][j],
                ),
    {
        let nothing: S = S::from_int(0);
        let mut input: Vec<S> = filled(dim_input + 1, nothing);
        let mut hidden: Vec<S> = filled(dim_hidden + 1, nothing);
        let output: Vec<S> = filled(dim_output, nothing);
        let winput: Vec<Vec<S>> = drawn::<S, P::WeightFunction>(
            dim_input + 1,
            dim_hidden,
            dim_input,
            dim_output,
        );
        let woutput: Vec<Vec<S>> = drawn::<S, P::WeightFunction>(
            dim_hidden + 1,
            dim_output,
            dim_input,
            dim_output,
        );
        input.set(dim_input, P::BiasWeightFunction::biasw());
        hidden.set(dim_hidden, P::BiasWeightFunction::biasw());
        FeedForwardNet { input, hidden, output, winput, woutput, ptype: PhantomData }
    }
}

impl<S: Scalar, P: NeuralNetParameters<S>> NeuralNet<S, P> for FeedForwardNet<S, P> {
    closed spec fn view(&self) -> NetModel<S> {
        NetModel {
            input: self.input@,
            hidden: self.hidden@,
            output: self.output@,
            winput: rows(self.winput@),
            woutput: rows(self.woutput@),
        }
    }

    fn dim_input(&self) -> (r: usize) {
        self.input.len() - 1
    }

    fn dim_output(&self) -> (r: usize) {
        self.output.len()
    }

    fn dim_hidden(&self) -> (r: usize) {
        self.hidden.len() - 1
    }

    fn node(&self, i: Node) -> (r: S) {
        proof {
            match i {
                Node::WeightInputHidden(i, _) => {
                    assert(self@.winput[i as int].len() == self@.dim_hidden());
                },
                Node::WeightHiddenOutput(i, _) => {
                    assert(self@.woutput[i as int].len() == self@.dim_output());
                },
                _ => {},
            }
        }
        match i {
            Node::Input(i) => self.input[i],
            Node::Hidden(i) => self.hidden[i],
            Node::Output(i) => self.output[i],
            Node::WeightInputHidden(i, j) => self.winput[i][j],
            Node::WeightHiddenOutput(i, j) => self.woutput[i][j],
        }
    }

    fn node_mut(&mut self, i: Node) -> (r: &mut S) {
        proof {
            match i {
                Node::WeightInputHidden(i, _) => {
                    assert(self@.winput[i as int].len() == self@.dim_hidden());
                },
                Node::WeightHiddenOutput(i, _) => {
                    assert(self@.woutput[i as int].len() == self@.dim_output());
                },
                _ => {},
            }
        }
        match i {
            Node::Input(i) => &mut self.input[i],
            Node::Hidden(i) => &mut self.hidden[i],
            Node::Output(i) => &mut self.output[i],
            Node::WeightInputHidden(i, j) => element_mut(&mut self.winput, i, j),
            Node::WeightHiddenOutput(i, j) => element_mut(&mut self.woutput, i, j),
        }
    }

    fn layer(&self, layer: Layer) -> (r: &[S]) {
        match layer {
            Layer::Input => self.input.as_slice(),
            Layer::Hidden => self.hidden.as_slice(),
            Layer::Output => self.output.as_slice(),
        }
    }

    fn predict(&mut self, inp: &[S]) {
        let dim_input: usize = self.input.len() - 1;
        let dim_hidden: usize = self.hidden.len() - 1;
        let dim_output: usize = self.output.len();
        let mut i: usize = 0;
        while i < dim_input
            invariant
                i <= dim_input,
                dim_input == old(self).input@.len() - 1,
                inp@.len() == dim_input,
                self.input@.len() == old(self).input@.len(),
                self.hidden == old(self).hidden,
                self.output == old(self).output,
                self.winput == old(self).winput,
                self.woutput == old(self).woutput,
                forall|k: int| 0 <= k < i ==> self.input@[k] == inp@[k],
                forall|k: int| i <= k < self.input@.len() ==> self.input@[k] == old(self).input@[k],
            decreases dim_input - i,
        {
            self.input.set(i, inp[i]);
            i += 1;
        }
        assert(self.input@ =~= old(self)@.fed_input(inp@));
        i = 0;
        while i < dim_hidden
            invariant
                i <= dim_hidden,
                old(self)@.wf(),
                dim_hidden == old(self).hidden@.len() - 1,
                self.input@ == old(self)@.fed_input(inp@),
                self.hidden@.len() == old(self).hidden@.len(),
                self.output == old(self).output,
                self.winput == old(self).winput,
                self.woutput == old(self).woutput,
                forall|k: int|
                    0 <= k < i ==> self.hidden@[k] == old(self)@.fed_hidden::<P::ActivationFunction>(
                        self.input@,
                    )[k],
                forall|k: int|
                    i <= k < self.hidden@.len() ==> self.hidden@[k] == old(self).hidden@[k],
            decreases dim_hidden - i,
        {
            assert forall|k: int| 0 <= k < self.winput@.len() implies i < (
            #[trigger] self.winput@[k])@.len() by {
                assert(old(self)@.winput[k].len() == old(self)@.dim_hidden());
            }
            let sum: S = weighted_input(&self.input, &self.winput, i);
            self.hidden.set(i, P::ActivationFunction::activation(sum));
            i += 1;
        }
        assert(self.hidden@ =~= old(self)@.fed_hidden::<P::ActivationFunction>(self.input@));
        i = 0;
        while i < dim_output
            invariant
                i <= dim_output,
                old(self)@.wf(),
                dim_output == old(self).output@.len(),
                self.input@ == old(self)@.fed_input(inp@),
                self.hidden@ == old(self)@.fed_hidden::<P::ActivationFunction>(self.input@),
                self.output@.len() == old(self).output@.len(),
                self.winput == old(self).winput,
                self.woutput == old(self).woutput,
                forall|k: int|
                    0 <= k < i ==> self.output@[k] == old(self)@.fed_output::<P::ActivationFunction>(
                        self.hidden@,
                    )[k],
            decreases dim_output - i,
        {
            assert forall|k: int| 0 <= k < self.woutput@.len() implies i < (
            #[trigger] self.woutput@[k])@.len() by {
                assert(old(self)@.woutput[k].len() == old(self)@.dim_output());
            }
            let sum: S = weighted_input(&self.hidden, &self.woutput, i);
            self.output.set(i, P::ActivationFunction::activation(sum));
            i += 1;
        }
        assert(self.output@ =~= old(self)@.fed_output::<P::ActivationFunction>(self.hidden@));
    }

    fn duplicate(&self) -> (r: Self) {
        FeedForwardNet {
            input: copied(&self.input),
            hidden: copied(&self.hidden),
            output: copied(&self.output),
            winput: copied_rows(&self.winput),
            woutput: copied_rows(&self.woutput),
            ptype: PhantomData,
        }
    }
}

/// Computes the predicted value for an input of any length: where the input
/// has as many values as the network has input nodes, the network makes its
/// prediction; where it has more or fewer, the call fails and the network
/// stays as it is. No input is cut short or filled up.
pub fn try_predict<S, P, N>(nn: &mut N, inp: &[S]) -> (r: Result<(), ShapeError>) where
    S: Scalar,
    P: NeuralNetParameters<S>,
    N: NeuralNet<S, P>,

    requires
        old(nn)@.wf(),
    ensures
        r == (if inp@.len() == old(nn)@.dim_input() {
            Ok::<(), ShapeError>(())
        } else {
            Err::<(), ShapeError>(ShapeError::InputLength)
        }),
        r is Err ==> *final(nn) == *old(nn),
        r is Ok ==> final(nn)@ == old(nn)@.predict::<P::ActivationFunction>(inp@),
{
    if inp.len() != nn.dim_input() {
        return Err(ShapeError::InputLength);
    }
    nn.predict(inp);
    Ok(())
}

} // verus!
