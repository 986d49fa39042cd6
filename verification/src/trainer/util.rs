//! The state of a backward pass, and the two steps of training: computing
//! the state from an example, and applying it to the weights.

use crate::network::{copied, copied_rows, element_mut, filled, rows};
use crate::prelude::{
    ActivationFunction, ErrorGradient, Layer, LearningRate, MomentumConstant, NetModel, NeuralNet,
    NeuralNetParameters, Node, ShapeError, TrainerParameters, TrainingSetMember,
};
use crate::scalar::{counted, dot, one, zero, Scalar};
use vstd::prelude::*;

verus! {

/// What a trainer state holds: a delta for every weight of the network, and
/// an error term for every hidden and output node.
///
/// `dinput` has the shape of the weights between input and hidden layer,
/// `doutput` that of the weights between hidden and output layer.
pub struct StateModel<S> {
    pub dinput: Seq<Seq<S>>,
    pub doutput: Seq<Seq<S>>,
    pub ehidden: Seq<S>,
    pub eoutput: Seq<S>,
}

/// The delta of a weight: the learning rate times the value of the node the
/// weight leaves, times the error of the node it enters, plus the momentum
/// times the previous delta.
pub open spec fn delta<S: Scalar>(lrate: S, value: S, error: S, momentum: S, previous: S) -> S {
    lrate.spec_mul(value).spec_mul(error).spec_add(momentum.spec_mul(previous))
}

/// The running average of `acc`, which stands for `num` values, and one more
/// value `peer`.
pub open spec fn averaged<S: Scalar>(acc: S, peer: S, num: S) -> S {
    acc.spec_mul(num).spec_add(peer).spec_div(num.spec_add(one::<S>()))
}

/// A matrix of `height` rows and `width` columns whose element at row `i` and
/// column `j` is `f(i, j)`.
pub open spec fn matrix<S>(height: nat, width: nat, f: spec_fn(int, int) -> S) -> Seq<Seq<S>> {
    Seq::new(height, |i: int| Seq::new(width, |j: int| f(i, j)))
}

/// Whether a matrix has `height` rows of `width` columns each.
pub open spec fn shaped<S>(m: Seq<Seq<S>>, height: nat, width: nat) -> bool {
    &&& m.len() == height
    &&& forall|i: int| 0 <= i < m.len() ==> (#[trigger] m[i]).len() == width
}

impl<S: Scalar> StateModel<S> {
    /// Whether the state has the dimensions that the network asks for.
    pub open spec fn fits(self, net: NetModel<S>) -> bool {
        &&& shaped(self.dinput, net.input.len(), net.dim_hidden())
        &&& shaped(self.doutput, net.hidden.len(), net.dim_output())
        &&& self.ehidden.len() == net.hidden.len()
        &&& self.eoutput.len() == net.output.len() + 1
    }

    /// Whether two states have the same dimensions.
    pub open spec fn same_shape(self, other: StateModel<S>) -> bool {
        &&& self.dinput.len() == other.dinput.len()
        &&& forall|i: int|
            0 <= i < self.dinput.len() ==> (#[trigger] self.dinput[i]).len()
                == other.dinput[i].len()
        &&& self.doutput.len() == other.doutput.len()
        &&& forall|i: int|
            0 <= i < self.doutput.len() ==> (#[trigger] self.doutput[i]).len()
                == other.doutput[i].len()
        &&& self.ehidden.len() == other.ehidden.len()
        &&& self.eoutput.len() == other.eoutput.len()
    }

    /// The state of the given network's dimensions in which everything is
    /// zero.
    pub open spec fn zeroed(net: NetModel<S>) -> StateModel<S> {
        StateModel {
            dinput: matrix(net.input.len(), net.dim_hidden(), |i: int, j: int| zero::<S>()),
            doutput: matrix(net.hidden.len(), net.dim_output(), |i: int, j: int| zero::<S>()),
            ehidden: Seq::new(net.hidden.len(), |i: int| zero::<S>()),
            eoutput: Seq::new(net.output.len() + 1, |i: int| zero::<S>()),
        }
    }

    /// The state after a backward pass over a network that has just made its
    /// prediction for an example, given the values expected of its output.
    ///
    /// The error of each output node comes from the expected value and the
    /// node's value; the error of each hidden node from the node's value and
    /// the output errors, weighted by the node's outgoing weights. Every
    /// weight's delta is renewed from the value of the node the weight
    /// leaves (the bias node included), the new error of the node it enters
    /// and the previous delta. The error slots beyond the layers' nodes
    /// stay.
    pub open spec fn learn<A: ActivationFunction<S>, X: TrainerParameters<S, A>>(
        self,
        net: NetModel<S>,
        expected: Seq<S>,
    ) -> StateModel<S> {
        let lrate = X::LearningRate::spec_lrate();
        let momentum = X::MomentumConstant::spec_momentum();
        let eoutput = Seq::new(
            self.eoutput.len(),
            |i: int|
                if i < net.dim_output() {
                    X::ErrorGradient::spec_erroutput(expected[i], net.output[i])
                } else {
                    self.eoutput[i]
                },
        );
        let ehidden = Seq::new(
            self.ehidden.len(),
            |i: int|
                if i < net.dim_hidden() {
                    X::ErrorGradient::spec_errhidden(
                        net.hidden[i],
                        dot(net.woutput[i], eoutput, net.dim_output()),
                    )
                } else {
                    self.ehidden[i]
                },
        );
        StateModel {
            dinput: Seq::new(
                self.dinput.len(),
                |j: int|
                    Seq::new(
                        self.dinput[j].len(),
                        |i: int| delta(lrate, net.input[j], ehidden[i], momentum, self.dinput[j][i]),
                    ),
            ),
            doutput: Seq::new(
                self.doutput.len(),
                |j: int|
                    Seq::new(
                        self.doutput[j].len(),
                        |i: int|
                            delta(lrate, net.hidden[j], eoutput[i], momentum, self.doutput[j][i]),
                    ),
            ),
            ehidden,
            eoutput,
        }
    }

    /// The state in which every slot is the running average of this state's
    /// slot, which stands for `num` states, and the peer's.
    pub open spec fn merge(self, peer: StateModel<S>, num: S) -> StateModel<S> {
        StateModel {
            dinput: Seq::new(
                self.dinput.len(),
                |i: int|
                    Seq::new(
                        self.dinput[i].len(),
                        |j: int| averaged(self.dinput[i][j], peer.dinput[i][j], num),
                    ),
            ),
            doutput: Seq::new(
                self.doutput.len(),
                |i: int|
                    Seq::new(
                        self.doutput[i].len(),
                        |j: int| averaged(self.doutput[i][j], peer.doutput[i][j], num),
                    ),
            ),
            ehidden: Seq::new(
                self.ehidden.len(),
                |i: int| averaged(self.ehidden[i], peer.ehidden[i], num),
            ),
            eoutput: Seq::new(
                self.eoutput.len(),
                |i: int| averaged(self.eoutput[i], peer.eoutput[i], num),
            ),
        }
    }

    /// The state after the first `n` peers have been merged into it, one
    /// after the other. The count starts at one, for this state itself, and
    /// goes up by one with each peer.
    pub open spec fn combine(self, peers: Seq<StateModel<S>>, n: nat) -> StateModel<S>
        decreases n,
    {
        if n == 0 {
            self
        } else {
            self.combine(peers, (n - 1) as nat).merge(
                peers[n - 1],
                counted(one::<S>(), (n - 1) as nat),
            )
        }
    }
}

/// The average of the states of a sequence that is not empty: the first of
/// them, with each of the others merged into it in turn.
pub open spec fn mean<S: Scalar>(states: Seq<StateModel<S>>) -> StateModel<S>
    recommends
        states.len() >= 1,
{
    states[0].combine(states.subrange(1, states.len() as int), (states.len() - 1) as nat)
}

/// The network after the deltas of a state have been added to its weights.
pub open spec fn applied<S: Scalar>(net: NetModel<S>, state: StateModel<S>) -> NetModel<S> {
    NetModel {
        winput: Seq::new(
            net.winput.len(),
            |i: int|
                Seq::new(
                    net.winput[i].len(),
                    |j: int| net.winput[i][j].spec_add(state.dinput[i][j]),
                ),
        ),
        woutput: Seq::new(
            net.woutput.len(),
            |i: int|
                Seq::new(
                    net.woutput[i].len(),
                    |j: int| net.woutput[i][j].spec_add(state.doutput[i][j]),
                ),
        ),
        ..net
    }
}

/// A forward pass keeps the dimensions and the weights of a network.
pub proof fn lemma_predict_keeps_shape<S: Scalar, A: ActivationFunction<S>>(
    net: NetModel<S>,
    inp: Seq<S>,
)
    requires
        net.wf(),
    ensures
        net.predict::<A>(inp).wf(),
        net.predict::<A>(inp).same_shape(net),
        net.predict::<A>(inp).winput == net.winput,
        net.predict::<A>(inp).woutput == net.woutput,
{
}

/// The states of a sequence, each by its view.
pub open spec fn models<S: Scalar>(states: Seq<TrainerState<S>>) -> Seq<StateModel<S>> {
    Seq::new(states.len(), |k: int| states[k]@)
}

/// Deltas and error terms of a backward pass.
#[derive(Clone, Debug)]
pub struct TrainerState<S> {
    dinput: Vec<Vec<S>>,
    doutput: Vec<Vec<S>>,
    ehidden: Vec<S>,
    eoutput: Vec<S>,
}

/// A matrix of `height` rows and `width` columns of zeros.
fn zero_rows<S: Scalar>(height: usize, width: usize) -> (r: Vec<Vec<S>>)
    ensures
        rows(r@) == matrix(height as nat, width as nat, |i: int, j: int| zero::<S>()),
{
    let mut m: Vec<Vec<S>> = Vec::with_capacity(height);
    let mut i: usize = 0;
    while i < height
        invariant
            i <= height,
            m@.len() == i,
            forall|k: int| 0 <= k < i ==> (#[trigger] m@[k])@.len() == width,
            forall|k: int, j: int|
                0 <= k < i && 0 <= j < width ==> (#[trigger] m@[k]@[j]) == zero::<S>(),
        decreases height - i,
    {
        let row: Vec<S> = filled(width, S::from_int(0));
        m.push(row);
        i += 1;
    }
    assert(rows(m@) =~~= matrix(height as nat, width as nat, |i: int, j: int| zero::<S>()));
    m
}

/// Replaces every element of `acc` by its running average with the peer's.
fn average_vec<S: Scalar>(acc: &mut Vec<S>, peer: &Vec<S>, num: S)
    requires
        old(acc)@.len() == peer@.len(),
    ensures
        final(acc)@.len() == old(acc)@.len(),
        forall|i: int|
            0 <= i < old(acc)@.len() ==> (#[trigger] final(acc)@[i]) == averaged(
                old(acc)@[i],
                peer@[i],
                num,
            ),
{
    let mut i: usize = 0;
    while i < acc.len()
        invariant
            i <= acc@.len(),
            acc@.len() == old(acc)@.len(),
            acc@.len() == peer@.len(),
            forall|k: int|
                0 <= k < i ==> (#[trigger] acc@[k]) == averaged(old(acc)@[k], peer@[k], num),
            forall|k: int| i <= k < acc@.len() ==> (#[trigger] acc@[k]) == old(acc)@[k],
        decreases acc@.len() - i,
    {
        let value: S = acc[i].mul(num).add(peer[i]).div(num.add(S::from_int(1)));
        acc.set(i, value);
        i += 1;
    }
}

/// Replaces every element of the matrix `acc` by its running average with
/// the peer's.
fn average_rows<S: Scalar>(acc: &mut Vec<Vec<S>>, peer: &Vec<Vec<S>>, num: S)
    requires
        old(acc)@.len() == peer@.len(),
        forall|i: int| 0 <= i < peer@.len() ==> (#[trigger] old(acc)@[i])@.len() == peer@[i]@.len(),
    ensures
        final(acc)@.len() == old(acc)@.len(),
        forall|i: int|
            0 <= i < old(acc)@.len() ==> (#[trigger] final(acc)@[i])@.len() == old(acc)@[i]@.len(),
        forall|i: int, j: int|
            0 <= i < old(acc)@.len() && 0 <= j < old(acc)@[i]@.len() ==> (
            #[trigger] final(acc)@[i]@[j]) == averaged(old(acc)@[i]@[j], peer@[i]@[j], num),
{
    let mut i: usize = 0;
    while i < acc.len()
        invariant
            i <= acc@.len(),
            acc@.len() == old(acc)@.len(),
            acc@.len() == peer@.len(),
            forall|k: int| 0 <= k < acc@.len() ==> (#[trigger] acc@[k])@.len() == old(acc)@[k]@.len(),
            forall|k: int|
                0 <= k < peer@.len() ==> (#[trigger] old(acc)@[k])@.len() == peer@[k]@.len(),
            forall|k: int, j: int|
                0 <= k < i && 0 <= j < old(acc)@[k]@.len() ==> (#[trigger] acc@[k]@[j]) == averaged(
                    old(acc)@[k]@[j],
                    peer@[k]@[j],
                    num,
                ),
            forall|k: int| i <= k < acc@.len() ==> (#[trigger] acc@[k]) == old(acc)@[k],
        decreases acc@.len() - i,
    {
        average_vec(&mut acc[i], &peer[i], num);
        i += 1;
    }
}

impl<S: Scalar> TrainerState<S> {
    /// What the state holds.
    pub closed spec fn view(&self) -> StateModel<S> {
        StateModel {
            dinput: rows(self.dinput@),
            doutput: rows(self.doutput@),
            ehidden: self.ehidden@,
            eoutput: self.eoutput@,
        }
    }

    /// Creates the state for a network: every delta and every error term is
    /// zero.
    pub fn new<P, N>(nn: &N) -> (r: TrainerState<S>) where
        N: NeuralNet<S, P>,
        P: NeuralNetParameters<S>,

        requires
            nn@.wf(),
        ensures
            r@ == StateModel::zeroed(nn@),
            r@.fits(nn@),
    {
        let dim_input: usize = nn.dim_input();
        let dim_hidden: usize = nn.dim_hidden();
        let dim_output: usize = nn.dim_output();
        let state = TrainerState {
            dinput: zero_rows(dim_input + 1, dim_hidden),
            doutput: zero_rows(dim_hidden + 1, dim_output),
            ehidden: filled(dim_hidden + 1, S::from_int(0)),
            eoutput: filled(dim_output + 1, S::from_int(0)),
        };
        assert(state.ehidden@ =~= Seq::new(nn@.hidden.len(), |i: int| zero::<S>()));
        assert(state.eoutput@ =~= Seq::new(nn@.output.len() + 1, |i: int| zero::<S>()));
        state
    }

    /// Creates a state from its parts.
    pub fn from_parts(
        dinput: Vec<Vec<S>>,
        doutput: Vec<Vec<S>>,
        ehidden: Vec<S>,
        eoutput: Vec<S>,
    ) -> (r: TrainerState<S>)
        ensures
            r@ == (StateModel {
                dinput: rows(dinput@),
                doutput: rows(doutput@),
                ehidden: ehidden@,
                eoutput: eoutput@,
            }),
    {
        TrainerState { dinput, doutput, ehidden, eoutput }
    }

    /// The deltas of the weights between input and hidden layer.
    pub fn dinput(&self) -> (r: &Vec<Vec<S>>)
        ensures
            rows(r@) == self@.dinput,
    {
        &self.dinput
    }

    /// The deltas of the weights between hidden and output layer.
    pub fn doutput(&self) -> (r: &Vec<Vec<S>>)
        ensures
            rows(r@) == self@.doutput,
    {
        &self.doutput
    }

    /// The error terms of the hidden layer.
    pub fn ehidden(&self) -> (r: &Vec<S>)
        ensures
            r@ == self@.ehidden,
    {
        &self.ehidden
    }

    /// The error terms of the output layer.
    pub fn eoutput(&self) -> (r: &Vec<S>)
        ensures
            r@ == self@.eoutput,
    {
        &self.eoutput
    }

    /// Merges one peer into the state: every delta and every error term
    /// becomes the running average of its value, which stands for `num`
    /// states, and the peer's.
    pub fn merge(&mut self, peer: &TrainerState<S>, num: S)
        requires
            old(self)@.same_shape(peer@),
        ensures
            final(self)@ == old(self)@.merge(peer@, num),
            final(self)@.same_shape(old(self)@),
    {
        assert forall|i: int| 0 <= i < peer.dinput@.len() implies (#[trigger] self.dinput@[i])@.len()
            == peer.dinput@[i]@.len() by {
            assert(self@.dinput[i].len() == peer@.dinput[i].len());
        }
        assert forall|i: int| 0 <= i < peer.doutput@.len() implies (
        #[trigger] self.doutput@[i])@.len() == peer.doutput@[i]@.len() by {
            assert(self@.doutput[i].len() == peer@.doutput[i].len());
        }
        average_rows(&mut self.dinput, &peer.dinput, num);
        average_rows(&mut self.doutput, &peer.doutput, num);
        average_vec(&mut self.ehidden, &peer.ehidden, num);
        average_vec(&mut self.eoutput, &peer.eoutput, num);
        let ghost merged = old(self)@.merge(peer@, num);
        assert(self@.ehidden =~= merged.ehidden);
        assert(self@.eoutput =~= merged.eoutput);
        assert forall|i: int| 0 <= i < merged.dinput.len() implies (#[trigger] self@.dinput[i])
            =~= merged.dinput[i] by {
            assert(self.dinput@[i]@.len() == old(self).dinput@[i]@.len());
        }
        assert(self@.dinput =~= merged.dinput);
        assert forall|i: int| 0 <= i < merged.doutput.len() implies (#[trigger] self@.doutput[i])
            =~= merged.doutput[i] by {
            assert(self.doutput@[i]@.len() == old(self).doutput@[i]@.len());
        }
        assert(self@.doutput =~= merged.doutput);
    }

    /// Averages the state with the given states, which have its dimensions:
    /// each in turn is merged into the state by a running average. The state
    /// itself counts as the first of the states averaged.
    pub fn combine(&mut self, states: Vec<TrainerState<S>>)
        requires
            forall|k: int| 0 <= k < states@.len() ==> old(self)@.same_shape((#[trigger] states@[k])@),
        ensures
            final(self)@ == old(self)@.combine(models(states@), states@.len()),
            final(self)@.same_shape(old(self)@),
    {
        let mut num: S = S::from_int(1);
        let mut k: usize = 0;
        while k < states.len()
            invariant
                k <= states@.len(),
                self@ == old(self)@.combine(models(states@), k as nat),
                self@.same_shape(old(self)@),
                num == counted(one::<S>(), k as nat),
                forall|n: int|
                    0 <= n < states@.len() ==> old(self)@.same_shape((#[trigger] states@[n])@),
            decreases states@.len() - k,
        {
            assert(old(self)@.same_shape(states@[k as int]@));
            self.merge(&states[k], num);
            num = num.add(S::from_int(1));
            k += 1;
        }
    }

    /// Averages the given states, which have the same dimensions and of
    /// which there is at least one: the first of them is averaged with the
    /// others.
    pub fn average(states: Vec<TrainerState<S>>) -> (r: TrainerState<S>)
        requires
            states@.len() >= 1,
            forall|k: int|
                0 <= k < states@.len() ==> states@[0]@.same_shape((#[trigger] states@[k])@),
        ensures
            r@ == mean(models(states@)),
            r@.same_shape(states@[0]@),
    {
        let mut rest: Vec<TrainerState<S>> = states;
        let mut first: TrainerState<S> = rest.remove(0);
        assert(models(rest@) =~= models(states@).subrange(1, states@.len() as int));
        assert forall|k: int| 0 <= k < rest@.len() implies first@.same_shape(
            (#[trigger] rest@[k])@,
        ) by {
            assert(rest@[k] == states@[k + 1]);
        }
        first.combine(rest);
        first
    }

    /// Returns a copy of the state.
    pub fn duplicate(&self) -> (r: TrainerState<S>)
        ensures
            r@ == self@,
    {
        TrainerState {
            dinput: copied_rows(&self.dinput),
            doutput: copied_rows(&self.doutput),
            ehidden: copied(&self.ehidden),
            eoutput: copied(&self.eoutput),
        }
    }
}

/// Renews the deltas of one column of a matrix: in each row `r`, the delta
/// comes from `values[r]`, the error of the column's node and the previous
/// delta.
fn renew_column<S: Scalar>(
    m: &mut Vec<Vec<S>>,
    col: usize,
    values: &[S],
    error: S,
    lrate: S,
    momentum: S,
)
    requires
        values@.len() == old(m)@.len(),
        forall|r: int| 0 <= r < old(m)@.len() ==> col < (#[trigger] old(m)@[r])@.len(),
    ensures
        final(m)@.len() == old(m)@.len(),
        forall|r: int| 0 <= r < old(m)@.len() ==> (#[trigger] final(m)@[r])@.len() == old(m)@[r]@.len(),
        forall|r: int, c: int|
            0 <= r < old(m)@.len() && 0 <= c < old(m)@[r]@.len() ==> (#[trigger] final(m)@[r]@[c]) == (
            if c == col {
                delta(lrate, values@[r], error, momentum, old(m)@[r]@[c])
            } else {
                old(m)@[r]@[c]
            }),
{
    let mut j: usize = 0;
    while j < m.len()
        invariant
            j <= m@.len(),
            m@.len() == old(m)@.len(),
            values@.len() == m@.len(),
            forall|r: int| 0 <= r < m@.len() ==> (#[trigger] m@[r])@.len() == old(m)@[r]@.len(),
            forall|r: int| 0 <= r < old(m)@.len() ==> col < (#[trigger] old(m)@[r])@.len(),
            forall|r: int, c: int|
                0 <= r < m@.len() && 0 <= c < m@[r]@.len() ==> (#[trigger] m@[r]@[c]) == (if c == col
                    && r < j {
                    delta(lrate, values@[r], error, momentum, old(m)@[r]@[c])
                } else {
                    old(m)@[r]@[c]
                }),
        decreases m@.len() - j,
    {
        assert(col < old(m)@[j as int]@.len());
        let previous: S = m[j][col];
        let value: S = lrate.mul(values[j]).mul(error).add(momentum.mul(previous));
        let ghost before = m@;
        m[j].set(col, value);
        assert forall|r: int, c: int| 0 <= r < m@.len() && 0 <= c < m@[r]@.len() implies (
        #[trigger] m@[r]@[c]) == (if c == col && r < j + 1 {
            delta(lrate, values@[r], error, momentum, old(m)@[r]@[c])
        } else {
            old(m)@[r]@[c]
        }) by {
            assert(before[r]@.len() == old(m)@[r]@.len());
            if r != j {
                assert(m@[r] == before[r]);
                assert(before[r]@[c] == before[r]@[c]);
            }
        }
        j += 1;
    }
}

/// The sum of the errors `es`, each weighted by the weight that leaves
/// hidden node `row` for it.
fn weighted_error<S: Scalar, P: NeuralNetParameters<S>, N: NeuralNet<S, P>>(
    nn: &N,
    row: usize,
    es: &Vec<S>,
) -> (r: S)
    requires
        nn@.wf(),
        row < nn@.hidden.len(),
        nn@.dim_output() <= es@.len(),
    ensures
        r == dot(nn@.woutput[row as int], es@, nn@.dim_output()),
{
    let dim_output: usize = nn.dim_output();
    let mut acc: S = S::from_int(0);
    let mut j: usize = 0;
    while j < dim_output
        invariant
            j <= dim_output,
            dim_output == nn@.dim_output(),
            nn@.wf(),
            row < nn@.hidden.len(),
            dim_output <= es@.len(),
            acc == dot(nn@.woutput[row as int], es@, j as nat),
        decreases dim_output - j,
    {
        acc = acc.add(nn.node(Node::WeightHiddenOutput(row, j)).mul(es[j]));
        j += 1;
    }
    acc
}

/// Compares a neural network's prediction for an input, and calculates the
/// error given an expected result. Updates the state with the deltas and
/// errors of the hidden and output layers. The weights of the network stay
/// as they are.
pub fn update_state<S, X, Y, N, M>(nn: &mut N, state: &mut TrainerState<S>, member: &M) where
    S: Scalar,
    X: TrainerParameters<S, Y::ActivationFunction>,
    Y: NeuralNetParameters<S>,
    N: NeuralNet<S, Y>,
    M: TrainingSetMember<S>,

    requires
        old(nn)@.wf(),
        old(state)@.fits(old(nn)@),
        member.spec_input().len() == old(nn)@.dim_input(),
        member.spec_expected().len() == old(nn)@.dim_output(),
    ensures
        final(nn)@ == old(nn)@.predict::<Y::ActivationFunction>(member.spec_input()),
        final(state)@ == old(state)@.learn::<Y::ActivationFunction, X>(
            final(nn)@,
            member.spec_expected(),
        ),
        final(nn)@.wf(),
        final(state)@.fits(final(nn)@),
{
    let exp = member.expected();
    nn.predict(member.input());
    proof {
        lemma_predict_keeps_shape::<S, Y::ActivationFunction>(old(nn)@, member.spec_input());
    }
    let ghost net = nn@;
    let ghost goal = old(state)@.learn::<Y::ActivationFunction, X>(net, member.spec_expected());
    let dim_output: usize = nn.dim_output();
    let dim_hidden: usize = nn.dim_hidden();
    let res = nn.layer(Layer::Output);
    let hid = nn.layer(Layer::Hidden);
    let inp = nn.layer(Layer::Input);
    let lrate: S = X::LearningRate::lrate();
    let momentum: S = X::MomentumConstant::momentum();

    assert forall|r: int| 0 <= r < state.doutput@.len() implies (#[trigger] state.doutput@[r])@.len()
        == dim_output by {
        assert(state@.doutput[r].len() == dim_output);
    }
    assert forall|r: int| 0 <= r < state.dinput@.len() implies (#[trigger] state.dinput@[r])@.len()
        == dim_hidden by {
        assert(state@.dinput[r].len() == dim_hidden);
    }

    let mut i: usize = 0;
    while i < dim_output
        invariant
            i <= dim_output,
            dim_output == net.dim_output(),
            net.wf(),
            old(state)@.fits(net),
            exp@ == member.spec_expected(),
            exp@.len() == dim_output,
            res@ == net.output,
            hid@ == net.hidden,
            lrate == X::LearningRate::spec_lrate(),
            momentum == X::MomentumConstant::spec_momentum(),
            goal == old(state)@.learn::<Y::ActivationFunction, X>(net, member.spec_expected()),
            state.dinput == old(state).dinput,
            state.ehidden == old(state).ehidden,
            state.eoutput@.len() == old(state).eoutput@.len(),
            forall|c: int| 0 <= c < i ==> (#[trigger] state.eoutput@[c]) == goal.eoutput[c],
            forall|c: int|
                i <= c < state.eoutput@.len() ==> (#[trigger] state.eoutput@[c]) == old(
                    state,
                ).eoutput@[c],
            state.doutput@.len() == old(state).doutput@.len(),
            forall|r: int|
                0 <= r < state.doutput@.len() ==> (#[trigger] state.doutput@[r])@.len() == dim_output,
            forall|r: int, c: int|
                0 <= r < state.doutput@.len() && 0 <= c < dim_output ==> (
                #[trigger] state.doutput@[r]@[c]) == (if c < i {
                    goal.doutput[r][c]
                } else {
                    old(state).doutput@[r]@[c]
                }),
        decreases dim_output - i,
    {
        let error: S = X::ErrorGradient::erroutput(exp[i], res[i]);
        state.eoutput.set(i, error);
        renew_column(&mut state.doutput, i, hid, error, lrate, momentum);
        i += 1;
    }
    assert(state.eoutput@ =~= goal.eoutput);

    i = 0;
    while i < dim_hidden
        invariant
            i <= dim_hidden,
            dim_hidden == net.dim_hidden(),
            dim_output == net.dim_output(),
            nn@ == net,
            net.wf(),
            old(state)@.fits(net),
            inp@ == net.input,
            hid@ == net.hidden,
            lrate == X::LearningRate::spec_lrate(),
            momentum == X::MomentumConstant::spec_momentum(),
            goal == old(state)@.learn::<Y::ActivationFunction, X>(net, member.spec_expected()),
            state.doutput@.len() == old(state).doutput@.len(),
            forall|r: int|
                0 <= r < state.doutput@.len() ==> (#[trigger] state.doutput@[r])@.len() == dim_output,
            forall|r: int, c: int|
                0 <= r < state.doutput@.len() && 0 <= c < dim_output ==> (
                #[trigger] state.doutput@[r]@[c]) == goal.doutput[r][c],
            state.eoutput@ == goal.eoutput,
            state.ehidden@.len() == old(state).ehidden@.len(),
            forall|c: int| 0 <= c < i ==> (#[trigger] state.ehidden@[c]) == goal.ehidden[c],
            forall|c: int|
                i <= c < state.ehidden@.len() ==> (#[trigger] state.ehidden@[c]) == old(
                    state,
                ).ehidden@[c],
            state.dinput@.len() == old(state).dinput@.len(),
            forall|r: int|
                0 <= r < state.dinput@.len() ==> (#[trigger] state.dinput@[r])@.len() == dim_hidden,
            forall|r: int, c: int|
                0 <= r < state.dinput@.len() && 0 <= c < dim_hidden ==> (
                #[trigger] state.dinput@[r]@[c]) == (if c < i {
                    goal.dinput[r][c]
                } else {
                    old(state).dinput@[r]@[c]
                }),
        decreases dim_hidden - i,
    {
        let wsum: S = weighted_error::<S, Y, N>(nn, i, &state.eoutput);
        let error: S = X::ErrorGradient::errhidden(nn.node(Node::Hidden(i)), wsum);
        state.ehidden.set(i, error);
        renew_column(&mut state.dinput, i, inp, error, lrate, momentum);
        i += 1;
    }
    assert(state.ehidden@ =~= goal.ehidden);
    assert(state@.dinput =~~= goal.dinput);
    assert(state@.doutput =~~= goal.doutput);
}

/// Updates the state from an example of any lengths: where the example has
/// as many inputs as the network has input nodes, and as many expected
/// values as it has output nodes, this is [`update_state`]; else the call
/// fails, and the network and the state stay as they are. The inputs are
/// looked at first.
pub fn try_update_state<S, X, Y, N, M>(nn: &mut N, state: &mut TrainerState<S>, member: &M) -> (r:
    Result<(), ShapeError>) where
    S: Scalar,
    X: TrainerParameters<S, Y::ActivationFunction>,
    Y: NeuralNetParameters<S>,
    N: NeuralNet<S, Y>,
    M: TrainingSetMember<S>,

    requires
        old(nn)@.wf(),
        old(state)@.fits(old(nn)@),
    ensures
        r == (if member.spec_input().len() != old(nn)@.dim_input() {
            Err::<(), ShapeError>(ShapeError::InputLength)
        } else if member.spec_expected().len() != old(nn)@.dim_output() {
            Err::<(), ShapeError>(ShapeError::ExpectedLength)
        } else {
            Ok::<(), ShapeError>(())
        }),
        r is Err ==> *final(nn) == *old(nn) && *final(state) == *old(state),
        r is Ok ==> final(nn)@ == old(nn)@.predict::<Y::ActivationFunction>(member.spec_input()),
        r is Ok ==> final(state)@ == old(state)@.learn::<Y::ActivationFunction, X>(
            final(nn)@,
            member.spec_expected(),
        ),
{
    if member.input().len() != nn.dim_input() {
        return Err(ShapeError::InputLength);
    }
    if member.expected().len() != nn.dim_output() {
        return Err(ShapeError::ExpectedLength);
    }
    update_state::<S, X, Y, N, M>(nn, state, member);
    Ok(())
}

/// Update weights in each layer of a neural network with a single hidden
/// layer: every weight grows by its delta. The layers stay as they are.
pub fn update_weights<S, P, N>(nn: &mut N, state: &TrainerState<S>) where
    S: Scalar,
    N: NeuralNet<S, P>,
    P: NeuralNetParameters<S>,

    requires
        old(nn)@.wf(),
        state@.fits(old(nn)@),
    ensures
        final(nn)@ == applied(old(nn)@, state@),
        final(nn)@.wf(),
        final(nn)@.same_shape(old(nn)@),
{
    let dim_input: usize = nn.dim_input();
    let dim_hidden: usize = nn.dim_hidden();
    let dim_output: usize = nn.dim_output();
    let ghost goal = applied(old(nn)@, state@);

    let mut i: usize = 0;
    while i < dim_input + 1
        invariant
            i <= dim_input + 1,
            dim_input + 1 == old(nn)@.input.len(),
            dim_hidden == old(nn)@.dim_hidden(),
            old(nn)@.wf(),
            state@.fits(old(nn)@),
            nn@.wf(),
            nn@.input == old(nn)@.input,
            nn@.hidden == old(nn)@.hidden,
            nn@.output == old(nn)@.output,
            nn@.woutput == old(nn)@.woutput,
            forall|r: int, c: int|
                0 <= r < nn@.winput.len() && 0 <= c < dim_hidden ==> (#[trigger] nn@.winput[r][c])
                    == (if r < i {
                    old(nn)@.winput[r][c].spec_add(state@.dinput[r][c])
                } else {
                    old(nn)@.winput[r][c]
                }),
        decreases dim_input + 1 - i,
    {
        let mut j: usize = 0;
        while j < dim_hidden
            invariant
                j <= dim_hidden,
                i < dim_input + 1,
                dim_input + 1 == old(nn)@.input.len(),
                dim_hidden == old(nn)@.dim_hidden(),
                old(nn)@.wf(),
                state@.fits(old(nn)@),
                nn@.wf(),
                nn@.input == old(nn)@.input,
                nn@.hidden == old(nn)@.hidden,
                nn@.output == old(nn)@.output,
                nn@.woutput == old(nn)@.woutput,
                forall|r: int, c: int|
                    0 <= r < nn@.winput.len() && 0 <= c < dim_hidden ==> (
                    #[trigger] nn@.winput[r][c]) == (if r < i || (r == i && c < j) {
                        old(nn)@.winput[r][c].spec_add(state@.dinput[r][c])
                    } else {
                        old(nn)@.winput[r][c]
                    }),
            decreases dim_hidden - j,
        {
            assert(state@.dinput[i as int].len() == dim_hidden);
            assert(state.dinput@[i as int]@.len() == dim_hidden);
            let ghost before = nn@;
            let w: S = nn.node(Node::WeightInputHidden(i, j));
            let value: S = w.add(state.dinput[i][j]);
            *nn.node_mut(Node::WeightInputHidden(i, j)) = value;
            assert(nn@ == before.set_node(Node::WeightInputHidden(i, j), value));
            assert forall|r: int| 0 <= r < nn@.winput.len() implies (#[trigger] nn@.winput[r]).len()
                == nn@.dim_hidden() by {
                assert(before.winput[r].len() == before.dim_hidden());
            }
            assert forall|r: int, c: int|
                0 <= r < nn@.winput.len() && 0 <= c < dim_hidden implies (
            #[trigger] nn@.winput[r][c]) == (if r < i || (r == i && c < j + 1) {
                old(nn)@.winput[r][c].spec_add(state@.dinput[r][c])
            } else {
                old(nn)@.winput[r][c]
            }) by {
                assert(before.winput[r][c] == before.winput[r][c]);
            }
            j += 1;
        }
        i += 1;
    }

    i = 0;
    while i < dim_hidden + 1
        invariant
            i <= dim_hidden + 1,
            dim_input + 1 == old(nn)@.input.len(),
            dim_hidden + 1 == old(nn)@.hidden.len(),
            dim_output == old(nn)@.dim_output(),
            old(nn)@.wf(),
            state@.fits(old(nn)@),
            nn@.wf(),
            nn@.input == old(nn)@.input,
            nn@.hidden == old(nn)@.hidden,
            nn@.output == old(nn)@.output,
            nn@.winput.len() == old(nn)@.winput.len(),
            forall|r: int, c: int|
                0 <= r < nn@.winput.len() && 0 <= c < dim_hidden ==> (#[trigger] nn@.winput[r][c])
                    == old(nn)@.winput[r][c].spec_add(state@.dinput[r][c]),
            forall|r: int, c: int|
                0 <= r < nn@.woutput.len() && 0 <= c < dim_output ==> (#[trigger] nn@.woutput[r][c])
                    == (if r < i {
                    old(nn)@.woutput[r][c].spec_add(state@.doutput[r][c])
                } else {
                    old(nn)@.woutput[r][c]
                }),
        decreases dim_hidden + 1 - i,
    {
        let mut j: usize = 0;
        while j < dim_output
            invariant
                j <= dim_output,
                i < dim_hidden + 1,
                dim_input + 1 == old(nn)@.input.len(),
                dim_hidden + 1 == old(nn)@.hidden.len(),
                dim_output == old(nn)@.dim_output(),
                old(nn)@.wf(),
                state@.fits(old(nn)@),
                nn@.wf(),
                nn@.input == old(nn)@.input,
                nn@.hidden == old(nn)@.hidden,
                nn@.output == old(nn)@.output,
                nn@.winput.len() == old(nn)@.winput.len(),
                forall|r: int, c: int|
                    0 <= r < nn@.winput.len() && 0 <= c < dim_hidden ==> (
                    #[trigger] nn@.winput[r][c]) == old(nn)@.winput[r][c].spec_add(
                        state@.dinput[r][c],
                    ),
                forall|r: int, c: int|
                    0 <= r < nn@.woutput.len() && 0 <= c < dim_output ==> (
                    #[trigger] nn@.woutput[r][c]) == (if r < i || (r == i && c < j) {
                        old(nn)@.woutput[r][c].spec_add(state@.doutput[r][c])
                    } else {
                        old(nn)@.woutput[r][c]
                    }),
            decreases dim_output - j,
        {
            assert(state@.doutput[i as int].len() == dim_output);
            assert(state.doutput@[i as int]@.len() == dim_output);
            let ghost before = nn@;
            let w: S = nn.node(Node::WeightHiddenOutput(i, j));
            let value: S = w.add(state.doutput[i][j]);
            *nn.node_mut(Node::WeightHiddenOutput(i, j)) = value;
            assert(nn@ == before.set_node(Node::WeightHiddenOutput(i, j), value));
            assert forall|r: int| 0 <= r < nn@.woutput.len() implies (
            #[trigger] nn@.woutput[r]).len() == nn@.dim_output() by {
                assert(before.woutput[r].len() == before.dim_output());
            }
            assert forall|r: int, c: int|
                0 <= r < nn@.woutput.len() && 0 <= c < dim_output implies (
            #[trigger] nn@.woutput[r][c]) == (if r < i || (r == i && c < j + 1) {
                old(nn)@.woutput[r][c].spec_add(state@.doutput[r][c])
            } else {
                old(nn)@.woutput[r][c]
            }) by {
                assert(before.woutput[r][c] == before.woutput[r][c]);
            }
            j += 1;
        }
        i += 1;
    }
    assert forall|r: int| 0 <= r < goal.winput.len() implies (#[trigger] nn@.winput[r])
        =~= goal.winput[r] by {
        assert(nn@.winput[r].len() == nn@.dim_hidden());
        assert(old(nn)@.winput[r].len() == old(nn)@.dim_hidden());
    }
    assert(nn@.winput =~= goal.winput);
    assert forall|r: int| 0 <= r < goal.woutput.len() implies (#[trigger] nn@.woutput[r])
        =~= goal.woutput[r] by {
        assert(nn@.woutput[r].len() == nn@.dim_output());
        assert(old(nn)@.woutput[r].len() == old(nn)@.dim_output());
    }
    assert(nn@.woutput =~= goal.woutput);
}

} // verus!
