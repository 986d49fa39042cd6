//! Implementation of backpropagation trainers.

pub mod parallel;

use crate::prelude::{
    ActivationFunction, Epochs, ErrorFunction, Layer, NetModel, NeuralNet, NeuralNetParameters,
    NeuralNetTrainer, TrainerParameters, TrainerParametersWithErrorFunction, TrainingSetMember,
};
use crate::scalar::{zero, Scalar};
use crate::trainer::util::{
    applied, mean, models, update_state, update_weights, StateModel, TrainerState,
};
use scoped_threadpool::Pool;
use std::marker::PhantomData;
use vstd::prelude::*;

verus! {

/// A network together with the state of the trainer that trains it.
pub struct Progress<S> {
    pub net: NetModel<S>,
    pub state: StateModel<S>,
}

/// Whether every member of a training set has as many inputs and expected
/// values as the network has input and output nodes.
pub open spec fn suits<S: Scalar, T: TrainingSetMember<S>>(tset: Seq<T>, net: NetModel<S>) -> bool {
    forall|k: int|
        0 <= k < tset.len() ==> (#[trigger] tset[k]).spec_input().len() == net.dim_input()
            && tset[k].spec_expected().len() == net.dim_output()
}

impl<S: Scalar> Progress<S> {
    /// The network is well formed and the state has its dimensions.
    pub open spec fn wf(self) -> bool {
        self.net.wf() && self.state.fits(self.net)
    }

    /// The network predicts for the example and the state is renewed from
    /// it; the weights stay.
    pub open spec fn observe<A: ActivationFunction<S>, X: TrainerParameters<S, A>, T: TrainingSetMember<S>>(
        self,
        member: T,
    ) -> Progress<S> {
        let net = self.net.predict::<A>(member.spec_input());
        Progress { net, state: self.state.learn::<A, X>(net, member.spec_expected()) }
    }

    /// The deltas of the state are added to the weights of the network.
    pub open spec fn apply(self) -> Progress<S> {
        Progress { net: applied(self.net, self.state), state: self.state }
    }

    /// The first `n` examples of a training set are observed one after the
    /// other, and the weights are updated after each.
    pub open spec fn learn_each<A: ActivationFunction<S>, X: TrainerParameters<S, A>, T: TrainingSetMember<S>>(
        self,
        tset: Seq<T>,
        n: nat,
    ) -> Progress<S>
        decreases n,
    {
        if n == 0 {
            self
        } else {
            self.learn_each::<A, X, T>(tset, (n - 1) as nat).observe::<A, X, T>(tset[n - 1]).apply()
        }
    }

    /// The sum of the errors of the first `n` examples, added up from zero:
    /// each error is measured between what the network predicted for the
    /// example and what was expected, after the examples before it have
    /// been learned.
    pub open spec fn error_sum<A: ActivationFunction<S>, X: TrainerParametersWithErrorFunction<S, A>, T: TrainingSetMember<S>>(
        self,
        tset: Seq<T>,
        n: nat,
    ) -> S
        decreases n,
    {
        if n == 0 {
            zero::<S>()
        } else {
            self.error_sum::<A, X, T>(tset, (n - 1) as nat).spec_add(
                X::ErrorFunction::spec_error(
                    self.learn_each::<A, X, T>(tset, n).net.output,
                    tset[n - 1].spec_expected(),
                ),
            )
        }
    }

    /// The first `n` examples of a training set are observed one after the
    /// other; the weights stay.
    pub open spec fn observe_all<A: ActivationFunction<S>, X: TrainerParameters<S, A>, T: TrainingSetMember<S>>(
        self,
        tset: Seq<T>,
        n: nat,
    ) -> Progress<S>
        decreases n,
    {
        if n == 0 {
            self
        } else {
            self.observe_all::<A, X, T>(tset, (n - 1) as nat).observe::<A, X, T>(tset[n - 1])
        }
    }
}

/// What a trainer holds whose only stopping condition is the number of
/// epochs: the network, the state, the training set, the number of epochs
/// that it has run and the number at which it stops.
pub struct EpochModel<S, T> {
    pub net: NetModel<S>,
    pub state: StateModel<S>,
    pub tset: Seq<T>,
    pub epoch: usize,
    pub max_epochs: usize,
}

impl<S: Scalar, T: TrainingSetMember<S>> EpochModel<S, T> {
    /// The network and the state.
    pub open spec fn progress(self) -> Progress<S> {
        Progress { net: self.net, state: self.state }
    }

    /// The network is well formed, the state and the training set have its
    /// dimensions, and the trainer has not run past its last epoch.
    pub open spec fn wf(self) -> bool {
        &&& self.progress().wf()
        &&& suits(self.tset, self.net)
        &&& self.epoch <= self.max_epochs
    }

    /// The model after one more epoch that has led to `p`.
    pub open spec fn advanced(self, p: Progress<S>) -> EpochModel<S, T> {
        EpochModel { net: p.net, state: p.state, epoch: (self.epoch + 1) as usize, ..self }
    }
}

/// Back-propagation trainer where the stopping criteria is bounded by the
/// epoch. Weights are updated for each example in the training set.
pub struct SeqEpochTrainer<'a, S, N, T, X, Y> {
    nnet: &'a mut N,
    tset: &'a [T],
    state: TrainerState<S>,
    epoch: usize,
    max_epochs: usize,
    tptype: PhantomData<X>,
    nptype: PhantomData<Y>,
}

impl<'a, S, N, T, X, Y> SeqEpochTrainer<'a, S, N, T, X, Y> where
    S: Scalar,
    N: NeuralNet<S, Y>,
    T: TrainingSetMember<S>,
    X: TrainerParameters<S, Y::ActivationFunction>,
    Y: NeuralNetParameters<S>,
 {
    /// Creates a new trainer for a neural net, given a training set, where
    /// the max number of epochs is set to `usize::MAX`.
    pub fn new(nnet: &'a mut N, tset: &'a [T]) -> (r: Self)
        requires
            old(nnet)@.wf(),
            suits(tset@, old(nnet)@),
        ensures
            r.model() == (EpochModel {
                net: old(nnet)@,
                state: StateModel::zeroed(old(nnet)@),
                tset: tset@,
                epoch: 0,
                max_epochs: usize::MAX,
            }),
            Self::valid(r.model()),
            *final(r.borrowed()) == *final(nnet),
    {
        Self::with_epochs(nnet, tset, usize::MAX)
    }

    /// Creates a new trainer for a neural net, given a training set, where
    /// the stopping condition is the number of epochs.
    pub fn with_epochs(nnet: &'a mut N, tset: &'a [T], epochs: usize) -> (r: Self)
        requires
            old(nnet)@.wf(),
            suits(tset@, old(nnet)@),
        ensures
            r.model() == (EpochModel {
                net: old(nnet)@,
                state: StateModel::zeroed(old(nnet)@),
                tset: tset@,
                epoch: 0,
                max_epochs: epochs,
            }),
            Self::valid(r.model()),
            *final(r.borrowed()) == *final(nnet),
    {
        let state: TrainerState<S> = TrainerState::new::<Y, N>(nnet);
        SeqEpochTrainer {
            nnet,
            tset,
            state,
            epoch: 0,
            max_epochs: epochs,
            tptype: PhantomData,
            nptype: PhantomData,
        }
    }

    /// Ends the training and gives the network back.
    pub fn release(self) -> (r: &'a mut N)
        ensures
            r@ == self.model().net,
            *final(r) == *final(self.borrowed()),
    {
        self.nnet
    }
}

/// Observes each example of a training set in turn and updates the weights
/// after each.
fn learn_each<S, N, T, X, Y>(nnet: &mut N, state: &mut TrainerState<S>, tset: &[T]) where
    S: Scalar,
    N: NeuralNet<S, Y>,
    T: TrainingSetMember<S>,
    X: TrainerParameters<S, Y::ActivationFunction>,
    Y: NeuralNetParameters<S>,

    requires
        old(nnet)@.wf(),
        old(state)@.fits(old(nnet)@),
        suits(tset@, old(nnet)@),
    ensures
        (Progress { net: final(nnet)@, state: final(state)@ }) == (Progress {
            net: old(nnet)@,
            state: old(state)@,
        }).learn_each::<Y::ActivationFunction, X, T>(tset@, tset@.len()),
        final(nnet)@.wf(),
        final(state)@.fits(final(nnet)@),
        final(nnet)@.same_shape(old(nnet)@),
{
    let ghost start = Progress { net: nnet@, state: state@ };
    let mut k: usize = 0;
    while k < tset.len()
        invariant
            k <= tset@.len(),
            nnet@.wf(),
            state@.fits(nnet@),
            nnet@.same_shape(old(nnet)@),
            suits(tset@, old(nnet)@),
            start == (Progress { net: old(nnet)@, state: old(state)@ }),
            (Progress { net: nnet@, state: state@ }) == start.learn_each::<Y::ActivationFunction, X, T>(
                tset@,
                k as nat,
            ),
        decreases tset@.len() - k,
    {
        assert(tset@[k as int].spec_input().len() == old(nnet)@.dim_input());
        update_state::<S, X, Y, N, T>(nnet, state, &tset[k]);
        update_weights::<S, Y, N>(nnet, state);
        k += 1;
    }
}

impl<'a, S, N, T, X, Y> Epochs for SeqEpochTrainer<'a, S, N, T, X, Y> where
    S: Scalar,
    N: NeuralNet<S, Y>,
    T: TrainingSetMember<S>,
    X: TrainerParameters<S, Y::ActivationFunction>,
    Y: NeuralNetParameters<S>,
 {
    type Item = usize;

    type Model = EpochModel<S, T>;

    open spec fn valid(m: EpochModel<S, T>) -> bool {
        m.wf()
    }

    /// Unless the trainer has run its last epoch, every example is observed
    /// in turn, with the weights updated after each, and the epoch's number
    /// is reported.
    open spec fn spec_next(m: EpochModel<S, T>) -> (EpochModel<S, T>, Option<usize>) {
        if m.epoch == m.max_epochs {
            (m, None)
        } else {
            (
                m.advanced(
                    m.progress().learn_each::<Y::ActivationFunction, X, T>(m.tset, m.tset.len()),
                ),
                Some(m.epoch),
            )
        }
    }

    open spec fn epochs_left(m: EpochModel<S, T>) -> nat {
        (m.max_epochs - m.epoch) as nat
    }

    proof fn lemma_next(m: EpochModel<S, T>) {
        if m.epoch != m.max_epochs {
            lemma_learn_each::<S, Y::ActivationFunction, X, T>(m.progress(), m.tset, m.tset.len());
        }
    }
}

/// Observing examples and updating the weights keeps a network well formed
/// and its dimensions as they are.
pub proof fn lemma_learn_each<S: Scalar, A: ActivationFunction<S>, X: TrainerParameters<S, A>, T: TrainingSetMember<S>>(
    p: Progress<S>,
    tset: Seq<T>,
    n: nat,
)
    requires
        p.wf(),
        suits(tset, p.net),
        n <= tset.len(),
    ensures
        p.learn_each::<A, X, T>(tset, n).wf(),
        p.learn_each::<A, X, T>(tset, n).net.same_shape(p.net),
    decreases n,
{
    if n > 0 {
        lemma_learn_each::<S, A, X, T>(p, tset, (n - 1) as nat);
        let q = p.learn_each::<A, X, T>(tset, (n - 1) as nat);
        lemma_observe::<S, A, X, T>(q, tset[n - 1]);
        lemma_apply(q.observe::<A, X, T>(tset[n - 1]));
    }
}

/// Observing an example keeps a network well formed and its dimensions as
/// they are.
pub proof fn lemma_observe<S: Scalar, A: ActivationFunction<S>, X: TrainerParameters<S, A>, T: TrainingSetMember<S>>(
    p: Progress<S>,
    member: T,
)
    requires
        p.wf(),
    ensures
        p.observe::<A, X, T>(member).wf(),
        p.observe::<A, X, T>(member).net.same_shape(p.net),
        p.observe::<A, X, T>(member).net.winput == p.net.winput,
        p.observe::<A, X, T>(member).net.woutput == p.net.woutput,
{
}

/// Updating the weights keeps a network well formed and its dimensions as
/// they are.
pub proof fn lemma_apply<S: Scalar>(p: Progress<S>)
    requires
        p.wf(),
    ensures
        p.apply().wf(),
        p.apply().net.same_shape(p.net),
{
}

impl<'a, S, N, T, X, Y> NeuralNetTrainer for SeqEpochTrainer<'a, S, N, T, X, Y> where
    S: Scalar,
    N: NeuralNet<S, Y>,
    T: TrainingSetMember<S>,
    X: TrainerParameters<S, Y::ActivationFunction>,
    Y: NeuralNetParameters<S>,
 {
    type Network = N;

    closed spec fn borrowed(&self) -> &mut N {
        self.nnet
    }

    closed spec fn model(&self) -> EpochModel<S, T> {
        EpochModel {
            net: (*self.nnet)@,
            state: self.state@,
            tset: self.tset@,
            epoch: self.epoch,
            max_epochs: self.max_epochs,
        }
    }

    fn next(&mut self) -> (r: Option<usize>) {
        proof {
            Self::lemma_next(self.model());
        }
        if self.epoch == self.max_epochs {
            None
        } else {
            let epoch: usize = self.epoch;
            learn_each::<S, N, T, X, Y>(self.nnet, &mut self.state, self.tset);
            self.epoch += 1;
            Some(epoch)
        }
    }
}

/// Why a trainer could not be made.
#[derive(Clone, Copy, Debug, PartialEq, Eq, Structural)]
pub enum TrainerError {
    /// The target error is zero or less.
    TargetNotPositive,
}

/// What a trainer holds that stops when the average error of an epoch has
/// come down to a target: the model of an epoch-bound trainer, and the
/// target.
pub struct ErrorModel<S, T> {
    pub epochs: EpochModel<S, T>,
    pub err_target: S,
}

/// Back-propagation trainer where the stopping condition is primarily the
/// calculated average error, with an optional stopping condition based on
/// the epoch. Weights are updated for each example in the training set.
pub struct SeqErrorAverageTrainer<'a, S, N, T, X, Y> {
    nnet: &'a mut N,
    tset: &'a [T],
    epoch: usize,
    state: TrainerState<S>,
    err_target: S,
    max_epochs: usize,
    tptype: PhantomData<X>,
    nptype: PhantomData<Y>,
}

impl<'a, S, N, T, X, Y> SeqErrorAverageTrainer<'a, S, N, T, X, Y> where
    S: Scalar,
    N: NeuralNet<S, Y>,
    T: TrainingSetMember<S>,
    X: TrainerParametersWithErrorFunction<S, Y::ActivationFunction>,
    Y: NeuralNetParameters<S>,
 {
    /// Creates a new trainer for a neural net, given a training set and
    /// target `err`. The max number of epochs the trainer can run is the max
    /// value for `usize`.
    ///
    /// Fails when `err` is less than or equal to 0, and then leaves the
    /// network as it is.
    pub fn new(nnet: &'a mut N, tset: &'a [T], err: S) -> (r: Result<Self, TrainerError>)
        requires
            old(nnet)@.wf(),
            suits(tset@, old(nnet)@),
        ensures
            r is Err <==> err.spec_le(zero::<S>()),
            r is Err ==> *final(nnet) == *old(nnet),
            r is Ok ==> r->Ok_0.model() == (ErrorModel {
                epochs: EpochModel {
                    net: old(nnet)@,
                    state: StateModel::zeroed(old(nnet)@),
                    tset: tset@,
                    epoch: 0,
                    max_epochs: usize::MAX,
                },
                err_target: err,
            }) && Self::valid(r->Ok_0.model()) && *final(r->Ok_0.borrowed()) == *final(nnet),
    {
        Self::with_epoch_bound(nnet, tset, err, usize::MAX)
    }

    /// Creates a new trainer for a neural net, given a training set and
    /// target `err` and target max epoch as an alternate stopping condition.
    ///
    /// Fails when `err` is less than or equal to 0, and then leaves the
    /// network as it is.
    pub fn with_epoch_bound(nnet: &'a mut N, tset: &'a [T], err: S, max: usize) -> (r: Result<
        Self,
        TrainerError,
    >)
        requires
            old(nnet)@.wf(),
            suits(tset@, old(nnet)@),
        ensures
            r is Err <==> err.spec_le(zero::<S>()),
            r is Err ==> *final(nnet) == *old(nnet),
            r is Ok ==> r->Ok_0.model() == (ErrorModel {
                epochs: EpochModel {
                    net: old(nnet)@,
                    state: StateModel::zeroed(old(nnet)@),
                    tset: tset@,
                    epoch: 0,
                    max_epochs: max,
                },
                err_target: err,
            }) && Self::valid(r->Ok_0.model()) && *final(r->Ok_0.borrowed()) == *final(nnet),
    {
        if err.le(S::from_int(0)) {
            return Err(TrainerError::TargetNotPositive);
        }
        let state: TrainerState<S> = TrainerState::new::<Y, N>(nnet);
        Ok(
            SeqErrorAverageTrainer {
                nnet,
                tset,
                epoch: 0,
                state,
                err_target: err,
                max_epochs: max,
                tptype: PhantomData,
                nptype: PhantomData,
            },
        )
    }

    /// Ends the training and gives the network back.
    pub fn release(self) -> (r: &'a mut N)
        ensures
            r@ == self.model().epochs.net,
            *final(r) == *final(self.borrowed()),
    {
        self.nnet
    }
}

/// Observes each example of a training set in turn, updates the weights
/// after each, and adds up the errors of the predictions.
fn learn_each_measured<S, N, T, X, Y>(nnet: &mut N, state: &mut TrainerState<S>, tset: &[T]) -> (err:
    S) where
    S: Scalar,
    N: NeuralNet<S, Y>,
    T: TrainingSetMember<S>,
    X: TrainerParametersWithErrorFunction<S, Y::ActivationFunction>,
    Y: NeuralNetParameters<S>,

    requires
        old(nnet)@.wf(),
        old(state)@.fits(old(nnet)@),
        suits(tset@, old(nnet)@),
    ensures
        (Progress { net: final(nnet)@, state: final(state)@ }) == (Progress {
            net: old(nnet)@,
            state: old(state)@,
        }).learn_each::<Y::ActivationFunction, X, T>(tset@, tset@.len()),
        err == (Progress { net: old(nnet)@, state: old(state)@ }).error_sum::<
            Y::ActivationFunction,
            X,
            T,
        >(tset@, tset@.len()),
{
    let ghost start = Progress { net: nnet@, state: state@ };
    let mut err: S = S::from_int(0);
    let mut k: usize = 0;
    while k < tset.len()
        invariant
            k <= tset@.len(),
            nnet@.wf(),
            state@.fits(nnet@),
            nnet@.same_shape(old(nnet)@),
            suits(tset@, old(nnet)@),
            start == (Progress { net: old(nnet)@, state: old(state)@ }),
            (Progress { net: nnet@, state: state@ }) == start.learn_each::<Y::ActivationFunction, X, T>(
                tset@,
                k as nat,
            ),
            err == start.error_sum::<Y::ActivationFunction, X, T>(tset@, k as nat),
        decreases tset@.len() - k,
    {
        assert(tset@[k as int].spec_input().len() == old(nnet)@.dim_input());
        update_state::<S, X, Y, N, T>(nnet, state, &tset[k]);
        update_weights::<S, Y, N>(nnet, state);
        let exp = tset[k].expected();
        let act = nnet.layer(Layer::Output);
        err = err.add(X::ErrorFunction::error(act, exp));
        k += 1;
    }
    err
}

impl<'a, S, N, T, X, Y> Epochs for SeqErrorAverageTrainer<'a, S, N, T, X, Y> where
    S: Scalar,
    N: NeuralNet<S, Y>,
    T: TrainingSetMember<S>,
    X: TrainerParametersWithErrorFunction<S, Y::ActivationFunction>,
    Y: NeuralNetParameters<S>,
 {
    type Item = (usize, S);

    type Model = ErrorModel<S, T>;

    open spec fn valid(m: ErrorModel<S, T>) -> bool {
        m.epochs.wf()
    }

    /// Unless the trainer has come to its end, every example is observed in
    /// turn, with the weights updated after each, and the epoch's number is
    /// reported with the average error: the sum of the examples' errors
    /// over their number. Where the average is no more than the target, the
    /// trainer has come to its end; else the next epoch is due.
    open spec fn spec_next(m: ErrorModel<S, T>) -> (ErrorModel<S, T>, Option<(usize, S)>) {
        let e = m.epochs;
        if e.epoch == e.max_epochs {
            (m, None)
        } else {
            let p = e.progress().learn_each::<Y::ActivationFunction, X, T>(e.tset, e.tset.len());
            let avg = e.progress().error_sum::<Y::ActivationFunction, X, T>(
                e.tset,
                e.tset.len(),
            ).spec_div(S::spec_from_int(e.tset.len() as int));
            let after = if avg.spec_le(m.err_target) {
                EpochModel { net: p.net, state: p.state, max_epochs: e.epoch, ..e }
            } else {
                e.advanced(p)
            };
            (ErrorModel { epochs: after, ..m }, Some((e.epoch, avg)))
        }
    }

    open spec fn epochs_left(m: ErrorModel<S, T>) -> nat {
        (m.epochs.max_epochs - m.epochs.epoch) as nat
    }

    proof fn lemma_next(m: ErrorModel<S, T>) {
        let e = m.epochs;
        if e.epoch != e.max_epochs {
            lemma_learn_each::<S, Y::ActivationFunction, X, T>(e.progress(), e.tset, e.tset.len());
        }
    }
}

impl<'a, S, N, T, X, Y> NeuralNetTrainer for SeqErrorAverageTrainer<'a, S, N, T, X, Y> where
    S: Scalar,
    N: NeuralNet<S, Y>,
    T: TrainingSetMember<S>,
    X: TrainerParametersWithErrorFunction<S, Y::ActivationFunction>,
    Y: NeuralNetParameters<S>,
 {
    type Network = N;

    closed spec fn borrowed(&self) -> &mut N {
        self.nnet
    }

    closed spec fn model(&self) -> ErrorModel<S, T> {
        ErrorModel {
            epochs: EpochModel {
                net: (*self.nnet)@,
                state: self.state@,
                tset: self.tset@,
                epoch: self.epoch,
                max_epochs: self.max_epochs,
            },
            err_target: self.err_target,
        }
    }

    fn next(&mut self) -> (r: Option<(usize, S)>) {
        proof {
            Self::lemma_next(self.model());
        }
        if self.epoch == self.max_epochs {
            None
        } else {
            let err: S = learn_each_measured::<S, N, T, X, Y>(
                self.nnet,
                &mut self.state,
                self.tset,
            );
            let avg: S = err.div(S::from_usize(self.tset.len()));
            let ret: Option<(usize, S)> = Some((self.epoch, avg));
            if avg.le(self.err_target) {
                self.max_epochs = self.epoch;
            } else {
                self.epoch += 1;
            }
            ret
        }
    }
}

/// Back-propagation trainer where the stopping condition is based on a max
/// number of epochs. Weights are updated at the end of each epoch.
pub struct BatchEpochTrainer<'a, S, N, T, X, Y> {
    nnet: &'a mut N,
    tset: &'a [T],
    state: TrainerState<S>,
    epoch: usize,
    max_epochs: usize,
    tptype: PhantomData<X>,
    nptype: PhantomData<Y>,
}

impl<'a, S, N, T, X, Y> BatchEpochTrainer<'a, S, N, T, X, Y> where
    S: Scalar,
    N: NeuralNet<S, Y>,
    T: TrainingSetMember<S>,
    X: TrainerParameters<S, Y::ActivationFunction>,
    Y: NeuralNetParameters<S>,
 {
    /// Creates a new trainer for a neural net, given a training set, where
    /// the stopping condition is the number of epochs.
    pub fn new(nnet: &'a mut N, tset: &'a [T], epochs: usize) -> (r: Self)
        requires
            old(nnet)@.wf(),
            suits(tset@, old(nnet)@),
        ensures
            r.model() == (EpochModel {
                net: old(nnet)@,
                state: StateModel::zeroed(old(nnet)@),
                tset: tset@,
                epoch: 0,
                max_epochs: epochs,
            }),
            Self::valid(r.model()),
            *final(r.borrowed()) == *final(nnet),
    {
        let state: TrainerState<S> = TrainerState::new::<Y, N>(nnet);
        BatchEpochTrainer {
            nnet,
            tset,
            state,
            epoch: 0,
            max_epochs: epochs,
            tptype: PhantomData,
            nptype: PhantomData,
        }
    }

    /// Ends the training and gives the network back.
    pub fn release(self) -> (r: &'a mut N)
        ensures
            r@ == self.model().net,
            *final(r) == *final(self.borrowed()),
    {
        self.nnet
    }
}

/// Observes each example of a training set in turn. The weights stay.
pub fn observe_all<S, N, T, X, Y>(nnet: &mut N, state: &mut TrainerState<S>, tset: &[T]) where
    S: Scalar,
    N: NeuralNet<S, Y>,
    T: TrainingSetMember<S>,
    X: TrainerParameters<S, Y::ActivationFunction>,
    Y: NeuralNetParameters<S>,

    requires
        old(nnet)@.wf(),
        old(state)@.fits(old(nnet)@),
        suits(tset@, old(nnet)@),
    ensures
        (Progress { net: final(nnet)@, state: final(state)@ }) == (Progress {
            net: old(nnet)@,
            state: old(state)@,
        }).observe_all::<Y::ActivationFunction, X, T>(tset@, tset@.len()),
        final(nnet)@.wf(),
        final(state)@.fits(final(nnet)@),
        final(nnet)@.same_shape(old(nnet)@),
{
    let ghost start = Progress { net: nnet@, state: state@ };
    let mut k: usize = 0;
    while k < tset.len()
        invariant
            k <= tset@.len(),
            nnet@.wf(),
            state@.fits(nnet@),
            nnet@.same_shape(old(nnet)@),
            suits(tset@, old(nnet)@),
            start == (Progress { net: old(nnet)@, state: old(state)@ }),
            (Progress { net: nnet@, state: state@ }) == start.observe_all::<Y::ActivationFunction, X, T>(
                tset@,
                k as nat,
            ),
        decreases tset@.len() - k,
    {
        assert(tset@[k as int].spec_input().len() == old(nnet)@.dim_input());
        update_state::<S, X, Y, N, T>(nnet, state, &tset[k]);
        k += 1;
    }
}

/// Observing examples keeps a network well formed, and its dimensions and
/// weights as they are.
pub proof fn lemma_observe_all<S: Scalar, A: ActivationFunction<S>, X: TrainerParameters<S, A>, T: TrainingSetMember<S>>(
    p: Progress<S>,
    tset: Seq<T>,
    n: nat,
)
    requires
        p.wf(),
    ensures
        p.observe_all::<A, X, T>(tset, n).wf(),
        p.observe_all::<A, X, T>(tset, n).net.same_shape(p.net),
        p.observe_all::<A, X, T>(tset, n).net.winput == p.net.winput,
        p.observe_all::<A, X, T>(tset, n).net.woutput == p.net.woutput,
    decreases n,
{
    if n > 0 {
        lemma_observe_all::<S, A, X, T>(p, tset, (n - 1) as nat);
        lemma_observe::<S, A, X, T>(p.observe_all::<A, X, T>(tset, (n - 1) as nat), tset[n - 1]);
    }
}

impl<'a, S, N, T, X, Y> Epochs for BatchEpochTrainer<'a, S, N, T, X, Y> where
    S: Scalar,
    N: NeuralNet<S, Y>,
    T: TrainingSetMember<S>,
    X: TrainerParameters<S, Y::ActivationFunction>,
    Y: NeuralNetParameters<S>,
 {
    type Item = usize;

    type Model = EpochModel<S, T>;

    open spec fn valid(m: EpochModel<S, T>) -> bool {
        m.wf()
    }

    /// Unless the trainer has run its last epoch, every example is observed
    /// in turn, the weights are updated once after the last of them, and
    /// the epoch's number is reported.
    open spec fn spec_next(m: EpochModel<S, T>) -> (EpochModel<S, T>, Option<usize>) {
        if m.epoch == m.max_epochs {
            (m, None)
        } else {
            (
                m.advanced(
                    m.progress().observe_all::<Y::ActivationFunction, X, T>(
                        m.tset,
                        m.tset.len(),
                    ).apply(),
                ),
                Some(m.epoch),
            )
        }
    }

    open spec fn epochs_left(m: EpochModel<S, T>) -> nat {
        (m.max_epochs - m.epoch) as nat
    }

    proof fn lemma_next(m: EpochModel<S, T>) {
        if m.epoch != m.max_epochs {
            lemma_observe_all::<S, Y::ActivationFunction, X, T>(m.progress(), m.tset, m.tset.len());
            lemma_apply(
                m.progress().observe_all::<Y::ActivationFunction, X, T>(m.tset, m.tset.len()),
            );
        }
    }
}

impl<'a, S, N, T, X, Y> NeuralNetTrainer for BatchEpochTrainer<'a, S, N, T, X, Y> where
    S: Scalar,
    N: NeuralNet<S, Y>,
    T: TrainingSetMember<S>,
    X: TrainerParameters<S, Y::ActivationFunction>,
    Y: NeuralNetParameters<S>,
 {
    type Network = N;

    closed spec fn borrowed(&self) -> &mut N {
        self.nnet
    }

    closed spec fn model(&self) -> EpochModel<S, T> {
        EpochModel {
            net: (*self.nnet)@,
            state: self.state@,
            tset: self.tset@,
            epoch: self.epoch,
            max_epochs: self.max_epochs,
        }
    }

    fn next(&mut self) -> (r: Option<usize>) {
        proof {
            Self::lemma_next(self.model());
        }
        if self.epoch == self.max_epochs {
            None
        } else {
            let epoch: usize = self.epoch;
            observe_all::<S, N, T, X, Y>(self.nnet, &mut self.state, self.tset);
            update_weights::<S, Y, N>(self.nnet, &self.state);
            self.epoch += 1;
            Some(epoch)
        }
    }
}

/// What the parallel trainer holds, but for its pool of threads: its own
/// copy of the network, on which the workers make their predictions, the
/// caller's network, the state, the training set, the number of workers and
/// the size of a worker's shard, the number of epochs that it has run and
/// the number at which it stops.
pub struct ParallelModel<S, T> {
    pub owned: NetModel<S>,
    pub borrowed: NetModel<S>,
    pub state: StateModel<S>,
    pub tset: Seq<T>,
    pub size: usize,
    pub threads: usize,
    pub epoch: usize,
    pub max_epochs: usize,
}

/// The shard of worker `i`: the `size` examples from `i * size` on.
pub open spec fn shard<T>(tset: Seq<T>, i: int, size: int) -> Seq<T> {
    tset.subrange(i * size, i * size + size)
}

/// The trainer's copy of the network and the workers' states, once the
/// first `n` workers have done their shards: each worker starts from a copy
/// of the trainer's state and observes the examples of its shard in turn.
/// The weights stay; the layers are left as the last prediction wrote them.
pub open spec fn shards_observed<S: Scalar, A: ActivationFunction<S>, X: TrainerParameters<S, A>, T: TrainingSetMember<S>>(
    net: NetModel<S>,
    state: StateModel<S>,
    tset: Seq<T>,
    size: int,
    n: nat,
) -> (NetModel<S>, Seq<StateModel<S>>)
    decreases n,
{
    if n == 0 {
        (net, Seq::empty())
    } else {
        let (before, states) = shards_observed::<S, A, X, T>(net, state, tset, size, (n - 1) as nat);
        let after = (Progress { net: before, state }).observe_all::<A, X, T>(
            shard(tset, n - 1, size),
            size as nat,
        );
        (after.net, states.push(after.state))
    }
}

impl<S: Scalar, T: TrainingSetMember<S>> ParallelModel<S, T> {
    /// Both networks are well formed and of the same dimensions, which the
    /// state and the training set have too; there is a worker; a shard has
    /// as many examples as each worker can have; and the trainer has not run
    /// past its last epoch.
    pub open spec fn wf(self) -> bool {
        &&& self.owned.wf()
        &&& self.borrowed.wf()
        &&& self.owned.same_shape(self.borrowed)
        &&& self.state.fits(self.owned)
        &&& suits(self.tset, self.owned)
        &&& self.threads >= 1
        &&& self.size == self.tset.len() / (self.threads as nat)
        &&& self.epoch <= self.max_epochs
    }

    /// The model of a trainer that has not run yet.
    pub open spec fn initial(net: NetModel<S>, tset: Seq<T>, epochs: usize, threads: usize) -> ParallelModel<
        S,
        T,
    > {
        ParallelModel {
            owned: net,
            borrowed: net,
            state: StateModel::zeroed(net),
            tset,
            size: (tset.len() / (threads as nat)) as usize,
            threads,
            epoch: 0,
            max_epochs: epochs,
        }
    }
}

/// Whether `after` and `result` are the network and the state that a worker
/// comes to, who starts from the network `before` and a copy of `state` and
/// observes each example of its shard in turn.
pub open spec fn shard_done<S: Scalar, A: ActivationFunction<S>, X: TrainerParameters<S, A>, T: TrainingSetMember<S>>(
    before: NetModel<S>,
    state: StateModel<S>,
    shard: Seq<T>,
    after: NetModel<S>,
    result: StateModel<S>,
) -> bool {
    (Progress { net: after, state: result }) == (Progress { net: before, state }).observe_all::<
        A,
        X,
        T,
    >(shard, shard.len())
}

/// The number of workers to use: `num_cpus::get()`, the number of logical
/// cores that are available, which its documentation says is at least one.
#[verifier::external_body]
fn available_workers() -> (r: usize)
    ensures
        r >= 1,
{
    num_cpus::get()
}

/// A pool of threads, of the crate `scoped_threadpool`. Nothing is known of
/// what it holds.
#[verifier::external_type_specification]
#[verifier::external_body]
pub struct ExPool(Pool);

/// A pool of `n` threads: `scoped_threadpool::Pool::new`, which asks for at
/// least one thread. Nothing is claimed of the pool.
#[verifier::external_body]
fn new_pool(n: u32) -> (r: Pool)
    requires
        n >= 1,
{
    Pool::new(n)
}

/// Runs a worker's part of an epoch, [`run_shard`], on a thread of the pool:
/// `Pool::scoped` with one call of `Scope::execute`.
///
/// The contract claims of the pool that it runs the job that it is handed
/// once, and that `scoped` returns when the job has come to its end: so the
/// result is there, and it and the network are what [`run_shard`] comes
/// to.
#[verifier::external_body]
fn run_shard_in_pool<S, N, T, X, Y>(
    pool: &mut Pool,
    nnet: &mut N,
    state: &TrainerState<S>,
    shard: &[T],
) -> (r: Option<TrainerState<S>>) where
    S: Scalar + Send + Sync,
    N: NeuralNet<S, Y> + Send,
    T: TrainingSetMember<S> + Sync,
    X: TrainerParameters<S, Y::ActivationFunction>,
    Y: NeuralNetParameters<S>,

    requires
        old(nnet)@.wf(),
        state@.fits(old(nnet)@),
        suits(shard@, old(nnet)@),
    ensures
        r is Some,
        (shard_done::<S, Y::ActivationFunction, X, T>(
            old(nnet)@,
            state@,
            shard@,
            final(nnet)@,
            r->Some_0@,
        )),
{
    let mut result: Option<TrainerState<S>> = None;
    let slot = &mut result;
    pool.scoped(
        |scope| scope.execute(move || *slot = Some(run_shard::<S, N, T, X, Y>(nnet, state, shard))),
    );
    result
}

/// (Parallelized) Back-propagation trainer where the stopping condition is
/// based on a max number of epochs. Weights are updated at the end of each
/// epoch.
///
/// The training set is cut into one shard for each worker. A worker starts
/// from a copy of the trainer's state and observes the examples of its
/// shard, which is what [`run_shard`] does; the average of the workers'
/// states then becomes the trainer's state, and the weights are updated
/// once.
/// What is left over when the training set is cut into shards of equal size
/// is not looked at.
///
/// Each worker's part is run on a thread of the trainer's pool, and the
/// trainer waits for it before it hands out the next, so the workers' states
/// come in the order of their shards.
pub struct BatchEpochTrainerParallel<'a, S, N, T, X, Y> {
    tset: &'a [T],
    pool: Pool,
    size: usize,
    state: TrainerState<S>,
    epoch: usize,
    threads: usize,
    max_epochs: usize,
    owned_nnet: N,
    borrowed_nnet: &'a mut N,
    tptype: PhantomData<X>,
    nptype: PhantomData<Y>,
}

/// The number of examples in each worker's shard, where a training set of
/// `len` examples is cut into one shard for each of `threads` workers. What
/// is left over belongs to no shard.
pub fn shard_size(len: usize, threads: usize) -> (r: usize)
    requires
        threads >= 1,
    ensures
        r == len / threads,
{
    len / threads
}

/// The number of threads that the pool is made with for `threads` workers:
/// one for each worker, as far as the pool can count its threads.
pub fn pool_size(threads: usize) -> (r: u32)
    ensures
        r == if threads <= u32::MAX {
            threads as int
        } else {
            u32::MAX as int
        },
{
    if threads > u32::MAX as usize {
        u32::MAX
    } else {
        threads as u32
    }
}

/// The shard of worker `i`, where each shard has `size` examples.
pub fn shard_of<'a, T>(tset: &'a [T], size: usize, i: usize) -> (r: &'a [T])
    requires
        i * size + size <= tset@.len(),
    ensures
        r@ == shard(tset@, i as int, size as int),
{
    assert(0 <= i * size) by (nonlinear_arith)
        requires
            i >= 0,
            size >= 0,
    ;
    let total: usize = tset.len();
    assert(i * size + size <= total);
    let first: usize = i * size;
    &tset[first..first + size]
}

/// A worker's part of an epoch: starts from a copy of `state` and observes
/// each example of the shard in turn, on the given network, whose weights
/// stay.
pub fn run_shard<S, N, T, X, Y>(nnet: &mut N, state: &TrainerState<S>, shard: &[T]) -> (r:
    TrainerState<S>) where
    S: Scalar,
    N: NeuralNet<S, Y>,
    T: TrainingSetMember<S>,
    X: TrainerParameters<S, Y::ActivationFunction>,
    Y: NeuralNetParameters<S>,

    requires
        old(nnet)@.wf(),
        state@.fits(old(nnet)@),
        suits(shard@, old(nnet)@),
    ensures
        shard_done::<S, Y::ActivationFunction, X, T>(old(nnet)@, state@, shard@, final(nnet)@, r@),
        final(nnet)@.wf(),
        r@.fits(final(nnet)@),
        final(nnet)@.same_shape(old(nnet)@),
{
    let mut local: TrainerState<S> = state.duplicate();
    observe_all::<S, N, T, X, Y>(nnet, &mut local, shard);
    local
}

/// The shards of a training set lie within it.
pub proof fn lemma_shard_bounds(len: nat, threads: nat, i: nat)
    requires
        threads >= 1,
        i < threads,
    ensures
        i * (len / threads) + (len / threads) <= len,
        0 <= i * (len / threads),
{
    let size = len / threads;
    assert(threads * size <= len) by (nonlinear_arith)
        requires
            size == len / threads,
            threads >= 1,
    ;
    assert(i * size + size <= threads * size) by (nonlinear_arith)
        requires
            i < threads,
            size >= 0,
    ;
    assert(0 <= i * size) by (nonlinear_arith)
        requires
            i >= 0,
            size >= 0,
    ;
}

/// The workers leave the trainer's copy of the network well formed, with
/// its dimensions and weights as they were, and each of their states has
/// the network's dimensions.
pub proof fn lemma_shards_observed<S: Scalar, A: ActivationFunction<S>, X: TrainerParameters<S, A>, T: TrainingSetMember<S>>(
    net: NetModel<S>,
    state: StateModel<S>,
    tset: Seq<T>,
    size: int,
    n: nat,
)
    requires
        net.wf(),
        state.fits(net),
    ensures
        shards_observed::<S, A, X, T>(net, state, tset, size, n).0.wf(),
        shards_observed::<S, A, X, T>(net, state, tset, size, n).0.same_shape(net),
        shards_observed::<S, A, X, T>(net, state, tset, size, n).0.winput == net.winput,
        shards_observed::<S, A, X, T>(net, state, tset, size, n).0.woutput == net.woutput,
        shards_observed::<S, A, X, T>(net, state, tset, size, n).1.len() == n,
        forall|k: int|
            0 <= k < n ==> (#[trigger] shards_observed::<S, A, X, T>(
                net,
                state,
                tset,
                size,
                n,
            ).1[k]).fits(net),
    decreases n,
{
    if n > 0 {
        lemma_shards_observed::<S, A, X, T>(net, state, tset, size, (n - 1) as nat);
        let (before, states) = shards_observed::<S, A, X, T>(net, state, tset, size, (n - 1) as nat);
        lemma_observe_all::<S, A, X, T>(
            Progress { net: before, state },
            shard(tset, n - 1, size),
            size as nat,
        );
    }
}

/// Averaging states of a network's dimensions gives a state of these
/// dimensions.
pub proof fn lemma_combine_fits<S: Scalar>(
    state: StateModel<S>,
    peers: Seq<StateModel<S>>,
    n: nat,
    net: NetModel<S>,
)
    requires
        state.fits(net),
    ensures
        state.combine(peers, n).fits(net),
    decreases n,
{
    if n > 0 {
        lemma_combine_fits(state, peers, (n - 1) as nat, net);
    }
}

impl<'a, S, N, T, X, Y> BatchEpochTrainerParallel<'a, S, N, T, X, Y> where
    S: Scalar + Send + Sync,
    N: NeuralNet<S, Y> + Send,
    T: TrainingSetMember<S> + Sync,
    X: TrainerParameters<S, Y::ActivationFunction>,
    Y: NeuralNetParameters<S>,
 {
    /// Creates a new trainer for a neural net, given a training set, where
    /// the max number of epochs is set to `usize::MAX`. There are as many
    /// workers as logical cores are available.
    pub fn new(nnet: &'a mut N, tset: &'a [T]) -> (r: Self)
        requires
            old(nnet)@.wf(),
            suits(tset@, old(nnet)@),
        ensures
            r.model() == ParallelModel::initial(old(nnet)@, tset@, usize::MAX, r.model().threads),
            Self::valid(r.model()),
            *final(r.borrowed()) == *final(nnet),
    {
        Self::with_epochs(nnet, tset, usize::MAX)
    }

    /// Creates a new trainer for a neural net, given a training set, where
    /// the stopping condition is the number of epochs. There are as many
    /// workers as logical cores are available.
    pub fn with_epochs(nnet: &'a mut N, tset: &'a [T], epochs: usize) -> (r: Self)
        requires
            old(nnet)@.wf(),
            suits(tset@, old(nnet)@),
        ensures
            r.model() == ParallelModel::initial(old(nnet)@, tset@, epochs, r.model().threads),
            Self::valid(r.model()),
            *final(r.borrowed()) == *final(nnet),
    {
        let threads: usize = available_workers();
        Self::with_threads(nnet, tset, epochs, threads)
    }

    /// Creates a new trainer for a neural net, given a training set, the
    /// number of epochs at which it stops, and the number of workers. The
    /// pool is made with [`pool_size`] threads.
    pub fn with_threads(nnet: &'a mut N, tset: &'a [T], epochs: usize, threads: usize) -> (r: Self)
        requires
            old(nnet)@.wf(),
            suits(tset@, old(nnet)@),
            threads >= 1,
        ensures
            r.model() == ParallelModel::initial(old(nnet)@, tset@, epochs, threads),
            Self::valid(r.model()),
            *final(r.borrowed()) == *final(nnet),
    {
        let state: TrainerState<S> = TrainerState::new::<Y, N>(nnet);
        let owned_nnet: N = nnet.duplicate();
        BatchEpochTrainerParallel {
            tset,
            pool: new_pool(pool_size(threads)),
            size: shard_size(tset.len(), threads),
            state,
            epoch: 0,
            threads,
            max_epochs: epochs,
            owned_nnet,
            borrowed_nnet: nnet,
            tptype: PhantomData,
            nptype: PhantomData,
        }
    }

    /// Ends the training and gives the network back.
    pub fn release(self) -> (r: &'a mut N)
        ensures
            r@ == self.model().borrowed,
            *final(r) == *final(self.borrowed()),
    {
        self.borrowed_nnet
    }
}

impl<'a, S, N, T, X, Y> Epochs for BatchEpochTrainerParallel<'a, S, N, T, X, Y> where
    S: Scalar,
    N: NeuralNet<S, Y>,
    T: TrainingSetMember<S>,
    X: TrainerParameters<S, Y::ActivationFunction>,
    Y: NeuralNetParameters<S>,
 {
    type Item = usize;

    type Model = ParallelModel<S, T>;

    open spec fn valid(m: ParallelModel<S, T>) -> bool {
        m.wf()
    }

    /// Unless the trainer has run its last epoch, the workers do their
    /// shards, the average of their states becomes the trainer's state, the
    /// weights of both networks are updated from it, and the epoch's number
    /// is reported. With one worker the average is that worker's state.
    open spec fn spec_next(m: ParallelModel<S, T>) -> (ParallelModel<S, T>, Option<usize>) {
        if m.epoch == m.max_epochs {
            (m, None)
        } else {
            let (net, states) = shards_observed::<S, Y::ActivationFunction, X, T>(
                m.owned,
                m.state,
                m.tset,
                m.size as int,
                m.threads as nat,
            );
            let state = mean(states);
            (
                ParallelModel {
                    owned: applied(net, state),
                    borrowed: applied(m.borrowed, state),
                    state,
                    epoch: (m.epoch + 1) as usize,
                    ..m
                },
                Some(m.epoch),
            )
        }
    }

    open spec fn epochs_left(m: ParallelModel<S, T>) -> nat {
        (m.max_epochs - m.epoch) as nat
    }

    proof fn lemma_next(m: ParallelModel<S, T>) {
        if m.epoch != m.max_epochs {
            lemma_shards_observed::<S, Y::ActivationFunction, X, T>(
                m.owned,
                m.state,
                m.tset,
                m.size as int,
                m.threads as nat,
            );
            let (net, states) = shards_observed::<S, Y::ActivationFunction, X, T>(
                m.owned,
                m.state,
                m.tset,
                m.size as int,
                m.threads as nat,
            );
            assert(states[0].fits(m.owned));
            lemma_combine_fits(
                states[0],
                states.subrange(1, states.len() as int),
                (states.len() - 1) as nat,
                m.owned,
            );
            let state = mean(states);
            lemma_apply(Progress { net, state });
            lemma_apply(Progress { net: m.borrowed, state });
        }
    }
}

impl<'a, S, N, T, X, Y> NeuralNetTrainer for BatchEpochTrainerParallel<'a, S, N, T, X, Y> where
    S: Scalar + Send + Sync,
    N: NeuralNet<S, Y> + Send,
    T: TrainingSetMember<S> + Sync,
    X: TrainerParameters<S, Y::ActivationFunction>,
    Y: NeuralNetParameters<S>,
 {
    type Network = N;

    closed spec fn borrowed(&self) -> &mut N {
        self.borrowed_nnet
    }

    closed spec fn model(&self) -> ParallelModel<S, T> {
        ParallelModel {
            owned: self.owned_nnet@,
            borrowed: (*self.borrowed_nnet)@,
            state: self.state@,
            tset: self.tset@,
            size: self.size,
            threads: self.threads,
            epoch: self.epoch,
            max_epochs: self.max_epochs,
        }
    }

    fn next(&mut self) -> (r: Option<usize>) {
        proof {
            Self::lemma_next(self.model());
        }
        if self.epoch == self.max_epochs {
            None
        } else {
            let epoch: usize = self.epoch;
            let ghost start = self.model();
            let mut states: Vec<TrainerState<S>> = Vec::with_capacity(self.threads);
            let mut i: usize = 0;
            while i < self.threads
                invariant
                    i <= self.threads,
                    start.wf(),
                    start == old(self).model(),
                    self.model() == (ParallelModel { owned: self.owned_nnet@, ..start }),
                    *final(self.borrowed()) == *final(old(self).borrowed()),
                    self.epoch == epoch,
                    epoch < self.max_epochs,
                    (self.owned_nnet@, models(states@)) == shards_observed::<
                        S,
                        Y::ActivationFunction,
                        X,
                        T,
                    >(start.owned, start.state, start.tset, start.size as int, i as nat),
                decreases self.threads - i,
            {
                proof {
                    lemma_shard_bounds(self.tset@.len(), self.threads as nat, i as nat);
                    lemma_shards_observed::<S, Y::ActivationFunction, X, T>(
                        start.owned,
                        start.state,
                        start.tset,
                        start.size as int,
                        i as nat,
                    );
                }
                assert(self.size == self.tset@.len() / (self.threads as nat));
                let part: &[T] = shard_of(self.tset, self.size, i);
                let ghost before = models(states@);
                let ghost net_before = self.owned_nnet@;
                let local: TrainerState<S> = run_shard_in_pool::<S, N, T, X, Y>(
                    &mut self.pool,
                    &mut self.owned_nnet,
                    &self.state,
                    part,
                ).unwrap();
                proof {
                    lemma_observe_all::<S, Y::ActivationFunction, X, T>(
                        Progress { net: net_before, state: self.state@ },
                        part@,
                        part@.len(),
                    );
                }
                states.push(local);
                assert(models(states@) =~= before.push(local@));
                i += 1;
            }
            proof {
                lemma_shards_observed::<S, Y::ActivationFunction, X, T>(
                    start.owned,
                    start.state,
                    start.tset,
                    start.size as int,
                    start.threads as nat,
                );
            }
            assert forall|k: int| 0 <= k < states@.len() implies states@[0]@.same_shape(
                (#[trigger] states@[k])@,
            ) by {
                assert(models(states@)[0].fits(start.owned));
                assert(models(states@)[k].fits(start.owned));
            }
            self.state = TrainerState::average(states);
            update_weights::<S, Y, N>(&mut self.owned_nnet, &self.state);
            update_weights::<S, Y, N>(self.borrowed_nnet, &self.state);
            self.epoch += 1;
            Some(epoch)
        }
    }
}

} // verus!
