//! Laws that relate the operations of the crate.
//!
//! The laws on averaging are stated for exact arithmetic. No number type of
//! finite size has it: for such a type they describe what averaging
//! approximates. For fixed-point numbers the law on copies of a state is
//! stated once more, as it holds of them within their range; the law on the
//! order of the peers is stated with its tolerance in [`crate::tolerance`].

use crate::fixed::{quotient, scale, Fixed};
use crate::prelude::{
    lemma_run_fuel, run, ActivationFunction, Epochs, NetModel, NeuralNet, NeuralNetParameters,
    TrainerParameters, TrainerParametersWithErrorFunction, TrainingSetMember,
};
use crate::scalar::{counted, one, zero, Scalar};
use crate::trainer::backpropagation::{
    lemma_apply, lemma_learn_each, lemma_observe, lemma_observe_all, shard, shards_observed,
    suits, BatchEpochTrainer, BatchEpochTrainerParallel, EpochModel, ErrorModel, ParallelModel,
    Progress, SeqEpochTrainer, SeqErrorAverageTrainer,
};
use crate::trainer::util::{averaged, mean, StateModel};
use vstd::prelude::*;

verus! {

/// Whether the arithmetic of `S` is exact, as far as averaging needs it:
/// addition is commutative and associative, multiplication distributes over
/// addition and has one as its unit, division by a number other than zero
/// undoes multiplication by it and is undone by it, and no count is zero.
pub open spec fn exact<S: Scalar>() -> bool {
    &&& forall|a: S, b: S| #[trigger] a.spec_add(b) == b.spec_add(a)
    &&& forall|a: S, b: S, c: S| #[trigger] a.spec_add(b).spec_add(c) == a.spec_add(b.spec_add(c))
    &&& forall|a: S, b: S, c: S| #[trigger]
        a.spec_mul(b.spec_add(c)) == a.spec_mul(b).spec_add(a.spec_mul(c))
    &&& forall|a: S| #[trigger] a.spec_mul(one::<S>()) == a
    &&& forall|a: S, c: S| c != zero::<S>() ==> #[trigger] a.spec_mul(c).spec_div(c) == a
    &&& forall|a: S, c: S| c != zero::<S>() ==> #[trigger] a.spec_div(c).spec_mul(c) == a
    &&& forall|k: nat| #[trigger] counted(one::<S>(), k) != zero::<S>()
}

/// A forward pass depends on the weights, the bias nodes and the input
/// alone: two networks that agree in these predict the same, whatever
/// their layers held before.
pub proof fn law_predict_is_pure<S: Scalar, A: ActivationFunction<S>>(
    a: NetModel<S>,
    b: NetModel<S>,
    inp: Seq<S>,
)
    requires
        a.wf(),
        b.wf(),
        a.same_shape(b),
        a.winput == b.winput,
        a.woutput == b.woutput,
        a.input[a.dim_input() as int] == b.input[b.dim_input() as int],
        a.hidden[a.dim_hidden() as int] == b.hidden[b.dim_hidden() as int],
    ensures
        a.predict::<A>(inp) == b.predict::<A>(inp),
{
    assert(a.fed_input(inp) =~= b.fed_input(inp));
    let input = a.fed_input(inp);
    assert(a.fed_hidden::<A>(input) =~= b.fed_hidden::<A>(input));
    let hidden = a.fed_hidden::<A>(input);
    assert(a.fed_output::<A>(hidden) =~= b.fed_output::<A>(hidden));
}

/// A forward pass on the same input twice, with the weights left as they
/// are in between, gives the same network as one pass.
pub proof fn law_predict_twice<S: Scalar, A: ActivationFunction<S>>(net: NetModel<S>, inp: Seq<S>)
    requires
        net.wf(),
    ensures
        net.predict::<A>(inp).predict::<A>(inp) == net.predict::<A>(inp),
        net.predict::<A>(inp).predict::<A>(inp).output == net.predict::<A>(inp).output,
{
    let once = net.predict::<A>(inp);
    assert(once.wf());
    law_predict_is_pure::<S, A>(once, net, inp);
}

/// In exact arithmetic, the running average of a value with itself is the
/// value.
pub proof fn lemma_averaged_same<S: Scalar>(x: S, k: nat)
    requires
        exact::<S>(),
    ensures
        averaged(x, x, counted(one::<S>(), k)) == x,
{
    let num = counted(one::<S>(), k);
    let next = counted(one::<S>(), k + 1);
    assert(next == num.spec_add(one::<S>()));
    assert(x.spec_mul(one::<S>()) == x);
    assert(x.spec_mul(num.spec_add(one::<S>())) == x.spec_mul(num).spec_add(
        x.spec_mul(one::<S>()),
    ));
    assert(next != zero::<S>());
    assert(x.spec_mul(next).spec_div(next) == x);
}

/// The places of a state that hold a number.
pub enum Slot {
    /// The delta of the weight from input node `0` to hidden node `1`.
    DeltaInput(int, int),
    /// The delta of the weight from hidden node `0` to output node `1`.
    DeltaOutput(int, int),
    /// The error of a hidden node.
    ErrorHidden(int),
    /// The error of an output node.
    ErrorOutput(int),
}

/// Whether a state has the slot.
pub open spec fn has_slot<S: Scalar>(state: StateModel<S>, slot: Slot) -> bool {
    match slot {
        Slot::DeltaInput(i, j) => 0 <= i < state.dinput.len() && 0 <= j < state.dinput[i].len(),
        Slot::DeltaOutput(i, j) => 0 <= i < state.doutput.len() && 0 <= j < state.doutput[i].len(),
        Slot::ErrorHidden(i) => 0 <= i < state.ehidden.len(),
        Slot::ErrorOutput(i) => 0 <= i < state.eoutput.len(),
    }
}

/// The number in a slot of a state.
pub open spec fn at<S: Scalar>(state: StateModel<S>, slot: Slot) -> S {
    match slot {
        Slot::DeltaInput(i, j) => state.dinput[i][j],
        Slot::DeltaOutput(i, j) => state.doutput[i][j],
        Slot::ErrorHidden(i) => state.ehidden[i],
        Slot::ErrorOutput(i) => state.eoutput[i],
    }
}

/// The numbers that the states of a sequence hold in one slot.
pub open spec fn column<S: Scalar>(peers: Seq<StateModel<S>>, slot: Slot) -> Seq<S> {
    Seq::new(peers.len(), |k: int| at(peers[k], slot))
}

/// The running average of `acc` and the first `n` of the numbers `ps`, as
/// averaging states computes it in each slot.
pub open spec fn running_average<S: Scalar>(acc: S, ps: Seq<S>, n: nat) -> S
    decreases n,
{
    if n == 0 {
        acc
    } else {
        averaged(running_average(acc, ps, (n - 1) as nat), ps[n - 1], counted(one::<S>(), (n - 1) as nat))
    }
}

/// The sum of `acc` and the first `n` of the numbers `ps`, added up from the
/// left.
pub open spec fn running_sum<S: Scalar>(acc: S, ps: Seq<S>, n: nat) -> S
    decreases n,
{
    if n == 0 {
        acc
    } else {
        running_sum(acc, ps, (n - 1) as nat).spec_add(ps[n - 1])
    }
}

/// Two states of the same dimensions that hold the same number in every
/// slot are the same state.
pub proof fn lemma_same_slots<S: Scalar>(a: StateModel<S>, b: StateModel<S>)
    requires
        a.same_shape(b),
        forall|slot: Slot| has_slot(a, slot) ==> at(a, slot) == at(b, slot),
    ensures
        a == b,
{
    assert forall|i: int| 0 <= i < a.dinput.len() implies (#[trigger] a.dinput[i]) =~= b.dinput[i] by {
        assert forall|j: int| 0 <= j < a.dinput[i].len() implies a.dinput[i][j] == b.dinput[i][j] by {
            assert(has_slot(a, Slot::DeltaInput(i, j)));
            assert(at(a, Slot::DeltaInput(i, j)) == at(b, Slot::DeltaInput(i, j)));
        }
    }
    assert forall|i: int| 0 <= i < a.doutput.len() implies (#[trigger] a.doutput[i])
        =~= b.doutput[i] by {
        assert forall|j: int| 0 <= j < a.doutput[i].len() implies a.doutput[i][j]
            == b.doutput[i][j] by {
            assert(has_slot(a, Slot::DeltaOutput(i, j)));
            assert(at(a, Slot::DeltaOutput(i, j)) == at(b, Slot::DeltaOutput(i, j)));
        }
    }
    assert forall|i: int| 0 <= i < a.ehidden.len() implies a.ehidden[i] == b.ehidden[i] by {
        assert(has_slot(a, Slot::ErrorHidden(i)));
        assert(at(a, Slot::ErrorHidden(i)) == at(b, Slot::ErrorHidden(i)));
    }
    assert forall|i: int| 0 <= i < a.eoutput.len() implies a.eoutput[i] == b.eoutput[i] by {
        assert(has_slot(a, Slot::ErrorOutput(i)));
        assert(at(a, Slot::ErrorOutput(i)) == at(b, Slot::ErrorOutput(i)));
    }
    assert(a.dinput =~= b.dinput);
    assert(a.doutput =~= b.doutput);
    assert(a.ehidden =~= b.ehidden);
    assert(a.eoutput =~= b.eoutput);
}

/// A state averaged with itself is the state, where this holds of the
/// number in each of its slots.
pub proof fn lemma_merge_same<S: Scalar>(state: StateModel<S>, num: S)
    requires
        forall|slot: Slot|
            has_slot(state, slot) ==> averaged(at(state, slot), at(state, slot), num) == at(
                state,
                slot,
            ),
    ensures
        state.merge(state, num) == state,
{
    let merged = state.merge(state, num);
    assert forall|slot: Slot| has_slot(merged, slot) implies at(merged, slot) == at(state, slot) by {
        assert(has_slot(state, slot));
    }
    lemma_same_slots(merged, state);
}

/// In exact arithmetic, averaging a state with copies of itself gives the
/// state.
pub proof fn law_combine_identical<S: Scalar>(state: StateModel<S>, peers: Seq<StateModel<S>>, n: nat)
    requires
        exact::<S>(),
        n <= peers.len(),
        forall|k: int| 0 <= k < n ==> peers[k] == state,
    ensures
        state.combine(peers, n) == state,
    decreases n,
{
    if n > 0 {
        law_combine_identical(state, peers, (n - 1) as nat);
        assert forall|slot: Slot| has_slot(state, slot) implies averaged(
            at(state, slot),
            at(state, slot),
            counted(one::<S>(), (n - 1) as nat),
        ) == at(state, slot) by {
            lemma_averaged_same(at(state, slot), (n - 1) as nat);
        }
        lemma_merge_same(state, counted(one::<S>(), (n - 1) as nat));
    }
}

/// A count in fixed-point numbers is exact as long as it has not come to
/// the end of the range.
pub proof fn lemma_fixed_count(k: nat)
    requires
        k + 1 < 0x8000_0000,
    ensures
        counted(one::<Fixed>(), k).raw == (k + 1) * scale(),
    decreases k,
{
    if k > 0 {
        lemma_fixed_count((k - 1) as nat);
    }
}

/// The quotient of a multiple is exact.
pub proof fn lemma_quotient_of_multiple(a: int, m: int)
    requires
        m > 0,
    ensures
        quotient(a * m, m) == a,
{
    if a >= 0 {
        assert(a * m >= 0) by (nonlinear_arith)
            requires
                a >= 0,
                m > 0,
        ;
        vstd::arithmetic::div_mod::lemma_div_by_multiple(a, m);
    } else {
        assert(a * m < 0) by (nonlinear_arith)
            requires
                a < 0,
                m > 0,
        ;
        assert(-(a * m) == (-a) * m) by (nonlinear_arith);
        vstd::arithmetic::div_mod::lemma_div_by_multiple(-a, m);
    }
}

/// In fixed-point numbers, the running average of a value with itself is
/// the value, as long as the value times the new count is within the
/// range.
pub proof fn lemma_averaged_same_fixed(x: Fixed, k: nat)
    requires
        k + 2 < 0x8000_0000,
        i64::MIN <= x.raw * (k + 2) <= i64::MAX,
    ensures
        averaged(x, x, counted(one::<Fixed>(), k)) == x,
{
    let c = (k + 1) as int;
    let num = counted(one::<Fixed>(), k);
    lemma_fixed_count(k);
    assert(num.raw == c * scale());
    assert(i64::MIN <= x.raw * c <= i64::MAX) by (nonlinear_arith)
        requires
            i64::MIN <= x.raw * (c + 1) <= i64::MAX,
            c >= 1,
    ;
    assert(x.raw * (c * scale()) == (x.raw * c) * scale()) by (nonlinear_arith);
    lemma_quotient_of_multiple(x.raw * c, scale());
    assert(x.spec_mul(num).raw == x.raw * c);
    assert(x.raw * c + x.raw == x.raw * (c + 1)) by (nonlinear_arith);
    let top = x.spec_mul(num).spec_add(x);
    assert(top.raw == x.raw * (c + 1));
    let count = num.spec_add(one::<Fixed>());
    assert(count.raw == (c + 1) * scale()) by {
        assert(c * scale() + scale() == (c + 1) * scale()) by (nonlinear_arith);
    }
    assert((x.raw * (c + 1)) * scale() == x.raw * ((c + 1) * scale())) by (nonlinear_arith);
    lemma_quotient_of_multiple(x.raw as int, (c + 1) * scale());
}

/// In fixed-point numbers, averaging a state with `n` copies of itself
/// gives the state, as long as each of its numbers times `n + 1` is within
/// the range.
pub proof fn law_combine_identical_fixed(
    state: StateModel<Fixed>,
    peers: Seq<StateModel<Fixed>>,
    n: nat,
)
    requires
        n <= peers.len(),
        forall|k: int| 0 <= k < n ==> peers[k] == state,
        n + 1 < 0x8000_0000,
        forall|slot: Slot|
            has_slot(state, slot) ==> i64::MIN <= #[trigger] at(state, slot).raw * (n + 1)
                <= i64::MAX,
    ensures
        state.combine(peers, n) == state,
    decreases n,
{
    if n > 0 {
        assert forall|slot: Slot| has_slot(state, slot) implies i64::MIN <= #[trigger] at(
            state,
            slot,
        ).raw * n <= i64::MAX by {
            let raw = at(state, slot).raw;
            assert(i64::MIN <= raw * (n + 1) <= i64::MAX);
            assert(i64::MIN <= raw * n <= i64::MAX) by (nonlinear_arith)
                requires
                    i64::MIN <= raw * (n + 1) <= i64::MAX,
                    n >= 1,
            ;
        }
        law_combine_identical_fixed(state, peers, (n - 1) as nat);
        assert forall|slot: Slot| has_slot(state, slot) implies averaged(
            at(state, slot),
            at(state, slot),
            counted(one::<Fixed>(), (n - 1) as nat),
        ) == at(state, slot) by {
            assert(i64::MIN <= at(state, slot).raw * (n + 1) <= i64::MAX);
            lemma_averaged_same_fixed(at(state, slot), (n - 1) as nat);
        }
        lemma_merge_same(state, counted(one::<Fixed>(), (n - 1) as nat));
    }
}

/// Averaging states keeps the dimensions of the first, and computes in each
/// slot the running average of the numbers that the states hold there.
pub proof fn lemma_combine_slots<S: Scalar>(acc: StateModel<S>, peers: Seq<StateModel<S>>, n: nat)
    requires
        n <= peers.len(),
    ensures
        acc.combine(peers, n).same_shape(acc),
        forall|slot: Slot|
            has_slot(acc, slot) ==> #[trigger] at(acc.combine(peers, n), slot) == running_average(
                at(acc, slot),
                column(peers, slot),
                n,
            ),
    decreases n,
{
    if n > 0 {
        lemma_combine_slots(acc, peers, (n - 1) as nat);
        let before = acc.combine(peers, (n - 1) as nat);
        let after = acc.combine(peers, n);
        assert forall|slot: Slot| has_slot(acc, slot) implies #[trigger] at(after, slot)
            == running_average(at(acc, slot), column(peers, slot), n) by {
            assert(at(before, slot) == running_average(
                at(acc, slot),
                column(peers, slot),
                (n - 1) as nat,
            ));
            assert(column(peers, slot)[n - 1] == at(peers[n - 1], slot));
            match slot {
                Slot::DeltaInput(i, j) => {
                    assert(before.dinput[i].len() == acc.dinput[i].len());
                },
                Slot::DeltaOutput(i, j) => {
                    assert(before.doutput[i].len() == acc.doutput[i].len());
                },
                _ => {},
            }
        }
    }
}

/// In exact arithmetic, a running average is the sum over the count.
pub proof fn lemma_average_is_sum_over_count<S: Scalar>(acc: S, ps: Seq<S>, n: nat)
    requires
        exact::<S>(),
    ensures
        running_average(acc, ps, n).spec_mul(counted(one::<S>(), n)) == running_sum(acc, ps, n),
        running_average(acc, ps, n) == running_sum(acc, ps, n).spec_div(counted(one::<S>(), n)),
    decreases n,
{
    let count = counted(one::<S>(), n);
    assert(count != zero::<S>());
    if n == 0 {
        assert(acc.spec_mul(one::<S>()) == acc);
    } else {
        lemma_average_is_sum_over_count(acc, ps, (n - 1) as nat);
        let before = running_average(acc, ps, (n - 1) as nat);
        let num = counted(one::<S>(), (n - 1) as nat);
        assert(count == num.spec_add(one::<S>()));
        let top = before.spec_mul(num).spec_add(ps[n - 1]);
        assert(running_average(acc, ps, n) == top.spec_div(count));
        assert(top.spec_div(count).spec_mul(count) == top);
    }
    let avg = running_average(acc, ps, n);
    assert(avg.spec_mul(count).spec_div(count) == avg);
}

/// In exact arithmetic, a sum is the same when two neighbours change
/// places.
pub proof fn lemma_sum_swap<S: Scalar>(acc: S, ps: Seq<S>, qs: Seq<S>, k: int, n: nat)
    requires
        exact::<S>(),
        0 <= k,
        k + 2 <= n <= ps.len(),
        qs.len() == ps.len(),
        qs[k] == ps[k + 1],
        qs[k + 1] == ps[k],
        forall|i: int| 0 <= i < ps.len() && i != k && i != k + 1 ==> qs[i] == ps[i],
    ensures
        running_sum(acc, ps, n) == running_sum(acc, qs, n),
    decreases n,
{
    if n == k + 2 {
        lemma_sum_prefix(acc, ps, qs, k as nat);
        let base = running_sum(acc, ps, k as nat);
        assert(running_sum(acc, ps, (k + 1) as nat) == base.spec_add(ps[k]));
        assert(running_sum(acc, qs, (k + 1) as nat) == base.spec_add(qs[k]));
        assert(base.spec_add(ps[k]).spec_add(ps[k + 1]) == base.spec_add(
            ps[k].spec_add(ps[k + 1]),
        ));
        assert(base.spec_add(qs[k]).spec_add(qs[k + 1]) == base.spec_add(
            qs[k].spec_add(qs[k + 1]),
        ));
        assert(ps[k].spec_add(ps[k + 1]) == ps[k + 1].spec_add(ps[k]));
    } else {
        lemma_sum_swap(acc, ps, qs, k, (n - 1) as nat);
    }
}

/// A sum depends on the numbers that are added alone.
pub proof fn lemma_sum_prefix<S: Scalar>(acc: S, ps: Seq<S>, qs: Seq<S>, n: nat)
    requires
        forall|i: int| 0 <= i < n ==> qs[i] == ps[i],
    ensures
        running_sum(acc, ps, n) == running_sum(acc, qs, n),
    decreases n,
{
    if n > 0 {
        lemma_sum_prefix(acc, ps, qs, (n - 1) as nat);
    }
}

/// In exact arithmetic, two sequences of equally many peers whose numbers
/// add up to the same in each slot give the same average with a state.
pub proof fn lemma_combine_same_sums<S: Scalar>(
    acc: StateModel<S>,
    peers: Seq<StateModel<S>>,
    others: Seq<StateModel<S>>,
)
    requires
        exact::<S>(),
        peers.len() == others.len(),
        forall|slot: Slot|
            has_slot(acc, slot) ==> running_sum(at(acc, slot), column(peers, slot), peers.len())
                == running_sum(at(acc, slot), column(others, slot), peers.len()),
    ensures
        acc.combine(peers, peers.len()) == acc.combine(others, others.len()),
{
    let n = peers.len();
    lemma_combine_slots(acc, peers, n);
    lemma_combine_slots(acc, others, n);
    let a = acc.combine(peers, n);
    let b = acc.combine(others, n);
    assert forall|slot: Slot| has_slot(a, slot) implies at(a, slot) == at(b, slot) by {
        assert(has_slot(acc, slot)) by {
            match slot {
                Slot::DeltaInput(i, j) => {
                    assert(a.dinput[i].len() == acc.dinput[i].len());
                },
                Slot::DeltaOutput(i, j) => {
                    assert(a.doutput[i].len() == acc.doutput[i].len());
                },
                _ => {},
            }
        }
        lemma_average_is_sum_over_count(at(acc, slot), column(peers, slot), n);
        lemma_average_is_sum_over_count(at(acc, slot), column(others, slot), n);
    }
    assert(a.same_shape(b)) by {
        assert forall|i: int| 0 <= i < a.dinput.len() implies (#[trigger] a.dinput[i]).len()
            == b.dinput[i].len() by {
            assert(a.dinput[i].len() == acc.dinput[i].len());
            assert(b.dinput[i].len() == acc.dinput[i].len());
        }
        assert forall|i: int| 0 <= i < a.doutput.len() implies (#[trigger] a.doutput[i]).len()
            == b.doutput[i].len() by {
            assert(a.doutput[i].len() == acc.doutput[i].len());
            assert(b.doutput[i].len() == acc.doutput[i].len());
        }
    }
    lemma_same_slots(a, b);
}

/// In exact arithmetic, the average of states is the same when two
/// neighbours among the peers change places. Every order of the peers is
/// reached by such changes.
pub proof fn law_combine_swap<S: Scalar>(
    acc: StateModel<S>,
    peers: Seq<StateModel<S>>,
    swapped: Seq<StateModel<S>>,
    k: int,
)
    requires
        exact::<S>(),
        0 <= k,
        k + 2 <= peers.len(),
        swapped.len() == peers.len(),
        swapped[k] == peers[k + 1],
        swapped[k + 1] == peers[k],
        forall|i: int| 0 <= i < peers.len() && i != k && i != k + 1 ==> swapped[i] == peers[i],
    ensures
        acc.combine(peers, peers.len()) == acc.combine(swapped, swapped.len()),
{
    let n = peers.len();
    assert forall|slot: Slot| has_slot(acc, slot) implies running_sum(
        at(acc, slot),
        column(peers, slot),
        n,
    ) == running_sum(at(acc, slot), column(swapped, slot), n) by {
        lemma_sum_swap(at(acc, slot), column(peers, slot), column(swapped, slot), k, n);
    }
    lemma_combine_same_sums(acc, peers, swapped);
}

/// Adding the number that a state holds in a slot.
pub open spec fn add_slot<S: Scalar>(slot: Slot) -> spec_fn(S, StateModel<S>) -> S {
    |sum: S, peer: StateModel<S>| sum.spec_add(at(peer, slot))
}

/// A sum over the numbers that states hold in a slot is a fold over the
/// states.
pub proof fn lemma_sum_is_fold<S: Scalar>(acc: S, peers: Seq<StateModel<S>>, slot: Slot, n: nat)
    requires
        n <= peers.len(),
    ensures
        running_sum(acc, column(peers, slot), n) == peers.take(n as int).fold_left(
            acc,
            add_slot::<S>(slot),
        ),
    decreases n,
{
    if n > 0 {
        lemma_sum_is_fold(acc, peers, slot, (n - 1) as nat);
        assert(peers.take(n as int).drop_last() =~= peers.take(n - 1));
        assert(peers.take(n as int).last() == peers[n - 1]);
    }
}

/// In exact arithmetic, the average of states is the same in every order
/// of the peers.
pub proof fn law_combine_any_order<S: Scalar>(
    acc: StateModel<S>,
    peers: Seq<StateModel<S>>,
    reordered: Seq<StateModel<S>>,
)
    requires
        exact::<S>(),
        peers.to_multiset() == reordered.to_multiset(),
    ensures
        acc.combine(peers, peers.len()) == acc.combine(reordered, reordered.len()),
{
    broadcast use vstd::seq_lib::to_multiset_len;

    let n = peers.len();
    assert(reordered.len() == n) by {
        assert(peers.to_multiset().len() == peers.len());
        assert(reordered.to_multiset().len() == reordered.len());
    }
    assert(peers.take(n as int) =~= peers);
    assert(reordered.take(n as int) =~= reordered);
    assert forall|slot: Slot| has_slot(acc, slot) implies running_sum(
        at(acc, slot),
        column(peers, slot),
        n,
    ) == running_sum(at(acc, slot), column(reordered, slot), n) by {
        let start = at(acc, slot);
        let f = add_slot::<S>(slot);
        lemma_sum_is_fold(start, peers, slot, n);
        lemma_sum_is_fold(start, reordered, slot, n);
        assert(vstd::seq_lib::commutative_foldl(f)) by {
            assert forall|x: StateModel<S>, y: StateModel<S>, v: S| #[trigger]
                f(f(v, x), y) == f(f(v, y), x) by {
                let p = at(x, slot);
                let q = at(y, slot);
                assert(v.spec_add(p).spec_add(q) == v.spec_add(p.spec_add(q)));
                assert(v.spec_add(q).spec_add(p) == v.spec_add(q.spec_add(p)));
                assert(p.spec_add(q) == q.spec_add(p));
            }
        }
        vstd::seq_lib::lemma_fold_left_permutation(peers, reordered, f, start);
    }
    lemma_combine_same_sums(acc, peers, reordered);
}

/// In exact arithmetic, averaging a state with three peers gives the same
/// in each of the six orders of the peers.
pub proof fn law_combine_three<S: Scalar>(
    acc: StateModel<S>,
    a: StateModel<S>,
    b: StateModel<S>,
    c: StateModel<S>,
)
    requires
        exact::<S>(),
    ensures
        acc.combine(seq![a, b, c], 3) == acc.combine(seq![c, a, b], 3),
        acc.combine(seq![a, c, b], 3) == acc.combine(seq![c, a, b], 3),
        acc.combine(seq![b, a, c], 3) == acc.combine(seq![c, a, b], 3),
        acc.combine(seq![b, c, a], 3) == acc.combine(seq![c, a, b], 3),
        acc.combine(seq![c, b, a], 3) == acc.combine(seq![c, a, b], 3),
{
    law_combine_swap(acc, seq![a, b, c], seq![a, c, b], 1);
    law_combine_swap(acc, seq![a, c, b], seq![c, a, b], 0);
    law_combine_swap(acc, seq![a, b, c], seq![b, a, c], 0);
    law_combine_swap(acc, seq![b, a, c], seq![b, c, a], 1);
    law_combine_swap(acc, seq![b, c, a], seq![c, b, a], 0);
    law_combine_swap(acc, seq![c, b, a], seq![c, a, b], 1);
}

/// Whether two networks agree in their weights and bias nodes.
pub open spec fn same_weights<S: Scalar>(a: NetModel<S>, b: NetModel<S>) -> bool {
    &&& a.same_shape(b)
    &&& a.winput == b.winput
    &&& a.woutput == b.woutput
    &&& a.input[a.dim_input() as int] == b.input[b.dim_input() as int]
    &&& a.hidden[a.dim_hidden() as int] == b.hidden[b.dim_hidden() as int]
}

/// What a trainer learns from examples depends on the weights and the bias
/// nodes of the network alone: on two networks that agree in these, the
/// same examples lead to the same state, and to networks that agree in
/// them still.
pub proof fn lemma_observe_all_is_pure<S: Scalar, A: ActivationFunction<S>, X: TrainerParameters<S, A>, T: TrainingSetMember<S>>(
    a: NetModel<S>,
    b: NetModel<S>,
    state: StateModel<S>,
    tset: Seq<T>,
    n: nat,
)
    requires
        a.wf(),
        b.wf(),
        state.fits(a),
        same_weights(a, b),
    ensures
        (Progress { net: a, state }).observe_all::<A, X, T>(tset, n).state == (Progress {
            net: b,
            state,
        }).observe_all::<A, X, T>(tset, n).state,
        same_weights(
            (Progress { net: a, state }).observe_all::<A, X, T>(tset, n).net,
            (Progress { net: b, state }).observe_all::<A, X, T>(tset, n).net,
        ),
        (Progress { net: a, state }).observe_all::<A, X, T>(tset, n).wf(),
        (Progress { net: b, state }).observe_all::<A, X, T>(tset, n).wf(),
        same_weights((Progress { net: a, state }).observe_all::<A, X, T>(tset, n).net, a),
    decreases n,
{
    if n > 0 {
        lemma_observe_all_is_pure::<S, A, X, T>(a, b, state, tset, (n - 1) as nat);
        let pa = (Progress { net: a, state }).observe_all::<A, X, T>(tset, (n - 1) as nat);
        let pb = (Progress { net: b, state }).observe_all::<A, X, T>(tset, (n - 1) as nat);
        law_predict_is_pure::<S, A>(pa.net, pb.net, tset[n - 1].spec_input());
        lemma_observe::<S, A, X, T>(pa, tset[n - 1]);
        lemma_observe::<S, A, X, T>(pb, tset[n - 1]);
    }
}

/// Whether a parallel trainer with a single worker and a batch trainer are
/// in step: they hold the same state and training set, have run the same
/// number of epochs and stop at the same, and the caller's network of the
/// one agrees in its weights and bias nodes with the network of the other,
/// and with the parallel trainer's own copy.
pub open spec fn in_step<S: Scalar, T: TrainingSetMember<S>>(
    parallel: ParallelModel<S, T>,
    batch: EpochModel<S, T>,
) -> bool {
    &&& parallel.wf()
    &&& batch.wf()
    &&& parallel.threads == 1
    &&& same_weights(parallel.owned, parallel.borrowed)
    &&& same_weights(parallel.borrowed, batch.net)
    &&& parallel.state == batch.state
    &&& parallel.tset == batch.tset
    &&& parallel.epoch == batch.epoch
    &&& parallel.max_epochs == batch.max_epochs
}

/// An epoch of the parallel trainer with a single worker, beside an epoch
/// of the batch trainer: where the two are in step, they report the same,
/// come to the same state and the same weights, and are in step again.
pub proof fn law_single_worker<'a, S, N, T, X, Y>(
    parallel: ParallelModel<S, T>,
    batch: EpochModel<S, T>,
) where
    S: Scalar,
    N: NeuralNet<S, Y> + 'a,
    T: TrainingSetMember<S> + 'a,
    X: TrainerParameters<S, Y::ActivationFunction>,
    Y: NeuralNetParameters<S>,

    requires
        in_step(parallel, batch),
    ensures
        ({
            let b = BatchEpochTrainer::<'a, S, N, T, X, Y>::spec_next(batch);
            let p = BatchEpochTrainerParallel::<'a, S, N, T, X, Y>::spec_next(parallel);
            &&& p.1 == b.1
            &&& p.0.state == b.0.state
            &&& p.0.borrowed.winput == b.0.net.winput
            &&& p.0.borrowed.woutput == b.0.net.woutput
            &&& in_step(p.0, b.0)
        }),
{
    let m = parallel;
    if m.epoch < m.max_epochs {
        let len = m.tset.len();
        assert(m.size == len) by {
            assert(len / 1 == len);
        }
        assert(shard(m.tset, 0, len as int) =~= m.tset);
        let start = shards_observed::<S, Y::ActivationFunction, X, T>(
            m.owned,
            m.state,
            m.tset,
            len as int,
            0,
        );
        let done = shards_observed::<S, Y::ActivationFunction, X, T>(
            m.owned,
            m.state,
            m.tset,
            len as int,
            1,
        );
        assert(start == (m.owned, Seq::<StateModel<S>>::empty()));
        let worker = (Progress { net: m.owned, state: m.state }).observe_all::<
            Y::ActivationFunction,
            X,
            T,
        >(m.tset, len);
        assert(done.1 =~= seq![worker.state]);
        assert(done.0 == worker.net);
        assert(mean(done.1) == worker.state);
        lemma_observe_all_is_pure::<S, Y::ActivationFunction, X, T>(
            m.owned,
            batch.net,
            m.state,
            m.tset,
            len,
        );
        lemma_observe_all_is_pure::<S, Y::ActivationFunction, X, T>(
            batch.net,
            m.owned,
            m.state,
            m.tset,
            len,
        );
        let observed = (Progress { net: batch.net, state: m.state }).observe_all::<
            Y::ActivationFunction,
            X,
            T,
        >(m.tset, len);
        assert(worker.state == observed.state);
        BatchEpochTrainer::<'a, S, N, T, X, Y>::lemma_next(batch);
        BatchEpochTrainerParallel::<'a, S, N, T, X, Y>::lemma_next(parallel);
        let b = BatchEpochTrainer::<'a, S, N, T, X, Y>::spec_next(batch).0;
        let p = BatchEpochTrainerParallel::<'a, S, N, T, X, Y>::spec_next(parallel).0;
        assert(p.borrowed.winput =~~= b.net.winput);
        assert(p.borrowed.woutput =~~= b.net.woutput);
        assert(p.owned.winput =~~= p.borrowed.winput);
        assert(p.owned.woutput =~~= p.borrowed.woutput);
    }
}

/// A parallel trainer with a single worker and a batch trainer that are made
/// for the same network, training set and number of epochs are in step.
pub proof fn lemma_made_in_step<S: Scalar, T: TrainingSetMember<S>>(
    net: NetModel<S>,
    tset: Seq<T>,
    epochs: usize,
)
    requires
        net.wf(),
        suits(tset, net),
        tset.len() <= usize::MAX,
    ensures
        in_step(
            ParallelModel::initial(net, tset, epochs, 1),
            EpochModel { net, state: StateModel::zeroed(net), tset, epoch: 0, max_epochs: epochs },
        ),
{
    let parallel = ParallelModel::initial(net, tset, epochs, 1);
    assert(tset.len() / 1 == tset.len());
    assert(StateModel::zeroed(net).fits(net));
}

/// The model of a trainer after `k` more calls of `next`.
pub open spec fn after<T: Epochs>(m: T::Model, k: nat) -> T::Model
    decreases k,
{
    if k == 0 {
        m
    } else {
        T::spec_next(after::<T>(m, (k - 1) as nat)).0
    }
}

/// The parallel trainer with a single worker and the batch trainer, started
/// in step, are in step after any number of epochs: they have come to the
/// same weights, and each of their calls of `next` reports the same.
pub proof fn law_single_worker_trajectory<'a, S, N, T, X, Y>(
    parallel: ParallelModel<S, T>,
    batch: EpochModel<S, T>,
    k: nat,
) where
    S: Scalar,
    N: NeuralNet<S, Y> + 'a,
    T: TrainingSetMember<S> + 'a,
    X: TrainerParameters<S, Y::ActivationFunction>,
    Y: NeuralNetParameters<S>,

    requires
        in_step(parallel, batch),
    ensures
        ({
            let p = after::<BatchEpochTrainerParallel<'a, S, N, T, X, Y>>(parallel, k);
            let b = after::<BatchEpochTrainer<'a, S, N, T, X, Y>>(batch, k);
            &&& in_step(p, b)
            &&& p.borrowed.winput == b.net.winput
            &&& p.borrowed.woutput == b.net.woutput
            &&& BatchEpochTrainerParallel::<'a, S, N, T, X, Y>::spec_next(p).1
                == BatchEpochTrainer::<'a, S, N, T, X, Y>::spec_next(b).1
        }),
    decreases k,
{
    if k > 0 {
        law_single_worker_trajectory::<S, N, T, X, Y>(parallel, batch, (k - 1) as nat);
        let p = after::<BatchEpochTrainerParallel<'a, S, N, T, X, Y>>(parallel, (k - 1) as nat);
        let b = after::<BatchEpochTrainer<'a, S, N, T, X, Y>>(batch, (k - 1) as nat);
        law_single_worker::<S, N, T, X, Y>(p, b);
    }
    let p = after::<BatchEpochTrainerParallel<'a, S, N, T, X, Y>>(parallel, k);
    let b = after::<BatchEpochTrainer<'a, S, N, T, X, Y>>(batch, k);
    law_single_worker::<S, N, T, X, Y>(p, b);
}

/// The sequential trainer runs until it has run its last epoch, whose
/// number it reports last; it never stops before. The training set and the
/// dimensions of the network stay as they are.
pub proof fn law_sequential_trainer_runs_every_epoch<'a, S, N, T, X, Y>(
    m: EpochModel<S, T>,
    last: Option<usize>,
) where
    S: Scalar,
    N: NeuralNet<S, Y> + 'a,
    T: TrainingSetMember<S> + 'a,
    X: TrainerParameters<S, Y::ActivationFunction>,
    Y: NeuralNetParameters<S>,

    requires
        m.wf(),
    ensures
        ({
            let end = run::<SeqEpochTrainer<'a, S, N, T, X, Y>>(
                m,
                last,
                (m.max_epochs - m.epoch + 1) as nat,
            );
            &&& end.0.epoch == m.max_epochs
            &&& end.0.max_epochs == m.max_epochs
            &&& end.0.tset == m.tset
            &&& end.0.net.same_shape(m.net)
            &&& end.1 == if m.epoch < m.max_epochs {
                Some((m.max_epochs - 1) as usize)
            } else {
                last
            }
        }),
    decreases m.max_epochs - m.epoch,
{
    if m.epoch < m.max_epochs {
        SeqEpochTrainer::<'a, S, N, T, X, Y>::lemma_next(m);
        lemma_learn_each::<S, Y::ActivationFunction, X, T>(m.progress(), m.tset, m.tset.len());
        let after = SeqEpochTrainer::<'a, S, N, T, X, Y>::spec_next(m).0;
        law_sequential_trainer_runs_every_epoch::<S, N, T, X, Y>(after, Some(m.epoch));
    }
}

/// The batch trainer runs until it has run its last epoch, whose number it
/// reports last; it never stops before. The training set and the dimensions
/// of the network stay as they are.
pub proof fn law_batch_trainer_runs_every_epoch<'a, S, N, T, X, Y>(
    m: EpochModel<S, T>,
    last: Option<usize>,
) where
    S: Scalar,
    N: NeuralNet<S, Y> + 'a,
    T: TrainingSetMember<S> + 'a,
    X: TrainerParameters<S, Y::ActivationFunction>,
    Y: NeuralNetParameters<S>,

    requires
        m.wf(),
    ensures
        ({
            let end = run::<BatchEpochTrainer<'a, S, N, T, X, Y>>(
                m,
                last,
                (m.max_epochs - m.epoch + 1) as nat,
            );
            &&& end.0.epoch == m.max_epochs
            &&& end.0.max_epochs == m.max_epochs
            &&& end.0.tset == m.tset
            &&& end.0.net.same_shape(m.net)
            &&& end.1 == if m.epoch < m.max_epochs {
                Some((m.max_epochs - 1) as usize)
            } else {
                last
            }
        }),
    decreases m.max_epochs - m.epoch,
{
    if m.epoch < m.max_epochs {
        BatchEpochTrainer::<'a, S, N, T, X, Y>::lemma_next(m);
        lemma_observe_all::<S, Y::ActivationFunction, X, T>(m.progress(), m.tset, m.tset.len());
        lemma_apply(m.progress().observe_all::<Y::ActivationFunction, X, T>(m.tset, m.tset.len()));
        let after = BatchEpochTrainer::<'a, S, N, T, X, Y>::spec_next(m).0;
        law_batch_trainer_runs_every_epoch::<S, N, T, X, Y>(after, Some(m.epoch));
    }
}

/// The parallel trainer runs until it has run its last epoch, whose number
/// it reports last; it never stops before. The training set, the number of
/// workers and the dimensions of the network stay as they are.
pub proof fn law_parallel_trainer_runs_every_epoch<'a, S, N, T, X, Y>(
    m: ParallelModel<S, T>,
    last: Option<usize>,
) where
    S: Scalar,
    N: NeuralNet<S, Y> + 'a,
    T: TrainingSetMember<S> + 'a,
    X: TrainerParameters<S, Y::ActivationFunction>,
    Y: NeuralNetParameters<S>,

    requires
        m.wf(),
    ensures
        ({
            let end = run::<BatchEpochTrainerParallel<'a, S, N, T, X, Y>>(
                m,
                last,
                (m.max_epochs - m.epoch + 1) as nat,
            );
            &&& end.0.epoch == m.max_epochs
            &&& end.0.max_epochs == m.max_epochs
            &&& end.0.tset == m.tset
            &&& end.0.threads == m.threads
            &&& end.0.borrowed.same_shape(m.borrowed)
            &&& end.1 == if m.epoch < m.max_epochs {
                Some((m.max_epochs - 1) as usize)
            } else {
                last
            }
        }),
    decreases m.max_epochs - m.epoch,
{
    if m.epoch < m.max_epochs {
        BatchEpochTrainerParallel::<'a, S, N, T, X, Y>::lemma_next(m);
        let after = BatchEpochTrainerParallel::<'a, S, N, T, X, Y>::spec_next(m).0;
        law_parallel_trainer_runs_every_epoch::<S, N, T, X, Y>(after, Some(m.epoch));
    }
}

/// The trainer with a target error stops after the first epoch whose
/// average error is no more than the target, or after the last epoch of its
/// bound where no epoch comes to the target before. What it reports last is
/// that epoch's number and average error, and where it stopped at the
/// target, that epoch's number is the bound that it is left with. The
/// training set and the dimensions of the network stay as they are.
pub proof fn law_error_trainer_stops_at_target_or_bound<'a, S, N, T, X, Y>(
    m: ErrorModel<S, T>,
    last: Option<(usize, S)>,
) where
    S: Scalar,
    N: NeuralNet<S, Y> + 'a,
    T: TrainingSetMember<S> + 'a,
    X: TrainerParametersWithErrorFunction<S, Y::ActivationFunction>,
    Y: NeuralNetParameters<S>,

    requires
        m.epochs.wf(),
    ensures
        ({
            let end = run::<SeqErrorAverageTrainer<'a, S, N, T, X, Y>>(
                m,
                last,
                (m.epochs.max_epochs - m.epochs.epoch + 1) as nat,
            );
            &&& end.0.epochs.epoch == end.0.epochs.max_epochs
            &&& end.0.err_target == m.err_target
            &&& end.0.epochs.tset == m.epochs.tset
            &&& end.0.epochs.net.same_shape(m.epochs.net)
            &&& m.epochs.epoch == m.epochs.max_epochs ==> end == (m, last)
            &&& m.epochs.epoch < m.epochs.max_epochs ==> end.1 is Some && {
                let (epoch, average) = end.1->Some_0;
                &&& m.epochs.epoch <= epoch < m.epochs.max_epochs
                &&& average.spec_le(m.err_target) || epoch == m.epochs.max_epochs - 1
                &&& average.spec_le(m.err_target) <==> end.0.epochs.max_epochs == epoch
            }
        }),
    decreases m.epochs.max_epochs - m.epochs.epoch,
{
    if m.epochs.epoch < m.epochs.max_epochs {
        SeqErrorAverageTrainer::<'a, S, N, T, X, Y>::lemma_next(m);
        lemma_learn_each::<S, Y::ActivationFunction, X, T>(
            m.epochs.progress(),
            m.epochs.tset,
            m.epochs.tset.len(),
        );
        let (after, item) = SeqErrorAverageTrainer::<'a, S, N, T, X, Y>::spec_next(m);
        law_error_trainer_stops_at_target_or_bound::<S, N, T, X, Y>(after, item);
        lemma_run_fuel::<SeqErrorAverageTrainer<'a, S, N, T, X, Y>>(
            after,
            item,
            (m.epochs.max_epochs - m.epochs.epoch) as nat,
            (after.epochs.max_epochs - after.epochs.epoch + 1) as nat,
        );
    }
}

} // verus!
