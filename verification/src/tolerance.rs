//! How far the average of fixed-point states depends on the order of the
//! peers: by no more than one unit of the last place for each peer.

use crate::fixed::{quotient, scale, Fixed};
use crate::laws::{
    at, column, has_slot, lemma_combine_slots, lemma_fixed_count, lemma_quotient_of_multiple,
    running_average, Slot,
};
use crate::scalar::{counted, one, Scalar};
use crate::trainer::util::{averaged, StateModel};
use vstd::prelude::*;

verus! {

/// Whether every number of a state lies between `-bound` and `bound`, as a
/// raw value.
pub open spec fn within(state: StateModel<Fixed>, bound: int) -> bool {
    forall|slot: Slot| has_slot(state, slot) ==> -bound <= #[trigger] at(state, slot).raw <= bound
}

/// The sum of `acc` and the raw values of the first `n` of the numbers
/// `ps`.
pub open spec fn raw_sum(acc: int, ps: Seq<Fixed>, n: nat) -> int
    decreases n,
{
    if n == 0 {
        acc
    } else {
        raw_sum(acc, ps, (n - 1) as nat) + ps[n - 1].raw
    }
}

/// Adding the raw value that a state holds in a slot.
pub open spec fn add_raw(slot: Slot) -> spec_fn(int, StateModel<Fixed>) -> int {
    |sum: int, peer: StateModel<Fixed>| sum + at(peer, slot).raw
}

/// A quotient lies on the side of zero on which the dividend lies, and the
/// divisor times the quotient is less than the divisor away from the
/// dividend.
pub proof fn lemma_quotient_bounds(t: int, m: int)
    requires
        m > 0,
    ensures
        -(m - 1) <= t - m * quotient(t, m) <= m - 1,
        t >= 0 ==> 0 <= quotient(t, m) && m * quotient(t, m) <= t,
        t <= 0 ==> quotient(t, m) <= 0 && t <= m * quotient(t, m),
{
    if t >= 0 {
        vstd::arithmetic::div_mod::lemma_fundamental_div_mod(t, m);
        vstd::arithmetic::div_mod::lemma_mod_bound(t, m);
        vstd::arithmetic::div_mod::lemma_div_pos_is_pos(t, m);
    } else {
        let u = -t;
        vstd::arithmetic::div_mod::lemma_fundamental_div_mod(u, m);
        vstd::arithmetic::div_mod::lemma_mod_bound(u, m);
        vstd::arithmetic::div_mod::lemma_div_pos_is_pos(u, m);
        assert(m * (-(u / m)) == -(m * (u / m))) by (nonlinear_arith);
    }
}

/// A quotient stays as it is when dividend and divisor are scaled alike.
pub proof fn lemma_quotient_scaled(t: int, m: int, s: int)
    requires
        m > 0,
        s > 0,
    ensures
        m * s > 0,
        quotient(t * s, m * s) == quotient(t, m),
{
    assert(m * s > 0) by (nonlinear_arith)
        requires
            m > 0,
            s > 0,
    ;
    if t >= 0 {
        assert(t * s >= 0) by (nonlinear_arith)
            requires
                t >= 0,
                s > 0,
        ;
        vstd::arithmetic::div_mod::lemma_div_multiples_vanish_quotient(s, t, m);
        assert(s * t == t * s && s * m == m * s) by (nonlinear_arith);
    } else {
        assert(t * s < 0) by (nonlinear_arith)
            requires
                t < 0,
                s > 0,
        ;
        vstd::arithmetic::div_mod::lemma_div_multiples_vanish_quotient(s, -t, m);
        assert(s * (-t) == -(t * s) && s * m == m * s) by (nonlinear_arith);
    }
}

/// One step of a running average in fixed-point numbers, within the range:
/// the new average is within the bound of the values, and the new count
/// times the new average is no more than the old count away from the old
/// count times the old average plus the new value.
pub proof fn lemma_average_step(x: Fixed, p: Fixed, k: nat, bound: int)
    requires
        k + 2 < 0x8000_0000,
        bound >= 0,
        bound * (k + 2) <= i64::MAX,
        -bound <= x.raw <= bound,
        -bound <= p.raw <= bound,
    ensures
        -bound <= averaged(x, p, counted(one::<Fixed>(), k)).raw <= bound,
        -(k + 1) <= (k + 2) * averaged(x, p, counted(one::<Fixed>(), k)).raw - ((k + 1) * x.raw
            + p.raw) <= k + 1,
{
    let c = (k + 1) as int;
    let num = counted(one::<Fixed>(), k);
    lemma_fixed_count(k);
    assert(num.raw == c * scale());
    assert(-(bound * (c + 1)) <= x.raw * c <= bound * (c + 1)) by (nonlinear_arith)
        requires
            -bound <= x.raw <= bound,
            bound >= 0,
            c >= 1,
    ;
    assert(x.raw * (c * scale()) == (x.raw * c) * scale()) by (nonlinear_arith);
    lemma_quotient_of_multiple(x.raw * c, scale());
    assert(x.spec_mul(num).raw == x.raw * c);
    let t = x.raw * c + p.raw;
    assert(-(bound * (c + 1)) <= t <= bound * (c + 1)) by (nonlinear_arith)
        requires
            t == x.raw * c + p.raw,
            -bound <= x.raw <= bound,
            -bound <= p.raw <= bound,
            bound >= 0,
            c >= 1,
    ;
    let top = x.spec_mul(num).spec_add(p);
    assert(top.raw == t);
    let count = num.spec_add(one::<Fixed>());
    assert(count.raw == (c + 1) * scale()) by {
        assert(c * scale() + scale() == (c + 1) * scale()) by (nonlinear_arith);
    }
    lemma_quotient_scaled(t, c + 1, scale());
    lemma_quotient_bounds(t, c + 1);
    let q = quotient(t, c + 1);
    assert(-bound <= q <= bound) by (nonlinear_arith)
        requires
            c + 1 > 0,
            bound >= 0,
            -(bound * (c + 1)) <= t <= bound * (c + 1),
            t >= 0 ==> 0 <= q && (c + 1) * q <= t,
            t <= 0 ==> q <= 0 && t <= (c + 1) * q,
    ;
    assert(averaged(x, p, num).raw == q);
    assert((k + 1) * x.raw == x.raw * c) by (nonlinear_arith)
        requires
            c == k + 1,
    ;
}

/// A running average in fixed-point numbers, within the range: the count
/// times the average is no more than half the count times the number of
/// values averaged in away from their sum.
pub proof fn lemma_average_near_sum(acc: Fixed, ps: Seq<Fixed>, n: nat, bound: int)
    requires
        n <= ps.len(),
        n + 1 < 0x8000_0000,
        bound >= 0,
        bound * (n + 1) <= i64::MAX,
        -bound <= acc.raw <= bound,
        forall|i: int| 0 <= i < n ==> -bound <= (#[trigger] ps[i]).raw <= bound,
    ensures
        -bound <= running_average(acc, ps, n).raw <= bound,
        -(n * (n + 1)) <= 2 * ((n + 1) * running_average(acc, ps, n).raw - raw_sum(
            acc.raw as int,
            ps,
            n,
        )) <= n * (n + 1),
    decreases n,
{
    if n > 0 {
        let k = (n - 1) as nat;
        assert(bound * n <= bound * (n + 1)) by (nonlinear_arith)
            requires
                bound >= 0,
        ;
        lemma_average_near_sum(acc, ps, k, bound);
        let x = running_average(acc, ps, k);
        let p = ps[n - 1];
        lemma_average_step(x, p, k, bound);
        let y = running_average(acc, ps, n);
        assert(y == averaged(x, p, counted(one::<Fixed>(), k)));
        let before = raw_sum(acc.raw as int, ps, k);
        let step = (n + 1) * y.raw - (n * x.raw + p.raw);
        let gap = n * x.raw - before;
        assert((n + 1) * y.raw - raw_sum(acc.raw as int, ps, n) == step + gap);
        assert(-(n * (n + 1)) <= 2 * (step + gap) <= n * (n + 1)) by (nonlinear_arith)
            requires
                n >= 1,
                -n <= step <= n,
                -((n - 1) * n) <= 2 * gap <= (n - 1) * n,
        ;
    } else {
        assert(1 * acc.raw == acc.raw);
    }
}

/// A sum over the raw values that states hold in a slot is a fold over the
/// states.
pub proof fn lemma_raw_sum_is_fold(acc: int, peers: Seq<StateModel<Fixed>>, slot: Slot, n: nat)
    requires
        n <= peers.len(),
    ensures
        raw_sum(acc, column(peers, slot), n) == peers.take(n as int).fold_left(acc, add_raw(slot)),
    decreases n,
{
    if n > 0 {
        lemma_raw_sum_is_fold(acc, peers, slot, (n - 1) as nat);
        assert(peers.take(n as int).drop_last() =~= peers.take(n - 1));
        assert(peers.take(n as int).last() == peers[n - 1]);
    }
}

/// In fixed-point numbers, within the range, the average of a state with
/// its peers depends on the order of the peers by no more than one unit of
/// the last place for each peer: in each slot, the averages in two orders
/// are no more than the number of peers apart, as raw values.
pub proof fn law_combine_any_order_fixed(
    acc: StateModel<Fixed>,
    peers: Seq<StateModel<Fixed>>,
    reordered: Seq<StateModel<Fixed>>,
    bound: int,
)
    requires
        peers.to_multiset() == reordered.to_multiset(),
        peers.len() + 1 < 0x8000_0000,
        bound >= 0,
        bound * (peers.len() + 1) <= i64::MAX,
        within(acc, bound),
        forall|k: int|
            0 <= k < peers.len() ==> acc.same_shape(#[trigger] peers[k]) && within(peers[k], bound),
    ensures
        acc.combine(peers, peers.len()).same_shape(acc),
        acc.combine(reordered, reordered.len()).same_shape(acc),
        forall|slot: Slot|
            has_slot(acc, slot) ==> -peers.len() <= #[trigger] at(
                acc.combine(peers, peers.len()),
                slot,
            ).raw - at(acc.combine(reordered, reordered.len()), slot).raw <= peers.len(),
{
    broadcast use vstd::seq_lib::to_multiset_len;

    let n = peers.len();
    assert(reordered.len() == n) by {
        assert(peers.to_multiset().len() == peers.len());
        assert(reordered.to_multiset().len() == reordered.len());
    }
    assert forall|k: int| 0 <= k < n implies acc.same_shape(#[trigger] reordered[k]) && within(
        reordered[k],
        bound,
    ) by {
        let r = reordered[k];
        vstd::seq_lib::to_multiset_contains(reordered, r);
        vstd::seq_lib::to_multiset_contains(peers, r);
        assert(reordered.contains(r));
        let j = choose|j: int| 0 <= j < peers.len() && peers[j] == r;
        assert(acc.same_shape(peers[j]));
    }
    lemma_combine_slots(acc, peers, n);
    lemma_combine_slots(acc, reordered, n);
    assert(peers.take(n as int) =~= peers);
    assert(reordered.take(n as int) =~= reordered);
    assert forall|slot: Slot| has_slot(acc, slot) implies -n <= #[trigger] at(
        acc.combine(peers, n),
        slot,
    ).raw - at(acc.combine(reordered, n), slot).raw <= n by {
        let start = at(acc, slot);
        let ps = column(peers, slot);
        let qs = column(reordered, slot);
        assert forall|i: int| 0 <= i < n implies -bound <= (#[trigger] ps[i]).raw <= bound by {
            lemma_has_slot(acc, peers[i], slot);
        }
        assert forall|i: int| 0 <= i < n implies -bound <= (#[trigger] qs[i]).raw <= bound by {
            lemma_has_slot(acc, reordered[i], slot);
        }
        lemma_average_near_sum(start, ps, n, bound);
        lemma_average_near_sum(start, qs, n, bound);
        lemma_raw_sum_is_fold(start.raw as int, peers, slot, n);
        lemma_raw_sum_is_fold(start.raw as int, reordered, slot, n);
        let f = add_raw(slot);
        assert(vstd::seq_lib::commutative_foldl(f));
        vstd::seq_lib::lemma_fold_left_permutation(peers, reordered, f, start.raw as int);
        let va = running_average(start, ps, n).raw;
        let vb = running_average(start, qs, n).raw;
        let sum = raw_sum(start.raw as int, ps, n);
        assert(-n <= va - vb <= n) by (nonlinear_arith)
            requires
                -(n * (n + 1)) <= 2 * ((n + 1) * va - sum) <= n * (n + 1),
                -(n * (n + 1)) <= 2 * ((n + 1) * vb - sum) <= n * (n + 1),
        ;
    }
}

/// A state of the dimensions of another has the slots of the other.
pub proof fn lemma_has_slot(a: StateModel<Fixed>, b: StateModel<Fixed>, slot: Slot)
    requires
        a.same_shape(b),
        has_slot(a, slot),
    ensures
        has_slot(b, slot),
{
    match slot {
        Slot::DeltaInput(i, j) => {
            assert(a.dinput[i].len() == b.dinput[i].len());
        },
        Slot::DeltaOutput(i, j) => {
            assert(a.doutput[i].len() == b.doutput[i].len());
        },
        _ => {},
    }
}

} // verus!
