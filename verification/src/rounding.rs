//! How far the rounding of shares moves a normalized vector from the exact
//! one: its total, the ratios between its shares, and the total of a blend.

use crate::distribution::{
    blend, joinable, lemma_blend_width, lemma_sum_extend, normalizable, normalized,
    sum_elementwise, weight_sum, zeros, UNIT,
};
use vstd::prelude::*;

verus! {

/// The shares of the first `n` weights, times the total, lie between the
/// exact value and the exact value less one rounding loss for each share.
proof fn lemma_shares_prefix(weights: Seq<nat>, n: int)
    requires
        0 < weight_sum(weights),
        0 <= n <= weights.len(),
    ensures
        weight_sum(weights) * weight_sum(normalized(weights).take(n)) <= UNIT * weight_sum(
            weights.take(n),
        ),
        UNIT * weight_sum(weights.take(n)) <= weight_sum(weights) * weight_sum(
            normalized(weights).take(n),
        ) + n * (weight_sum(weights) - 1),
    decreases n,
{
    let total: nat = weight_sum(weights);
    let shares: Seq<nat> = normalized(weights);
    if n == 0 {
        assert(weights.take(0) =~= Seq::<nat>::empty());
        assert(shares.take(0) =~= Seq::<nat>::empty());
        assert(total * 0 == 0) by (nonlinear_arith);
    } else {
        lemma_shares_prefix(weights, n - 1);
        lemma_sum_extend(weights, n - 1);
        lemma_sum_extend(shares, n - 1);
        let before: nat = weight_sum(shares.take(n - 1));
        let scaled: nat = weights[n - 1] * (UNIT as nat);
        let part: nat = shares[n - 1];
        assert(part == scaled / total);
        assert(total * part <= scaled && scaled <= total * part + (total - 1))
            by (nonlinear_arith)
            requires
                part == scaled / total,
                0 < total,
        ;
        assert(total * (before + part) == total * before + total * part) by (nonlinear_arith);
        assert(n * (total - 1) == (n - 1) * (total - 1) + (total - 1)) by (nonlinear_arith);
    }
}

/// The shares of a vector add up to the whole but for rounding: to no more
/// than `UNIT`, and to more than `UNIT` less the number of shares.
pub proof fn lemma_normalized_sums_to_unit(weights: Seq<nat>)
    requires
        0 < weight_sum(weights),
    ensures
        weight_sum(normalized(weights)) <= UNIT,
        UNIT < weight_sum(normalized(weights)) + weights.len(),
{
    let total: nat = weight_sum(weights);
    let shares: Seq<nat> = normalized(weights);
    let count: nat = weights.len();
    let whole: nat = weight_sum(shares);
    let unit: nat = UNIT as nat;
    lemma_shares_prefix(weights, count as int);
    assert(weights.take(count as int) =~= weights);
    assert(shares.take(count as int) =~= shares);
    assert(whole <= unit) by (nonlinear_arith)
        requires
            total * whole <= unit * total,
            0 < total,
    ;
    assert(count > 0);
    assert(count * (total - 1) < count * total) by (nonlinear_arith)
        requires
            count > 0,
    ;
    assert(total * whole + count * total == total * (whole + count)) by (nonlinear_arith);
    assert(unit < whole + count) by (nonlinear_arith)
        requires
            unit * total < total * (whole + count),
            0 < total,
    ;
}

/// Normalizing keeps the ratio between any two weights, but for the rounding
/// of one share: the share of `i` is to the share of `j`, raised by one part,
/// at most as the weight of `i` is to the weight of `j`.
pub proof fn lemma_normalized_keeps_ratios(weights: Seq<nat>, i: int, j: int)
    requires
        0 < weight_sum(weights),
        0 <= i < weights.len(),
        0 <= j < weights.len(),
    ensures
        normalized(weights)[i] * weights[j] <= (normalized(weights)[j] + 1) * weights[i],
{
    let total: nat = weight_sum(weights);
    let unit: nat = UNIT as nat;
    let wi: nat = weights[i];
    let wj: nat = weights[j];
    let qi: nat = normalized(weights)[i];
    let qj: nat = normalized(weights)[j];
    assert(qi == wi * unit / total);
    assert(qj == wj * unit / total);
    assert(qi * total <= wi * unit) by (nonlinear_arith)
        requires
            qi == wi * unit / total,
            0 < total,
    ;
    assert(wj * unit < (qj + 1) * total) by (nonlinear_arith)
        requires
            qj == wj * unit / total,
            0 < total,
    ;
    assert(qi * total * wj <= wi * unit * wj) by (nonlinear_arith)
        requires
            qi * total <= wi * unit,
    ;
    assert(wj * unit * wi <= (qj + 1) * total * wi) by (nonlinear_arith)
        requires
            wj * unit < (qj + 1) * total,
    ;
    assert(qi * wj <= (qj + 1) * wi) by (nonlinear_arith)
        requires
            qi * total * wj <= wi * unit * wj,
            wj * unit * wi <= (qj + 1) * total * wi,
            0 < total,
    ;
}

/// Where the shares of two weights are exact, normalizing keeps their ratio
/// exactly: the share of `i` is to the share of `j` as the weight of `i` is
/// to the weight of `j`.
pub proof fn lemma_exact_shares_keep_ratios(weights: Seq<nat>, i: int, j: int)
    requires
        0 < weight_sum(weights),
        0 <= i < weights.len(),
        0 <= j < weights.len(),
        (weights[i] * UNIT) % (weight_sum(weights) as int) == 0,
        (weights[j] * UNIT) % (weight_sum(weights) as int) == 0,
    ensures
        normalized(weights)[i] * weights[j] == normalized(weights)[j] * weights[i],
{
    let total: int = weight_sum(weights) as int;
    let unit: int = UNIT as int;
    let wi: int = weights[i] as int;
    let wj: int = weights[j] as int;
    let qi: int = normalized(weights)[i] as int;
    let qj: int = normalized(weights)[j] as int;
    assert(qi == wi * unit / total);
    assert(qj == wj * unit / total);
    assert(qi * total == wi * unit) by (nonlinear_arith)
        requires
            qi == wi * unit / total,
            (wi * unit) % total == 0,
            0 < total,
    ;
    assert(qj * total == wj * unit) by (nonlinear_arith)
        requires
            qj == wj * unit / total,
            (wj * unit) % total == 0,
            0 < total,
    ;
    assert(qi * wj == qj * wi) by (nonlinear_arith)
        requires
            qi * total == wi * unit,
            qj * total == wj * unit,
            0 < total,
            0 < unit,
    ;
}

/// A vector of zeros has total zero.
pub proof fn lemma_zeros_total(width: nat)
    ensures
        weight_sum(zeros(width)) == 0,
    decreases width,
{
    if width > 0 {
        lemma_zeros_total((width - 1) as nat);
        assert(zeros(width).drop_last() =~= zeros((width - 1) as nat));
    }
}

/// The total of a sum taken position by position is the sum of the totals.
proof fn lemma_sum_elementwise_total(a: Seq<nat>, b: Seq<nat>)
    requires
        a.len() == b.len(),
    ensures
        weight_sum(sum_elementwise(a, b)) == weight_sum(a) + weight_sum(b),
    decreases a.len(),
{
    if a.len() > 0 {
        lemma_sum_elementwise_total(a.drop_last(), b.drop_last());
        assert(sum_elementwise(a, b).drop_last() =~= sum_elementwise(
            a.drop_last(),
            b.drop_last(),
        ));
    }
}

/// The total of a blend is one whole for each vector, but for the rounding of
/// each share that went into it.
pub proof fn lemma_blend_total(distributions: Seq<Seq<nat>>, width: nat)
    requires
        forall|k: int| 0 <= k < distributions.len() ==> (#[trigger] distributions[k]).len() == width,
        forall|k: int| 0 <= k < distributions.len() ==> 0 < weight_sum(#[trigger] distributions[k]),
    ensures
        weight_sum(blend(distributions, width)) <= distributions.len() * UNIT,
        distributions.len() * UNIT + distributions.len() <= weight_sum(
            blend(distributions, width),
        ) + distributions.len() * width,
    decreases distributions.len(),
{
    let count: nat = distributions.len();
    if count == 0 {
        lemma_zeros_total(width);
    } else {
        let rest: Seq<Seq<nat>> = distributions.drop_last();
        let last: Seq<nat> = distributions.last();
        assert forall|k: int| 0 <= k < rest.len() implies (#[trigger] rest[k]).len() == width
            && 0 < weight_sum(rest[k]) by {
            assert(rest[k] == distributions[k]);
        }
        lemma_blend_total(rest, width);
        lemma_blend_width(rest, width);
        lemma_normalized_sums_to_unit(last);
        lemma_sum_elementwise_total(blend(rest, width), normalized(last));
        assert(count * UNIT == (count - 1) * UNIT + UNIT) by (nonlinear_arith);
        assert(count * width == (count - 1) * width + width) by (nonlinear_arith);
    }
}

/// Vectors of one length that can each be normalized can be joined, as long
/// as a share still resolves one position among `width` and the shares of
/// all vectors fit in a weight.
pub proof fn lemma_joinable(distributions: Seq<Seq<nat>>, width: nat)
    requires
        forall|k: int| 0 <= k < distributions.len() ==> (#[trigger] distributions[k]).len() == width,
        forall|k: int| 0 <= k < distributions.len() ==> normalizable(#[trigger] distributions[k]),
        width <= UNIT,
        distributions.len() * UNIT <= u64::MAX,
    ensures
        joinable(distributions),
{
    let count: nat = distributions.len();
    if count > 0 {
        lemma_blend_total(distributions, width);
        let whole: nat = weight_sum(blend(distributions, width));
        let unit: nat = UNIT as nat;
        assert(0 < whole) by (nonlinear_arith)
            requires
                count * unit + count <= whole + count * width,
                width <= unit,
                0 < count,
        ;
    }
}

} // verus!
