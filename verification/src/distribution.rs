//! Weight vectors: their totals, their normalized shares, the blend of several
//! of them, and the index that a uniform draw selects.

use crate::random::draw_below;
use rand::rngs::SmallRng;
use vstd::prelude::*;

verus! {

/// The number of parts that make up the whole. A normalized share, and a
/// probability, is a number of parts between zero and `UNIT`.
pub const UNIT: u64 = 1_000_000_000;

/// The weights of a vector as mathematical naturals.
pub open spec fn values(weights: Seq<u64>) -> Seq<nat> {
    Seq::new(weights.len(), |i: int| weights[i] as nat)
}

/// The sum of all weights.
pub open spec fn weight_sum(weights: Seq<nat>) -> nat
    decreases weights.len(),
{
    if weights.len() == 0 {
        0
    } else {
        weight_sum(weights.drop_last()) + weights.last()
    }
}

/// A vector can be normalized when its total is positive.
pub open spec fn normalizable(weights: Seq<nat>) -> bool {
    0 < weight_sum(weights)
}

/// The part of `UNIT` that a weight takes of a total, rounded down.
pub open spec fn share(weight: nat, total: nat) -> nat {
    weight * (UNIT as nat) / total
}

/// Every weight replaced by its share of the vector's total.
pub open spec fn normalized(weights: Seq<nat>) -> Seq<nat> {
    Seq::new(weights.len(), |i: int| share(weights[i], weight_sum(weights)))
}

/// Adding the weight at position `n` to the sum of the first `n` weights gives
/// the sum of the first `n + 1`.
pub proof fn lemma_sum_extend(weights: Seq<nat>, n: int)
    requires
        0 <= n < weights.len(),
    ensures
        weight_sum(weights.take(n + 1)) == weight_sum(weights.take(n)) + weights[n],
{
    assert(weights.take(n + 1).drop_last() =~= weights.take(n));
}

/// The sum of a prefix never exceeds the sum of a longer prefix.
pub proof fn lemma_prefix_monotone(weights: Seq<nat>, m: int, n: int)
    requires
        0 <= m <= n <= weights.len(),
    ensures
        weight_sum(weights.take(m)) <= weight_sum(weights.take(n)),
    decreases n - m,
{
    if m < n {
        lemma_sum_extend(weights, n - 1);
        lemma_prefix_monotone(weights, m, n - 1);
    }
}

/// No weight exceeds the total.
pub proof fn lemma_weight_within_sum(weights: Seq<nat>, i: int)
    requires
        0 <= i < weights.len(),
    ensures
        weights[i] <= weight_sum(weights),
{
    lemma_sum_extend(weights, i);
    lemma_prefix_monotone(weights, i + 1, weights.len() as int);
    assert(weights.take(weights.len() as int) =~= weights);
}

/// A weight that does not exceed the total takes at most the whole.
pub proof fn lemma_share_within_unit(weight: nat, total: nat)
    requires
        weight <= total,
        0 < total,
    ensures
        share(weight, total) <= UNIT,
{
    let unit: nat = UNIT as nat;
    assert(weight * unit <= total * unit) by (nonlinear_arith)
        requires
            weight <= total,
    ;
    assert(weight * unit / total <= unit) by (nonlinear_arith)
        requires
            weight * unit <= total * unit,
            0 < total,
    ;
}

/// The sum of the weights, which always fits in 128 bits.
pub fn total_weight(weights: &Vec<u64>) -> (total: u128)
    ensures
        total == weight_sum(values(weights@)),
{
    let ghost model: Seq<nat> = values(weights@);
    let mut total: u128 = 0;
    let mut i: usize = 0;
    while i < weights.len()
        invariant
            i <= weights.len(),
            model == values(weights@),
            total == weight_sum(model.take(i as int)),
            total <= i * 0xFFFF_FFFF_FFFF_FFFF,
        decreases weights.len() - i,
    {
        proof {
            lemma_sum_extend(model, i as int);
        }
        total = total + weights[i] as u128;
        i = i + 1;
    }
    proof {
        assert(model.take(i as int) =~= model);
    }
    total
}

/// Whether the weights can be normalized: whether their total is positive.
pub fn is_normalizable(dist: &Vec<u64>) -> (ok: bool)
    ensures
        ok == normalizable(values(dist@)),
{
    total_weight(dist) > 0
}

/// Scales every weight by `UNIT` over the vector's total, rounding down, so
/// that the shares add up to the whole but for the rounding.
pub fn normalize_distribution(dist: &Vec<u64>) -> (shares: Vec<u64>)
    requires
        normalizable(values(dist@)),
    ensures
        values(shares@) == normalized(values(dist@)),
        shares.len() == dist.len(),
        forall|i: int|
            0 <= i < dist.len() ==> #[trigger] shares@[i] == share(
                dist@[i] as nat,
                weight_sum(values(dist@)),
            ),
{
    let ghost model: Seq<nat> = values(dist@);
    let total: u128 = total_weight(dist);
    let mut shares: Vec<u64> = Vec::with_capacity(dist.len());
    let mut i: usize = 0;
    while i < dist.len()
        invariant
            i <= dist.len(),
            shares.len() == i,
            model == values(dist@),
            total == weight_sum(model),
            0 < total,
            forall|j: int| 0 <= j < i ==> shares@[j] as nat == share(model[j], total as nat),
        decreases dist.len() - i,
    {
        proof {
            lemma_weight_within_sum(model, i as int);
            lemma_share_within_unit(model[i as int], total as nat);
        }
        let scaled: u128 = dist[i] as u128 * (UNIT as u128);
        let part: u128 = scaled / total;
        shares.push(part as u64);
        i = i + 1;
    }
    proof {
        assert(values(shares@) =~= normalized(model));
    }
    shares
}

/// A vector of `width` zero weights.
pub open spec fn zeros(width: nat) -> Seq<nat> {
    Seq::new(width, |i: int| 0nat)
}

/// The sum of two vectors, position by position.
pub open spec fn sum_elementwise(a: Seq<nat>, b: Seq<nat>) -> Seq<nat> {
    Seq::new(a.len(), |i: int| a[i] + b[i])
}

/// The sum, position by position, of the normalized form of every vector.
/// This adds shares; it does not multiply them.
pub open spec fn blend(distributions: Seq<Seq<nat>>, width: nat) -> Seq<nat>
    decreases distributions.len(),
{
    if distributions.len() == 0 {
        zeros(width)
    } else {
        sum_elementwise(blend(distributions.drop_last(), width), normalized(distributions.last()))
    }
}

/// The blend of the vectors, normalized once more; empty for no vectors.
pub open spec fn joined(distributions: Seq<Seq<nat>>) -> Seq<nat> {
    if distributions.len() == 0 {
        Seq::empty()
    } else {
        normalized(blend(distributions, distributions[0].len()))
    }
}

/// The vectors can be joined: they have one length, each can be normalized,
/// and their blend has a positive total that fits in a weight.
pub open spec fn joinable(distributions: Seq<Seq<nat>>) -> bool {
    &&& forall|k: int|
        0 <= k < distributions.len() ==> (#[trigger] distributions[k]).len()
            == distributions[0].len()
    &&& forall|k: int| 0 <= k < distributions.len() ==> normalizable(#[trigger] distributions[k])
    &&& distributions.len() > 0 ==> 0 < weight_sum(blend(distributions, distributions[0].len()))
        <= u64::MAX
}

/// The weights of each vector in a list as mathematical naturals.
pub open spec fn models(distributions: Seq<&Vec<u64>>) -> Seq<Seq<nat>> {
    Seq::new(distributions.len(), |k: int| values(distributions[k]@))
}

/// A blend has the width it was asked for.
pub proof fn lemma_blend_width(distributions: Seq<Seq<nat>>, width: nat)
    ensures
        blend(distributions, width).len() == width,
    decreases distributions.len(),
{
    if distributions.len() > 0 {
        lemma_blend_width(distributions.drop_last(), width);
    }
}

/// Blending more vectors never lowers a position.
pub proof fn lemma_blend_grows(distributions: Seq<Seq<nat>>, width: nat, m: int, n: int, i: int)
    requires
        0 <= m <= n <= distributions.len(),
        0 <= i < width,
    ensures
        blend(distributions.take(m), width)[i] <= blend(distributions.take(n), width)[i],
    decreases n - m,
{
    if m < n {
        lemma_blend_grows(distributions, width, m, n - 1, i);
        lemma_blend_width(distributions.take(n - 1), width);
        assert(distributions.take(n).drop_last() =~= distributions.take(n - 1));
    }
}

/// Normalizes each vector, adds the results position by position, and
/// normalizes the sum. No vectors give an empty result.
pub fn join_and_normalize_probabilities(distributions: Vec<&Vec<u64>>) -> (joint: Vec<u64>)
    requires
        joinable(models(distributions@)),
    ensures
        values(joint@) == joined(models(distributions@)),
        distributions.len() == 0 ==> joint.len() == 0,
        distributions.len() > 0 ==> joint.len() == distributions@[0].len(),
{
    if distributions.len() == 0 {
        let joint: Vec<u64> = Vec::new();
        proof {
            assert(values(joint@) =~= joined(models(distributions@)));
        }
        return joint;
    }
    let ghost all: Seq<Seq<nat>> = models(distributions@);
    let ghost width: nat = all[0].len();
    let mut accumulator: Vec<u64> = normalize_distribution(distributions[0]);
    proof {
        assert(all[0] == values(distributions@[0]@));
        assert(all.take(1).drop_last() =~= Seq::<Seq<nat>>::empty());
        assert(all.take(1).last() == all[0]);
        assert(blend(all.take(1).drop_last(), width) == zeros(width));
        assert(values(accumulator@) =~= blend(all.take(1), width));
    }
    let mut k: usize = 1;
    while k < distributions.len()
        invariant
            1 <= k <= distributions.len(),
            all == models(distributions@),
            width == all[0].len(),
            joinable(all),
            values(accumulator@) == blend(all.take(k as int), width),
        decreases distributions.len() - k,
    {
        proof {
            assert(all[k as int] == values(distributions@[k as int]@));
            assert(all[k as int].len() == width);
            lemma_blend_width(all.take(k as int), width);
        }
        let addend: Vec<u64> = normalize_distribution(distributions[k]);
        let ghost before: Seq<nat> = values(accumulator@);
        let ghost shares: Seq<nat> = values(addend@);
        proof {
            assert(shares.len() == width);
        }
        let mut idx: usize = 0;
        while idx < addend.len()
            invariant
                idx <= addend.len(),
                addend.len() == width,
                accumulator.len() == width,
                before.len() == width,
                shares == values(addend@),
                0 <= k < all.len(),
                joinable(all),
                width == all[0].len(),
                before == blend(all.take(k as int), width),
                shares == normalized(all[k as int]),
                forall|j: int| 0 <= j < idx ==> accumulator@[j] as nat == before[j] + shares[j],
                forall|j: int| idx <= j < width ==> accumulator@[j] as nat == before[j],
            decreases addend.len() - idx,
        {
            proof {
                let step: Seq<nat> = blend(all.take(k + 1), width);
                let whole: Seq<nat> = blend(all, width);
                assert(all.take(k + 1).drop_last() =~= all.take(k as int));
                assert(all.take(k + 1).last() == all[k as int]);
                assert(step[idx as int] == before[idx as int] + shares[idx as int]);
                lemma_blend_grows(all, width, k + 1, all.len() as int, idx as int);
                assert(all.take(all.len() as int) =~= all);
                lemma_blend_width(all, width);
                lemma_weight_within_sum(whole, idx as int);
            }
            let raised: u64 = accumulator[idx] + addend[idx];
            accumulator.set(idx, raised);
            idx = idx + 1;
        }
        proof {
            assert(all.take(k + 1).drop_last() =~= all.take(k as int));
            assert(all.take(k + 1).last() == all[k as int]);
            assert(values(accumulator@) =~= blend(all.take(k + 1), width));
        }
        k = k + 1;
    }
    proof {
        assert(all.take(k as int) =~= all);
        assert(all[0] == values(distributions@[0]@));
        lemma_blend_width(all, width);
        assert(values(accumulator@).len() == width);
    }
    normalize_distribution(&accumulator)
}

/// The sum of the weights up to and including position `i`.
pub open spec fn cumulative(weights: Seq<nat>, i: int) -> nat {
    weight_sum(weights.take(i + 1))
}

/// `index` is the smallest position whose cumulative weight exceeds `draw`,
/// or the last position when no cumulative weight does.
pub open spec fn selects(weights: Seq<nat>, draw: nat, index: int) -> bool {
    &&& 0 <= index < weights.len()
    &&& forall|j: int| 0 <= j < index ==> #[trigger] cumulative(weights, j) <= draw
    &&& cumulative(weights, index) > draw || index == weights.len() - 1
}

/// The position that `draw` selects among the weights.
pub open spec fn selected(weights: Seq<nat>, draw: nat) -> int {
    choose|index: int| selects(weights, draw, index)
}

/// Two positions selected by one draw are the same position.
pub proof fn lemma_selection_unique(weights: Seq<nat>, draw: nat, a: int, b: int)
    requires
        selects(weights, draw, a),
        selects(weights, draw, b),
    ensures
        a == b,
{
    if a < b {
        assert(cumulative(weights, a) <= draw);
    } else if b < a {
        assert(cumulative(weights, b) <= draw);
    }
}

/// Walks the weights in order, taking each from the draw until what is left
/// of the draw is below the next weight, and returns that position. A draw
/// that outlasts every weight gives the last position.
pub fn index_for_draw(dist: &Vec<u64>, draw: u128) -> (index: usize)
    requires
        dist.len() > 0,
    ensures
        selects(values(dist@), draw as nat, index as int),
        index == selected(values(dist@), draw as nat),
        draw < weight_sum(values(dist@)) ==> dist@[index as int] > 0,
        draw >= weight_sum(values(dist@)) ==> index == dist.len() - 1,
{
    let ghost model: Seq<nat> = values(dist@);
    let mut energy: u128 = draw;
    let mut i: usize = 0;
    while i < dist.len()
        invariant
            i <= dist.len(),
            model == values(dist@),
            energy + weight_sum(model.take(i as int)) == draw,
            forall|j: int| 0 <= j < i ==> #[trigger] cumulative(model, j) <= draw,
        decreases dist.len() - i,
    {
        proof {
            lemma_sum_extend(model, i as int);
        }
        let weight: u128 = dist[i] as u128;
        if energy < weight {
            proof {
                lemma_prefix_monotone(model, i + 1, model.len() as int);
                assert(model.take(model.len() as int) =~= model);
                assert(selects(model, draw as nat, i as int));
                lemma_selection_unique(
                    model,
                    draw as nat,
                    i as int,
                    selected(model, draw as nat),
                );
            }
            return i;
        }
        energy = energy - weight;
        i = i + 1;
    }
    proof {
        assert(model.take(i as int) =~= model);
        assert(selects(model, draw as nat, i - 1));
        lemma_selection_unique(model, draw as nat, i - 1, selected(model, draw as nat));
    }
    dist.len() - 1
}

/// Draws uniformly below the total weight and returns the position that the
/// draw selects. A total of zero gives position zero.
pub fn sample_from_distribution(dist: &Vec<u64>, rng: &mut SmallRng) -> (index: usize)
    requires
        dist.len() > 0,
    ensures
        index < dist.len(),
        !normalizable(values(dist@)) ==> index == 0,
        normalizable(values(dist@)) ==> dist@[index as int] > 0 && exists|draw: nat|
            draw < weight_sum(values(dist@)) && index == #[trigger] selected(values(dist@), draw),
{
    let total: u128 = total_weight(dist);
    if total == 0 {
        return 0;
    }
    let draw: u128 = draw_below(rng, total);
    index_for_draw(dist, draw)
}

} // verus!
