//! Gap detection and filling, with the specification model the contracts are
//! stated over.

use vstd::prelude::*;

use crate::data::{
    is_nan_bits, mean_is_determined, mean_of, mean_point, zero_point, Sample, Strategy,
};

verus! {

/// The specification view of a sample: its position and the IEEE-754
/// encoding of its value.
pub open spec fn pairs_of(s: Seq<Sample>) -> Seq<(int, u64)> {
    Seq::new(s.len(), |i: int| (s[i].pos as int, s[i].val()))
}

/// Positions strictly increase between every pair of neighbors.
pub open spec fn sorted_pairs(s: Seq<(int, u64)>) -> bool {
    forall|i: int| 0 <= i && i + 1 < s.len() ==> (#[trigger] s[i]).0 < s[i + 1].0
}

/// The value synthesized at every missing position of a gap bounded by
/// values encoded `prev_val` and `next_val`.
pub open spec fn gap_value(strategy: Strategy, prev_val: u64, next_val: u64) -> u64 {
    match strategy {
        Strategy::Average => mean_of(prev_val, next_val),
        Strategy::Zeroed => 0u64,
        Strategy::LastKnown => prev_val,
    }
}

/// The samples synthesized for the gap between the neighbors `prev` and
/// `next`: one at each missing unit-step position strictly between them, all
/// carrying the strategy's value for this gap.
pub open spec fn gap_fill(prev: (int, u64), next: (int, u64), strategy: Strategy) -> Seq<
    (int, u64),
> {
    if next.0 <= prev.0 + 1 {
        Seq::empty()
    } else {
        Seq::new(
            (next.0 - prev.0 - 1) as nat,
            |k: int| (prev.0 + 1 + k, gap_value(strategy, prev.1, next.1)),
        )
    }
}

/// The specification model of the fill: the concatenation, in input order, of
/// the fills of the gaps between adjacent samples. An input of fewer than two
/// samples has no interior gap. `fills` states how closely `fill`'s output
/// follows this model.
pub open spec fn fill_model(s: Seq<(int, u64)>, strategy: Strategy) -> Seq<(int, u64)>
    decreases s.len(),
{
    if s.len() < 2 {
        Seq::empty()
    } else {
        fill_model(s.drop_last(), strategy) + gap_fill(
            s[s.len() - 2],
            s[s.len() - 1],
            strategy,
        )
    }
}

/// The bounding values of the gap between the neighbors `prev` and `next`,
/// once per missing unit-step position: the sources each synthesized value is
/// computed from.
pub open spec fn gap_sources(prev: (int, u64), next: (int, u64)) -> Seq<(u64, u64)> {
    if next.0 <= prev.0 + 1 {
        Seq::empty()
    } else {
        Seq::new((next.0 - prev.0 - 1) as nat, |k: int| (prev.1, next.1))
    }
}

/// The bounding values behind every sample of `fill_model`, slot for slot.
pub open spec fn fill_sources(s: Seq<(int, u64)>) -> Seq<(u64, u64)>
    decreases s.len(),
{
    if s.len() < 2 {
        Seq::empty()
    } else {
        fill_sources(s.drop_last()) + gap_sources(s[s.len() - 2], s[s.len() - 1])
    }
}

/// What a synthesized value owes to the bounding values `src` of its gap.
/// `Zeroed` and `LastKnown` fix it exactly; `Average` fixes it exactly where
/// the mean is determined, and otherwise promises a NaN, whose bit pattern
/// IEEE-754 leaves open.
pub open spec fn value_matches(strategy: Strategy, src: (u64, u64), v: u64) -> bool {
    match strategy {
        Strategy::Average => if mean_is_determined(src.0, src.1) {
            v == mean_of(src.0, src.1)
        } else {
            is_nan_bits(v)
        },
        Strategy::Zeroed => v == 0,
        Strategy::LastKnown => v == src.0,
    }
}

/// The model's values are all realizable: under `Average`, the bounding
/// values of every gap admit a determined mean. (`Zeroed` and `LastKnown`
/// copy or fix values, which is always exact.)
pub open spec fn model_exact(s: Seq<(int, u64)>, strategy: Strategy) -> bool {
    strategy is Average ==> forall|i: int|
        0 <= i && i + 1 < s.len() && (#[trigger] s[i]).0 + 1 < s[i + 1].0 ==> mean_is_determined(
            s[i].1,
            s[i + 1].1,
        )
}

/// Everything `fill` promises of its output view `out`: the model fixes the
/// length and every position; every value answers to its gap's bounding
/// values; and where the model's values are all realizable, the output is the
/// model, element for element.
pub open spec fn fills(s: Seq<(int, u64)>, strategy: Strategy, out: Seq<(int, u64)>) -> bool {
    &&& out.len() == fill_model(s, strategy).len()
    &&& (forall|k: int|
        0 <= k < out.len() ==> (#[trigger] out[k]).0 == fill_model(s, strategy)[k].0)
    &&& (forall|k: int|
        0 <= k < out.len() ==> value_matches(strategy, fill_sources(s)[k], (#[trigger] out[k]).1))
    &&& (model_exact(s, strategy) ==> out == fill_model(s, strategy))
}

/// `fill_sources` describes `fill_model` slot for slot: the two have the same
/// length, under every strategy.
pub proof fn lemma_fill_sources_len(s: Seq<(int, u64)>, strategy: Strategy)
    ensures
        fill_sources(s).len() == fill_model(s, strategy).len(),
    decreases s.len(),
{
    if s.len() >= 2 {
        lemma_fill_sources_len(s.drop_last(), strategy);
    }
}

/// Extending the processed prefix by one sample appends exactly the fill of
/// the newly completed gap.
pub proof fn lemma_fill_model_step(s: Seq<(int, u64)>, j: int, strategy: Strategy)
    requires
        1 <= j < s.len(),
    ensures
        fill_model(s.take(j + 1), strategy) == fill_model(s.take(j), strategy) + gap_fill(
            s[j - 1],
            s[j],
            strategy,
        ),
{
    let t = s.take(j + 1);
    assert(t.drop_last() =~= s.take(j));
}

/// The companion of `lemma_fill_model_step` for the bounding values.
pub proof fn lemma_fill_sources_step(s: Seq<(int, u64)>, j: int)
    requires
        1 <= j < s.len(),
    ensures
        fill_sources(s.take(j + 1)) == fill_sources(s.take(j)) + gap_sources(s[j - 1], s[j]),
{
    let t = s.take(j + 1);
    assert(t.drop_last() =~= s.take(j));
}

/// Synthesizes one sample for every missing unit-step position strictly
/// between each pair of adjacent input samples, in ascending position order,
/// valued according to `strategy` (see `fills`): positions follow the model
/// exactly; so do the values, except for an `Average` gap whose bounding
/// values leave the mean undetermined — there only the NaN-ness of the fill
/// value is promised, since NaN bit patterns are not portable. Input samples
/// are never echoed back. The input is assumed sorted by strictly increasing
/// position with no duplicate positions; `fill_checked` validates that
/// assumption instead of assuming it.
#[verifier::loop_isolation(false)]
pub fn fill(series: &Vec<Sample>, strategy: Strategy) -> (out: Vec<Sample>)
    ensures
        fills(pairs_of(series@), strategy, pairs_of(out@)),
{
    let ghost sp = pairs_of(series@);
    let mut out: Vec<Sample> = Vec::new();
    if series.len() < 2 {
        assert(pairs_of(out@) =~= fill_model(sp, strategy));
        return out;
    }
    let mut i: usize = 1;
    assert(pairs_of(out@) =~= fill_model(sp.take(1), strategy));
    assert(fill_sources(sp.take(1)) =~= Seq::<(u64, u64)>::empty());
    while i < series.len()
        invariant
            1 <= i <= series@.len(),
            fill_sources(sp.take(i as int)).len() == fill_model(sp.take(i as int), strategy).len(),
            pairs_of(out@).len() == fill_model(sp.take(i as int), strategy).len(),
            forall|m: int|
                0 <= m < pairs_of(out@).len() ==> (#[trigger] pairs_of(out@)[m]).0 == fill_model(
                    sp.take(i as int),
                    strategy,
                )[m].0,
            forall|m: int|
                0 <= m < pairs_of(out@).len() ==> value_matches(
                    strategy,
                    fill_sources(sp.take(i as int))[m],
                    (#[trigger] pairs_of(out@)[m]).1,
                ),
            model_exact(sp, strategy) ==> pairs_of(out@) == fill_model(
                sp.take(i as int),
                strategy,
            ),
        decreases series@.len() - i,
    {
        let prev = &series[i - 1];
        let next = &series[i];
        let d: i128 = next.pos as i128 - prev.pos as i128;
        if d > 1 {
            let mut k: i128 = 1;
            while k < d
                invariant
                    1 <= k <= d,
                    pairs_of(out@).len() == fill_model(sp.take(i as int), strategy).len() + (k - 1),
                    forall|m: int|
                        0 <= m < pairs_of(out@).len() ==> (#[trigger] pairs_of(out@)[m]).0 == (
                        fill_model(sp.take(i as int), strategy) + gap_fill(
                            sp[i - 1],
                            sp[i as int],
                            strategy,
                        ).take(k - 1))[m].0,
                    forall|m: int|
                        0 <= m < pairs_of(out@).len() ==> value_matches(
                            strategy,
                            (fill_sources(sp.take(i as int)) + gap_sources(
                                sp[i - 1],
                                sp[i as int],
                            ).take(k - 1))[m],
                            (#[trigger] pairs_of(out@)[m]).1,
                        ),
                    model_exact(sp, strategy) ==> pairs_of(out@) == fill_model(
                        sp.take(i as int),
                        strategy,
                    ) + gap_fill(sp[i - 1], sp[i as int], strategy).take(k - 1),
                decreases d - k,
            {
                let p: i64 = (prev.pos as i128 + k) as i64;
                let filled = match strategy {
                    Strategy::Average => Sample::new(p, mean_point(&prev.point, &next.point)),
                    Strategy::Zeroed => Sample::new(p, zero_point()),
                    Strategy::LastKnown => Sample::new(p, prev.point),
                };
                proof {
                    let g = gap_fill(sp[i - 1], sp[i as int], strategy);
                    let gs = gap_sources(sp[i - 1], sp[i as int]);
                    assert(g[k - 1].0 == p as int);
                    assert(gs[k - 1] == (sp[i - 1].1, sp[i as int].1));
                    assert(value_matches(strategy, gs[k - 1], filled.val()));
                    assert(pairs_of(out@.push(filled)) =~= pairs_of(out@).push(
                        (p as int, filled.val()),
                    ));
                    assert(g.take(k - 1).push(g[k - 1]) =~= g.take(k as int));
                    assert(gs.take(k - 1).push(gs[k - 1]) =~= gs.take(k as int));
                    if model_exact(sp, strategy) {
                        if strategy is Average {
                            assert(sp[i - 1].0 + 1 < sp[i as int].0);
                            assert(mean_is_determined(sp[i - 1].1, sp[i as int].1));
                        }
                        assert(g[k - 1] == (p as int, filled.val()));
                    }
                }
                out.push(filled);
                k = k + 1;
            }
            proof {
                assert(gap_fill(sp[i - 1], sp[i as int], strategy).take(k - 1) =~= gap_fill(
                    sp[i - 1],
                    sp[i as int],
                    strategy,
                ));
                assert(gap_sources(sp[i - 1], sp[i as int]).take(k - 1) =~= gap_sources(
                    sp[i - 1],
                    sp[i as int],
                ));
            }
        } else {
            assert(gap_fill(sp[i - 1], sp[i as int], strategy) =~= Seq::<(int, u64)>::empty());
            assert(gap_sources(sp[i - 1], sp[i as int]) =~= Seq::<(u64, u64)>::empty());
        }
        proof {
            lemma_fill_model_step(sp, i as int, strategy);
            lemma_fill_sources_step(sp, i as int);
            assert(fill_model(sp.take(i as int), strategy) + gap_fill(
                sp[i - 1],
                sp[i as int],
                strategy,
            ) =~= fill_model(sp.take(i + 1), strategy));
            assert(fill_sources(sp.take(i as int)) + gap_sources(sp[i - 1], sp[i as int])
                =~= fill_sources(sp.take(i + 1)));
        }
        i = i + 1;
    }
    assert(sp.take(series@.len() as int) =~= sp);
    out
}

/// Validates the sortedness assumption before filling: returns the
/// synthesized samples when positions strictly increase between every pair of
/// neighbors, and nothing otherwise.
#[verifier::loop_isolation(false)]
pub fn fill_checked(series: &Vec<Sample>, strategy: Strategy) -> (r: Option<Vec<Sample>>)
    ensures
        r is Some <==> sorted_pairs(pairs_of(series@)),
        r is Some ==> fills(pairs_of(series@), strategy, pairs_of(r.unwrap()@)),
{
    let mut i: usize = 1;
    while i < series.len()
        invariant
            1 <= i,
            series@.len() >= 2 ==> i <= series@.len(),
            forall|j: int| 0 <= j && j + 1 < i ==> #[trigger] pairs_of(series@)[j].0 < pairs_of(
                series@,
            )[j + 1].0,
        decreases series@.len() - i,
    {
        if series[i - 1].pos >= series[i].pos {
            proof {
                let spp = pairs_of(series@);
                assert(spp[i - 1].0 >= spp[i as int].0);
            }
            return None;
        }
        i = i + 1;
    }
    Some(fill(series, strategy))
}

} // verus!
