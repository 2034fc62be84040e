//! General laws of the engine, stated and proved over the specification
//! model `engine::fill_model`; `engine::fills` states how closely `fill`'s
//! output follows that model.

use vstd::prelude::*;

use crate::data::{mean_of, Strategy};
use crate::engine::{fill_model, gap_fill, gap_value, sorted_pairs};

verus! {

/// `e` fills a gap of `s`: it sits at a missing position strictly between a
/// pair of adjacent samples of `s` and carries the strategy's value for that
/// gap.
pub open spec fn in_some_gap(s: Seq<(int, u64)>, strategy: Strategy, e: (int, u64)) -> bool {
    exists|i: int|
        0 <= i && i + 1 < s.len() && (#[trigger] s[i]).0 < e.0 < s[i + 1].0 && e.1 == gap_value(
            strategy,
            s[i].1,
            s[i + 1].1,
        )
}

/// Some sample of `s` sits at position `p`.
pub open spec fn has_pos(s: Seq<(int, u64)>, p: int) -> bool {
    exists|i: int| 0 <= i < s.len() && (#[trigger] s[i]).0 == p
}

/// In a sorted series, positions grow across any distance, not only between
/// neighbors.
pub proof fn lemma_sorted_mono(s: Seq<(int, u64)>, i: int, j: int)
    requires
        sorted_pairs(s),
        0 <= i < j < s.len(),
    ensures
        s[i].0 < s[j].0,
    decreases j - i,
{
    if i + 1 < j {
        lemma_sorted_mono(s, i, j - 1);
    }
}

/// Soundness of the fill: every synthesized sample fills a gap of the input
/// — it sits strictly between a pair of adjacent input samples, at a missing
/// position, and carries the strategy's value for that gap.
pub proof fn lemma_fill_in_gaps(s: Seq<(int, u64)>, strategy: Strategy)
    ensures
        forall|k: int|
            0 <= k < fill_model(s, strategy).len() ==> in_some_gap(
                s,
                strategy,
                #[trigger] fill_model(s, strategy)[k],
            ),
    decreases s.len(),
{
    if s.len() >= 2 {
        let short = s.drop_last();
        lemma_fill_in_gaps(short, strategy);
        let f = fill_model(s, strategy);
        let f0 = fill_model(short, strategy);
        let g = gap_fill(s[s.len() - 2], s[s.len() - 1], strategy);
        assert forall|k: int| 0 <= k < f.len() implies in_some_gap(s, strategy, #[trigger] f[k]) by {
            if k < f0.len() {
                assert(f[k] == f0[k]);
                assert(in_some_gap(short, strategy, f0[k]));
                let i = choose|i: int|
                    0 <= i && i + 1 < short.len() && (#[trigger] short[i]).0 < f0[k].0 < short[i
                        + 1].0 && f0[k].1 == gap_value(strategy, short[i].1, short[i + 1].1);
                assert(s[i] == short[i] && s[i + 1] == short[i + 1]);
            } else {
                let j = k - f0.len();
                assert(f[k] == g[j]);
                let i = s.len() - 2;
                assert((s[i]).0 < f[k].0 < s[i + 1].0 && f[k].1 == gap_value(
                    strategy,
                    s[i].1,
                    s[i + 1].1,
                ));
            }
        }
    }
}

/// Completeness of the fill: every missing position strictly between a pair
/// of adjacent input samples is filled, with the strategy's value for that
/// gap.
pub proof fn lemma_fill_covers_gaps(s: Seq<(int, u64)>, strategy: Strategy, i: int, p: int)
    requires
        0 <= i,
        i + 1 < s.len(),
        s[i].0 < p < s[i + 1].0,
    ensures
        fill_model(s, strategy).contains((p, gap_value(strategy, s[i].1, s[i + 1].1))),
    decreases s.len(),
{
    let e = (p, gap_value(strategy, s[i].1, s[i + 1].1));
    let f = fill_model(s, strategy);
    let f0 = fill_model(s.drop_last(), strategy);
    let g = gap_fill(s[s.len() - 2], s[s.len() - 1], strategy);
    if i + 2 == s.len() {
        let j = p - s[i].0 - 1;
        assert(g[j] == e);
        assert(f[f0.len() + j] == e);
    } else {
        let short = s.drop_last();
        assert(short[i] == s[i] && short[i + 1] == s[i + 1]);
        lemma_fill_covers_gaps(short, strategy, i, p);
        let idx = choose|idx: int| 0 <= idx < f0.len() && f0[idx] == e;
        assert(f[idx] == e);
    }
}

/// Every sample synthesized under `Zeroed` carries the value encoded 0 — the
/// IEEE-754 zero — whatever the bounding values are.
pub proof fn lemma_zeroed_fills_zero(s: Seq<(int, u64)>)
    ensures
        forall|k: int|
            0 <= k < fill_model(s, Strategy::Zeroed).len() ==> (#[trigger] fill_model(
                s,
                Strategy::Zeroed,
            )[k]).1 == 0,
{
    lemma_fill_in_gaps(s, Strategy::Zeroed);
}

/// A gap of exactly one missing step is filled, under `Average`, with the
/// arithmetic mean of the two bounding values, at the single missing
/// position.
pub proof fn lemma_average_fills_unit_gap_with_mean(s: Seq<(int, u64)>, i: int)
    requires
        0 <= i,
        i + 1 < s.len(),
        s[i + 1].0 == s[i].0 + 2,
    ensures
        fill_model(s, Strategy::Average).contains(
            (s[i].0 + 1, mean_of(s[i].1, s[i + 1].1)),
        ),
{
    lemma_fill_covers_gaps(s, Strategy::Average, i, s[i].0 + 1);
}

/// Every sample synthesized under `LastKnown` carries the value of the sample
/// bounding its gap from below — in a sorted series, the immediately
/// preceding observed sample.
pub proof fn lemma_last_known_holds_preceding_value(s: Seq<(int, u64)>)
    ensures
        forall|k: int|
            0 <= k < fill_model(s, Strategy::LastKnown).len() ==> exists|i: int|
                0 <= i && i + 1 < s.len() && (#[trigger] s[i]).0 < (#[trigger] fill_model(
                    s,
                    Strategy::LastKnown,
                )[k]).0 < s[i + 1].0 && fill_model(s, Strategy::LastKnown)[k].1 == s[i].1,
{
    lemma_fill_in_gaps(s, Strategy::LastKnown);
    let f = fill_model(s, Strategy::LastKnown);
    assert forall|k: int| 0 <= k < f.len() implies exists|i: int|
        0 <= i && i + 1 < s.len() && (#[trigger] s[i]).0 < (#[trigger] f[k]).0 < s[i + 1].0 && f[
            k
        ].1 == s[i].1 by {
        assert(in_some_gap(s, Strategy::LastKnown, f[k]));
        let i = choose|i: int|
            0 <= i && i + 1 < s.len() && (#[trigger] s[i]).0 < f[k].0 < s[i + 1].0 && f[k].1
                == gap_value(Strategy::LastKnown, s[i].1, s[i + 1].1);
        assert(s[i].0 < f[k].0 < s[i + 1].0 && f[k].1 == s[i].1);
    }
}

/// In a sorted series, the sample bounding a gap from below is the greatest
/// observed position below any position inside the gap — the immediately
/// preceding observed sample, whose value `LastKnown` holds forward.
pub proof fn lemma_gap_lower_bound_immediately_precedes(s: Seq<(int, u64)>, i: int, p: int)
    requires
        sorted_pairs(s),
        0 <= i,
        i + 1 < s.len(),
        s[i].0 < p < s[i + 1].0,
    ensures
        forall|j: int| 0 <= j < s.len() && (#[trigger] s[j]).0 < p ==> s[j].0 <= s[i].0,
{
    assert forall|j: int| 0 <= j < s.len() && (#[trigger] s[j]).0 < p implies s[j].0 <= s[i].0 by {
        if j > i + 1 {
            lemma_sorted_mono(s, i + 1, j);
        } else if j < i {
            lemma_sorted_mono(s, j, i);
        }
    }
}

/// Synthesized positions are strictly between the least and greatest input
/// positions, and never coincide with an input position.
pub proof fn lemma_fill_positions_interior_and_fresh(s: Seq<(int, u64)>, strategy: Strategy)
    requires
        sorted_pairs(s),
    ensures
        forall|k: int|
            0 <= k < fill_model(s, strategy).len() ==> s[0].0 < (#[trigger] fill_model(
                s,
                strategy,
            )[k]).0 < s[s.len() - 1].0,
        forall|k: int, j: int|
            0 <= k < fill_model(s, strategy).len() && 0 <= j < s.len() ==> (#[trigger] fill_model(
                s,
                strategy,
            )[k]).0 != (#[trigger] s[j]).0,
{
    lemma_fill_in_gaps(s, strategy);
    let f = fill_model(s, strategy);
    assert forall|k: int| 0 <= k < f.len() implies s[0].0 < (#[trigger] f[k]).0 < s[s.len()
        - 1].0 by {
        let i = gap_index_of(s, strategy, f[k]);
        if 0 < i {
            lemma_sorted_mono(s, 0, i);
        }
        if i + 2 < s.len() {
            lemma_sorted_mono(s, i + 1, s.len() - 1);
        }
    }
    assert forall|k: int, j: int|
        0 <= k < f.len() && 0 <= j < s.len() implies (#[trigger] f[k]).0 != (#[trigger] s[j]).0 by {
        let i = gap_index_of(s, strategy, f[k]);
        if j < i {
            lemma_sorted_mono(s, j, i);
        }
        if i + 1 < j {
            lemma_sorted_mono(s, i + 1, j);
        }
    }
}

/// The gap witness behind `in_some_gap`.
spec fn gap_index_of(s: Seq<(int, u64)>, strategy: Strategy, e: (int, u64)) -> int {
    choose|i: int|
        0 <= i && i + 1 < s.len() && (#[trigger] s[i]).0 < e.0 < s[i + 1].0 && e.1 == gap_value(
            strategy,
            s[i].1,
            s[i + 1].1,
        )
}

/// The synthesized sequence is sorted ascending by position.
pub proof fn lemma_fill_sorted(s: Seq<(int, u64)>, strategy: Strategy)
    requires
        sorted_pairs(s),
    ensures
        sorted_pairs(fill_model(s, strategy)),
    decreases s.len(),
{
    if s.len() >= 2 {
        let short = s.drop_last();
        assert(sorted_pairs(short));
        lemma_fill_sorted(short, strategy);
        lemma_fill_in_gaps(short, strategy);
        let f = fill_model(s, strategy);
        let f0 = fill_model(short, strategy);
        let g = gap_fill(s[s.len() - 2], s[s.len() - 1], strategy);
        assert forall|k: int| 0 <= k && k + 1 < f.len() implies (#[trigger] f[k]).0 < f[k + 1].0 by {
            if k + 1 < f0.len() {
                assert(f[k] == f0[k] && f[k + 1] == f0[k + 1]);
            } else if k + 1 == f0.len() {
                // The last element of the earlier fills sits strictly below the
                // position of the next-to-last input sample, where the final
                // gap begins.
                assert(f[k] == f0[k]);
                assert(f[k + 1] == g[0]);
                assert(in_some_gap(short, strategy, f0[k]));
                let i = gap_index_of(short, strategy, f0[k]);
                if i + 1 < short.len() - 1 {
                    lemma_sorted_mono(short, i + 1, short.len() - 1);
                }
                assert(f0[k].0 < short[short.len() - 1].0);
                assert(short[short.len() - 1] == s[s.len() - 2]);
            } else {
                assert(f[k] == g[k - f0.len()] && f[k + 1] == g[k + 1 - f0.len()]);
            }
        }
    }
}

/// In a sorted series, any position between the first and the last is either
/// observed or sits strictly inside the gap between a pair of adjacent
/// samples.
proof fn lemma_locate_position(s: Seq<(int, u64)>, p: int)
    requires
        sorted_pairs(s),
        s.len() >= 1,
        s[0].0 <= p <= s[s.len() - 1].0,
    ensures
        has_pos(s, p) || exists|i: int|
            0 <= i && i + 1 < s.len() && (#[trigger] s[i]).0 < p < s[i + 1].0,
    decreases s.len(),
{
    if s[s.len() - 1].0 == p {
        assert(has_pos(s, p));
    } else if s.len() >= 2 {
        if s[s.len() - 2].0 < p {
            assert((s[s.len() - 2]).0 < p < s[s.len() - 1].0);
        } else {
            let short = s.drop_last();
            assert(sorted_pairs(short));
            lemma_locate_position(short, p);
            if has_pos(short, p) {
                let i = choose|i: int| 0 <= i < short.len() && (#[trigger] short[i]).0 == p;
                assert(s[i].0 == p);
            } else {
                let i = choose|i: int|
                    0 <= i && i + 1 < short.len() && (#[trigger] short[i]).0 < p < short[i + 1].0;
                assert((s[i]).0 < p < s[i + 1].0);
            }
        }
    }
}

/// A series whose neighbors are never more than one step apart has no gap to
/// fill.
proof fn lemma_no_gap_no_fill(t: Seq<(int, u64)>, strategy: Strategy)
    requires
        forall|i: int| 0 <= i && i + 1 < t.len() ==> (#[trigger] t[i]).0 + 1 >= t[i + 1].0,
    ensures
        fill_model(t, strategy).len() == 0,
    decreases t.len(),
{
    if t.len() >= 2 {
        let short = t.drop_last();
        lemma_no_gap_no_fill(short, strategy);
    }
}

/// Refilling a completed series synthesizes nothing: a sorted series holding
/// exactly the positions of the input together with the positions of the
/// input's own fills is gap-free, so running the engine over it — under any
/// strategy — returns an empty sequence.
pub proof fn lemma_refill_of_completed_series_is_empty(
    s: Seq<(int, u64)>,
    t: Seq<(int, u64)>,
    strategy: Strategy,
    again: Strategy,
)
    requires
        sorted_pairs(s),
        sorted_pairs(t),
        forall|p: int|
            #[trigger] has_pos(t, p) <==> has_pos(s, p) || has_pos(fill_model(s, strategy), p),
    ensures
        fill_model(t, again).len() == 0,
{
    let f = fill_model(s, strategy);
    lemma_fill_in_gaps(s, strategy);
    assert forall|j: int| 0 <= j && j + 1 < t.len() implies (#[trigger] t[j]).0 + 1 >= t[j + 1].0 by {
        if t[j].0 + 1 < t[j + 1].0 {
            let p = t[j].0 + 1;
            // The two neighbors' positions are covered by the input and its
            // fills, so they lie within the input's position range, and so
            // does the missing position between them.
            assert(has_pos(t, t[j].0));
            assert(has_pos(t, t[j + 1].0));
            lemma_covered_in_range(s, strategy, t[j].0);
            lemma_covered_in_range(s, strategy, t[j + 1].0);
            lemma_locate_position(s, p);
            if has_pos(s, p) {
                assert(has_pos(t, p));
            } else {
                let i = choose|i: int|
                    0 <= i && i + 1 < s.len() && (#[trigger] s[i]).0 < p < s[i + 1].0;
                lemma_fill_covers_gaps(s, strategy, i, p);
                let e = (p, gap_value(strategy, s[i].1, s[i + 1].1));
                let idx = choose|idx: int| 0 <= idx < f.len() && f[idx] == e;
                assert(has_pos(f, p));
                assert(has_pos(t, p));
            }
            // A sample of `t` at the missing position would have to sit
            // between two neighbors.
            let w = choose|w: int| 0 <= w < t.len() && (#[trigger] t[w]).0 == p;
            if w <= j {
                if w < j {
                    lemma_sorted_mono(t, w, j);
                }
            } else {
                if j + 1 < w {
                    lemma_sorted_mono(t, j + 1, w);
                }
            }
        }
    }
    lemma_no_gap_no_fill(t, again);
}

/// A position covered by a sorted series or by its fills lies between the
/// series' first and last positions.
proof fn lemma_covered_in_range(s: Seq<(int, u64)>, strategy: Strategy, p: int)
    requires
        sorted_pairs(s),
        has_pos(s, p) || has_pos(fill_model(s, strategy), p),
    ensures
        s.len() >= 1,
        s[0].0 <= p <= s[s.len() - 1].0,
{
    if has_pos(s, p) {
        let i = choose|i: int| 0 <= i < s.len() && (#[trigger] s[i]).0 == p;
        if 0 < i {
            lemma_sorted_mono(s, 0, i);
        }
        if i < s.len() - 1 {
            lemma_sorted_mono(s, i, s.len() - 1);
        }
    } else {
        let f = fill_model(s, strategy);
        let i = choose|i: int| 0 <= i < f.len() && (#[trigger] f[i]).0 == p;
        lemma_fill_positions_interior_and_fresh(s, strategy);
        assert(s[0].0 < f[i].0 < s[s.len() - 1].0);
    }
}

/// An input of fewer than two samples has no interior gap: nothing is filled.
pub proof fn lemma_fill_of_short_series_is_empty(s: Seq<(int, u64)>, strategy: Strategy)
    requires
        s.len() < 2,
    ensures
        fill_model(s, strategy) == Seq::<(int, u64)>::empty(),
{
}

} // verus!
