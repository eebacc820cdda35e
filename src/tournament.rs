//! The round-robin tournament and its ranking.
use crate::chance::Probability;
use crate::engine::{draws_fit, is_outcome, play, play_match, score_first, RoundDraws};
use crate::game::PayoffMatrix;
use crate::strategy::{display_name, roster, roster_at, ROSTER_SIZE};
use vstd::prelude::*;

verus! {

/// A ranking: strategy display names with their total scores, best first.
#[derive(Debug)]
pub struct TournamentResult {
    pub ranking: Vec<(String, i128)>,
}

/// Slot `a` ranks ahead of slot `b`: a higher total, or an equal total and an
/// earlier slot.
pub open spec fn ranks_before(totals: Seq<i128>, a: int, b: int) -> bool {
    totals[a] > totals[b] || (totals[a] == totals[b] && a < b)
}

/// Some position of `order` holds `v`.
pub open spec fn lists(order: Seq<usize>, v: int) -> bool {
    exists|k: int| 0 <= k < order.len() && #[trigger] order[k] == v
}

/// `order` lists every slot of `totals` once, by total descending, ties in
/// slot order.
pub open spec fn is_rank_order(order: Seq<usize>, totals: Seq<i128>) -> bool {
    &&& order.len() == totals.len()
    &&& forall|k: int| 0 <= k < order.len() ==> #[trigger] order[k] < totals.len()
    &&& forall|v: int| 0 <= v < totals.len() ==> #[trigger] lists(order, v)
    &&& forall|a: int, b: int|
        0 <= a < b < order.len() ==> ranks_before(totals, #[trigger] order[a] as int, #[trigger] order[b] as int)
}

/// `ranking` names the roster's strategies with their totals, in rank order.
pub open spec fn is_ranking(ranking: Seq<(String, i128)>, totals: Seq<i128>) -> bool {
    exists|order: Seq<usize>|
        #[trigger] is_rank_order(order, totals) && ranking.len() == order.len() && forall|k: int|
            0 <= k < ranking.len() ==> (#[trigger] ranking[k]).0@ == display_name(roster()[order[k] as int])
                && ranking[k].1 == totals[order[k] as int]
}

/// The first slot's match scores against the first `n` slots of the roster,
/// summed, each match played under its own random outcomes.
pub open spec fn row_total(i: int, m: PayoffMatrix, row: Seq<Seq<RoundDraws>>, n: int) -> int
    decreases n,
{
    if n <= 0 {
        0
    } else {
        row_total(i, m, row, n - 1) + score_first(play(roster()[i], roster()[n - 1], m, row[n - 1]), m)
    }
}

/// Every match of a tournament has `rounds` random outcomes that fit the noise.
pub open spec fn pairings_fit(dd: Seq<Seq<Seq<RoundDraws>>>, rounds: u32, noise: Probability) -> bool {
    &&& dd.len() == ROSTER_SIZE
    &&& forall|i: int| 0 <= i < ROSTER_SIZE ==> (#[trigger] dd[i]).len() == ROSTER_SIZE
    &&& forall|i: int, j: int|
        0 <= i < ROSTER_SIZE && 0 <= j < ROSTER_SIZE ==> (#[trigger] dd[i][j]).len() == rounds
            && draws_fit(dd[i][j], noise)
}

/// Orders the slots of `totals` by total descending; equal totals keep slot order.
pub fn rank_order(totals: &Vec<i128>) -> (r: Vec<usize>)
    ensures
        is_rank_order(r@, totals@),
{
    let n = totals.len();
    let mut order: Vec<usize> = Vec::new();
    let mut k: usize = 0;
    while k < n
        invariant
            n == totals.len(),
            k <= n,
            order.len() == k,
            forall|q: int| 0 <= q < order.len() ==> #[trigger] order[q] < k,
            forall|v: int| 0 <= v < k ==> #[trigger] lists(order@, v),
            forall|a: int, b: int|
                0 <= a < b < order.len() ==> ranks_before(
                    totals@,
                    #[trigger] order[a] as int,
                    #[trigger] order[b] as int,
                ),
        decreases n - k,
    {
        let mut p: usize = 0;
        while p < order.len() && totals[order[p]] >= totals[k]
            invariant
                n == totals.len(),
                k < n,
                order.len() == k,
                p <= order.len(),
                forall|q: int| 0 <= q < order.len() ==> #[trigger] order[q] < k,
                forall|q: int| 0 <= q < p ==> totals[#[trigger] order[q] as int] >= totals[k as int],
            decreases order.len() - p,
        {
            p += 1;
        }
        proof {
            assert forall|q: int| p <= q < order.len() implies totals[#[trigger] order[q] as int]
                < totals[k as int] by {
                if q > p {
                    assert(ranks_before(totals@, order[p as int] as int, order[q] as int));
                }
            }
        }
        let ghost old_order = order@;
        order.insert(p, k);
        proof {
            assert(order@ == old_order.insert(p as int, k));
            assert forall|v: int| 0 <= v < k + 1 implies #[trigger] lists(order@, v) by {
                if v == k {
                    assert(order[p as int] == v);
                } else {
                    assert(lists(old_order, v));
                    let q0 = choose|q: int| 0 <= q < old_order.len() && old_order[q] == v;
                    if q0 < p {
                        assert(order[q0] == v);
                    } else {
                        assert(order[q0 + 1] == v);
                    }
                }
            }
            assert forall|a: int, b: int| 0 <= a < b < order.len() implies ranks_before(
                totals@,
                #[trigger] order[a] as int,
                #[trigger] order[b] as int,
            ) by {
                if b < p {
                    assert(order[a] == old_order[a] && order[b] == old_order[b]);
                } else if b == p {
                    assert(order[a] == old_order[a]);
                } else if a < p {
                    assert(order[a] == old_order[a] && order[b] == old_order[b - 1]);
                } else if a == p {
                    assert(order[b] == old_order[b - 1]);
                } else {
                    assert(order[a] == old_order[a - 1] && order[b] == old_order[b - 1]);
                }
            }
        }
        k += 1;
    }
    order
}

/// Pairs each slot of a rank order with its strategy's name and total.
fn name_ranking(order: &Vec<usize>, totals: &Vec<i128>) -> (r: Vec<(String, i128)>)
    requires
        totals.len() == ROSTER_SIZE,
        is_rank_order(order@, totals@),
    ensures
        is_ranking(r@, totals@),
{
    let mut ranking: Vec<(String, i128)> = Vec::new();
    let mut k: usize = 0;
    while k < order.len()
        invariant
            totals.len() == ROSTER_SIZE,
            is_rank_order(order@, totals@),
            k <= order.len(),
            ranking.len() == k,
            forall|q: int|
                0 <= q < k ==> (#[trigger] ranking[q]).0@ == display_name(roster()[order[q] as int])
                    && ranking[q].1 == totals[order[q] as int],
        decreases order.len() - k,
    {
        let slot = order[k];
        ranking.push((roster_at(slot).name(), totals[slot]));
        k += 1;
    }
    ranking
}

/// Plays every ordered pair of the roster, self-play included, once each, and
/// ranks the strategies by the sum of their scores as first player.
pub fn run_tournament(
    rounds: u32,
    noise: Probability,
    matrix: &PayoffMatrix,
    rng: &mut rand::rngs::StdRng,
) -> (r: TournamentResult)
    requires
        noise.wf(),
    ensures
        exists|dd: Seq<Seq<Seq<RoundDraws>>>, totals: Seq<i128>|
            #![trigger pairings_fit(dd, rounds, noise), is_ranking(r.ranking@, totals)]
            pairings_fit(dd, rounds, noise) && totals.len() == ROSTER_SIZE
                && (forall|i: int|
                0 <= i < ROSTER_SIZE ==> #[trigger] totals[i] == row_total(
                    i,
                    *matrix,
                    dd[i],
                    ROSTER_SIZE as int,
                )) && is_ranking(r.ranking@, totals),
{
    let mut totals: Vec<i128> = Vec::new();
    let ghost mut dd: Seq<Seq<Seq<RoundDraws>>> = Seq::empty();
    let mut i: usize = 0;
    while i < ROSTER_SIZE
        invariant
            noise.wf(),
            i <= ROSTER_SIZE,
            totals.len() == i,
            dd.len() == i,
            forall|a: int| 0 <= a < i ==> (#[trigger] dd[a]).len() == ROSTER_SIZE,
            forall|a: int, b: int|
                0 <= a < i && 0 <= b < ROSTER_SIZE ==> (#[trigger] dd[a][b]).len() == rounds
                    && draws_fit(dd[a][b], noise),
            forall|a: int|
                0 <= a < i ==> #[trigger] totals[a] == row_total(a, *matrix, dd[a], ROSTER_SIZE as int),
        decreases ROSTER_SIZE - i,
    {
        let p1 = roster_at(i);
        let mut sum: i128 = 0;
        let ghost mut row: Seq<Seq<RoundDraws>> = Seq::empty();
        let mut j: usize = 0;
        while j < ROSTER_SIZE
            invariant
                noise.wf(),
                i < ROSTER_SIZE,
                p1 == roster()[i as int],
                j <= ROSTER_SIZE,
                row.len() == j,
                forall|b: int| 0 <= b < j ==> (#[trigger] row[b]).len() == rounds && draws_fit(row[b], noise),
                sum == row_total(i as int, *matrix, row, j as int),
                -(j * 9223372036854775808) <= sum <= j * 9223372036854775808,
            decreases ROSTER_SIZE - j,
        {
            let p2 = roster_at(j);
            let result = play_match(p1, p2, rounds, noise, matrix, rng);
            let ghost d = choose|d: Seq<RoundDraws>|
                d.len() == rounds && draws_fit(d, noise) && #[trigger] is_outcome(result, p1, p2, *matrix, d);
            proof {
                let old_row = row;
                row = row.push(d);
                assert forall|n: int| 0 <= n <= j implies row_total(i as int, *matrix, row, n)
                    == row_total(i as int, *matrix, old_row, n) by {
                    lemma_row_total_prefix(i as int, *matrix, old_row, row, n);
                }
            }
            sum = sum + result.player_score as i128;
            j += 1;
        }
        totals.push(sum);
        proof {
            dd = dd.push(row);
        }
        i += 1;
    }
    let order = rank_order(&totals);
    let ranking = name_ranking(&order, &totals);
    assert(pairings_fit(dd, rounds, noise));
    assert(is_ranking(ranking@, totals@));
    assert(forall|i: int|
        0 <= i < ROSTER_SIZE ==> #[trigger] totals@[i] == row_total(i, *matrix, dd[i], ROSTER_SIZE as int));
    let r = TournamentResult { ranking };
    assert(r.ranking@ == ranking@);
    r
}

proof fn lemma_row_total_prefix(
    i: int,
    m: PayoffMatrix,
    a: Seq<Seq<RoundDraws>>,
    b: Seq<Seq<RoundDraws>>,
    n: int,
)
    requires
        n <= a.len() <= b.len(),
        forall|k: int| 0 <= k < a.len() ==> a[k] == b[k],
    ensures
        row_total(i, m, a, n) == row_total(i, m, b, n),
    decreases n,
{
    if n > 0 {
        lemma_row_total_prefix(i, m, a, b, n - 1);
    }
}

/// Some entry of the ranking carries the strategy's name.
pub open spec fn names_strategy(ranking: Seq<(String, i128)>, s: crate::strategy::Strategy) -> bool {
    exists|k: int| 0 <= k < ranking.len() && (#[trigger] ranking[k]).0@ == display_name(s)
}

/// A tournament's ranking lists each strategy of the roster exactly once,
/// with totals that never increase down the list.
pub proof fn lemma_ranking_is_sorted_permutation(ranking: Seq<(String, i128)>, totals: Seq<i128>)
    requires
        totals.len() == ROSTER_SIZE,
        is_ranking(ranking, totals),
    ensures
        ranking.len() == ROSTER_SIZE,
        forall|i: int| 0 <= i < ROSTER_SIZE ==> #[trigger] names_strategy(ranking, roster()[i]),
        forall|a: int, b: int|
            0 <= a < b < ROSTER_SIZE ==> (#[trigger] ranking[a]).1 >= (#[trigger] ranking[b]).1,
{
    let order = choose|order: Seq<usize>|
        #[trigger] is_rank_order(order, totals) && ranking.len() == order.len() && forall|k: int|
            0 <= k < ranking.len() ==> (#[trigger] ranking[k]).0@ == display_name(roster()[order[k] as int])
                && ranking[k].1 == totals[order[k] as int];
    assert forall|i: int| 0 <= i < ROSTER_SIZE implies #[trigger] names_strategy(
        ranking,
        roster()[i],
    ) by {
        assert(lists(order, i));
        let k = choose|k: int| 0 <= k < order.len() && order[k] == i;
        assert(ranking[k].0@ == display_name(roster()[i]));
    }
    assert forall|a: int, b: int| 0 <= a < b < ROSTER_SIZE implies (#[trigger] ranking[a]).1
        >= (#[trigger] ranking[b]).1 by {
        assert(ranks_before(totals, order[a] as int, order[b] as int));
    }
}

} // verus!
