//! The match engine: a fixed number of rounds between two strategies, with
//! independent action noise for each player.
use crate::chance::{happens, Probability};
use crate::game::{calculate_payoff, flip, payoff, Action, PayoffMatrix, Round};
use crate::strategy::{create_strategy, decide, display_name, mirror, strategy_for, Strategy};
use vstd::prelude::*;

verus! {

/// The random outcomes of one round: each player's own draw (read only by
/// stochastic strategies) and whether noise flips each player's action.
#[derive(Clone, Copy, Debug, PartialEq, Eq, Structural)]
pub struct RoundDraws {
    pub coin1: bool,
    pub coin2: bool,
    pub flip1: bool,
    pub flip2: bool,
}

/// The outcome of one match. `rounds` is the canonical history, the first
/// player's action first in each round.
#[derive(Debug)]
pub struct MatchResult {
    pub player_name: String,
    pub opponent_name: String,
    pub rounds: Vec<Round>,
    pub player_score: i64,
    pub opponent_score: i64,
}

/// An action after noise.
pub open spec fn apply_flip(a: Action, flipped: bool) -> Action {
    if flipped {
        flip(a)
    } else {
        a
    }
}

/// The round played after history `h`: each player decides on its own view of
/// `h`, then noise may flip each decision.
pub open spec fn next_round(
    p1: Strategy,
    p2: Strategy,
    m: PayoffMatrix,
    h: Seq<Round>,
    d: RoundDraws,
) -> Round {
    (
        apply_flip(decide(p1, h, m, d.coin1), d.flip1),
        apply_flip(decide(p2, mirror(h), m, d.coin2), d.flip2),
    )
}

/// The canonical history of a match with the given random outcomes.
pub open spec fn play(p1: Strategy, p2: Strategy, m: PayoffMatrix, d: Seq<RoundDraws>) -> Seq<
    Round,
>
    decreases d.len(),
{
    if d.len() == 0 {
        Seq::empty()
    } else {
        let h = play(p1, p2, m, d.drop_last());
        h.push(next_round(p1, p2, m, h, d.last()))
    }
}

/// The first player's total over a history.
pub open spec fn score_first(h: Seq<Round>, m: PayoffMatrix) -> int
    decreases h.len(),
{
    if h.len() == 0 {
        0
    } else {
        score_first(h.drop_last(), m) + payoff(h.last().0, h.last().1, m).0
    }
}

/// The second player's total over a history.
pub open spec fn score_second(h: Seq<Round>, m: PayoffMatrix) -> int
    decreases h.len(),
{
    if h.len() == 0 {
        0
    } else {
        score_second(h.drop_last(), m) + payoff(h.last().0, h.last().1, m).1
    }
}

/// Random outcomes that noise of probability `noise` can produce: none flipped
/// at probability zero, all flipped at probability one.
pub open spec fn draws_fit(d: Seq<RoundDraws>, noise: Probability) -> bool {
    forall|i: int|
        0 <= i < d.len() ==> (noise.is_never() ==> !(#[trigger] d[i]).flip1 && !d[i].flip2) && (
        noise.is_certain() ==> d[i].flip1 && d[i].flip2)
}

/// `r` is the match of `p1` against `p2` under the random outcomes `d`.
pub open spec fn is_outcome(
    r: MatchResult,
    p1: Strategy,
    p2: Strategy,
    m: PayoffMatrix,
    d: Seq<RoundDraws>,
) -> bool {
    &&& r.player_name@ == display_name(p1)
    &&& r.opponent_name@ == display_name(p2)
    &&& r.rounds@ == play(p1, p2, m, d)
    &&& r.player_score == score_first(play(p1, p2, m, d), m)
    &&& r.opponent_score == score_second(play(p1, p2, m, d), m)
}

/// A match lasts one round per draw.
pub proof fn lemma_play_len(p1: Strategy, p2: Strategy, m: PayoffMatrix, d: Seq<RoundDraws>)
    ensures
        play(p1, p2, m, d).len() == d.len(),
    decreases d.len(),
{
    if d.len() > 0 {
        lemma_play_len(p1, p2, m, d.drop_last());
    }
}

/// Round `j` of a match is played on the history of the rounds before it,
/// which is the match cut short at `j`.
pub proof fn lemma_play_step(
    p1: Strategy,
    p2: Strategy,
    m: PayoffMatrix,
    d: Seq<RoundDraws>,
    j: int,
)
    requires
        0 <= j < d.len(),
    ensures
        play(p1, p2, m, d.take(j)) == play(p1, p2, m, d).take(j),
        play(p1, p2, m, d)[j] == next_round(p1, p2, m, play(p1, p2, m, d).take(j), d[j]),
    decreases d.len(),
{
    lemma_play_len(p1, p2, m, d);
    lemma_play_len(p1, p2, m, d.drop_last());
    let h = play(p1, p2, m, d.drop_last());
    assert(play(p1, p2, m, d) == h.push(next_round(p1, p2, m, h, d.last())));
    if j == d.len() - 1 {
        assert(d.take(j) =~= d.drop_last());
        assert(h.push(next_round(p1, p2, m, h, d.last())).take(j) =~= h);
    } else {
        lemma_play_step(p1, p2, m, d.drop_last(), j);
        assert(d.drop_last().take(j) =~= d.take(j));
        assert(h.take(j) =~= h.push(next_round(p1, p2, m, h, d.last())).take(j));
    }
}

/// Plays a match under the given random outcomes, one round per draw.
pub fn play_with_draws(p1: Strategy, p2: Strategy, matrix: &PayoffMatrix, draws: &Vec<RoundDraws>) -> (r:
    MatchResult)
    requires
        draws.len() <= u32::MAX,
    ensures
        is_outcome(r, p1, p2, *matrix, draws@),
{
    let mut history: Vec<Round> = Vec::new();
    let mut s1: i64 = 0;
    let mut s2: i64 = 0;
    let mut i: usize = 0;
    while i < draws.len()
        invariant
            i <= draws.len(),
            draws.len() <= u32::MAX,
            history@ == play(p1, p2, *matrix, draws@.take(i as int)),
            s1 == score_first(history@, *matrix),
            s2 == score_second(history@, *matrix),
            -(i * 2147483648) <= s1 <= i * 2147483648,
            -(i * 2147483648) <= s2 <= i * 2147483648,
        decreases draws.len() - i,
    {
        let d = draws[i];
        let a1 = p1.next_move(&history, false, matrix, d.coin1);
        let a2 = p2.next_move(&history, true, matrix, d.coin2);
        let a1 = if d.flip1 {
            a1.toggle()
        } else {
            a1
        };
        let a2 = if d.flip2 {
            a2.toggle()
        } else {
            a2
        };
        let (x, y) = calculate_payoff(a1, a2, matrix);
        let ghost old_history = history@;
        history.push((a1, a2));
        proof {
            let t = draws@.take(i + 1);
            assert(t.drop_last() =~= draws@.take(i as int));
            assert(t.last() == d);
            assert(history@.drop_last() =~= old_history);
        }
        s1 = s1 + x as i64;
        s2 = s2 + y as i64;
        i += 1;
    }
    assert(draws@.take(draws.len() as int) =~= draws@);
    MatchResult {
        player_name: p1.name(),
        opponent_name: p2.name(),
        rounds: history,
        player_score: s1,
        opponent_score: s2,
    }
}

/// Draws the random outcomes of one round.
pub fn draw_round(p1: Strategy, p2: Strategy, noise: Probability, rng: &mut rand::rngs::StdRng) -> (r:
    RoundDraws)
    requires
        noise.wf(),
    ensures
        noise.is_never() ==> !r.flip1 && !r.flip2,
        noise.is_certain() ==> r.flip1 && r.flip2,
{
    let coin1 = p1.draw_coin(rng);
    let coin2 = p2.draw_coin(rng);
    let flip1 = happens(noise, rng);
    let flip2 = happens(noise, rng);
    RoundDraws { coin1, coin2, flip1, flip2 }
}

/// Draws the random outcomes of a whole match.
pub fn draw_match(
    p1: Strategy,
    p2: Strategy,
    rounds: u32,
    noise: Probability,
    rng: &mut rand::rngs::StdRng,
) -> (r: Vec<RoundDraws>)
    requires
        noise.wf(),
    ensures
        r.len() == rounds,
        draws_fit(r@, noise),
{
    let mut draws: Vec<RoundDraws> = Vec::new();
    let mut i: u32 = 0;
    while i < rounds
        invariant
            noise.wf(),
            i <= rounds,
            draws.len() == i,
            draws_fit(draws@, noise),
        decreases rounds - i,
    {
        let d = draw_round(p1, p2, noise, rng);
        draws.push(d);
        i += 1;
    }
    draws
}

/// Plays a match of `rounds` rounds between two strategies, with noise.
pub fn play_match(
    p1: Strategy,
    p2: Strategy,
    rounds: u32,
    noise: Probability,
    matrix: &PayoffMatrix,
    rng: &mut rand::rngs::StdRng,
) -> (r: MatchResult)
    requires
        noise.wf(),
    ensures
        exists|d: Seq<RoundDraws>|
            d.len() == rounds && draws_fit(d, noise) && #[trigger] is_outcome(r, p1, p2, *matrix, d),
{
    let draws = draw_match(p1, p2, rounds, noise, rng);
    let r = play_with_draws(p1, p2, matrix, &draws);
    assert(is_outcome(r, p1, p2, *matrix, draws@));
    r
}

/// Plays a match between the strategies that two identifiers name.
pub fn run_game(
    p1_id: &str,
    p2_id: &str,
    rounds: u32,
    noise: Probability,
    matrix: &PayoffMatrix,
    rng: &mut rand::rngs::StdRng,
) -> (r: MatchResult)
    requires
        noise.wf(),
    ensures
        exists|d: Seq<RoundDraws>|
            d.len() == rounds && draws_fit(d, noise) && #[trigger] is_outcome(
                r,
                strategy_for(p1_id@),
                strategy_for(p2_id@),
                *matrix,
                d,
            ),
{
    let p1 = create_strategy(p1_id);
    let p2 = create_strategy(p2_id);
    play_match(p1, p2, rounds, noise, matrix, rng)
}

} // verus!
