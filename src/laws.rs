//! Properties of matches between particular strategies.
use crate::chance::Probability;
use crate::engine::{
    draws_fit, lemma_play_len, lemma_play_step, play, score_first, score_second, RoundDraws,
};
use crate::game::{Action, PayoffMatrix};
use crate::strategy::{decide, mirror, opponent_defected, Strategy};
use vstd::prelude::*;

verus! {

proof fn tit_for_tat_cooperates_at(m: PayoffMatrix, d: Seq<RoundDraws>, noise: Probability, j: int)
    requires
        noise.is_never(),
        draws_fit(d, noise),
        0 <= j < d.len(),
    ensures
        play(Strategy::TitForTat, Strategy::AlwaysCooperate, m, d)[j] == (
            Action::Cooperate,
            Action::Cooperate,
        ),
    decreases j,
{
    let g = play(Strategy::TitForTat, Strategy::AlwaysCooperate, m, d);
    lemma_play_len(Strategy::TitForTat, Strategy::AlwaysCooperate, m, d);
    lemma_play_step(Strategy::TitForTat, Strategy::AlwaysCooperate, m, d, j);
    assert(!d[j].flip1 && !d[j].flip2);
    if j > 0 {
        tit_for_tat_cooperates_at(m, d, noise, j - 1);
        assert(g.take(j).last() == g[j - 1]);
    }
}

/// Without noise, tit-for-tat against always-cooperate: both cooperate in
/// every round, whatever the length of the match.
pub proof fn lemma_tit_for_tat_meets_cooperation(
    m: PayoffMatrix,
    noise: Probability,
    d: Seq<RoundDraws>,
)
    requires
        noise.wf(),
        noise.is_never(),
        draws_fit(d, noise),
    ensures
        play(Strategy::TitForTat, Strategy::AlwaysCooperate, m, d).len() == d.len(),
        forall|j: int|
            0 <= j < d.len() ==> #[trigger] play(
                Strategy::TitForTat,
                Strategy::AlwaysCooperate,
                m,
                d,
            )[j] == (Action::Cooperate, Action::Cooperate),
{
    lemma_play_len(Strategy::TitForTat, Strategy::AlwaysCooperate, m, d);
    assert forall|j: int| 0 <= j < d.len() implies #[trigger] play(
        Strategy::TitForTat,
        Strategy::AlwaysCooperate,
        m,
        d,
    )[j] == (Action::Cooperate, Action::Cooperate) by {
        tit_for_tat_cooperates_at(m, d, noise, j);
    }
}

/// Without noise, tit-for-tat against always-defect cooperates in the first
/// round only and defects in every later one; always-defect defects throughout.
pub proof fn lemma_tit_for_tat_meets_defection(
    m: PayoffMatrix,
    noise: Probability,
    d: Seq<RoundDraws>,
)
    requires
        noise.wf(),
        noise.is_never(),
        draws_fit(d, noise),
    ensures
        play(Strategy::TitForTat, Strategy::AlwaysDefect, m, d).len() == d.len(),
        d.len() > 0 ==> play(Strategy::TitForTat, Strategy::AlwaysDefect, m, d)[0] == (
            Action::Cooperate,
            Action::Defect,
        ),
        forall|j: int|
            1 <= j < d.len() ==> #[trigger] play(Strategy::TitForTat, Strategy::AlwaysDefect, m, d)[j]
                == (Action::Defect, Action::Defect),
{
    let g = play(Strategy::TitForTat, Strategy::AlwaysDefect, m, d);
    lemma_play_len(Strategy::TitForTat, Strategy::AlwaysDefect, m, d);
    if d.len() > 0 {
        lemma_play_step(Strategy::TitForTat, Strategy::AlwaysDefect, m, d, 0);
        assert(!d[0].flip1 && !d[0].flip2);
    }
    assert forall|j: int| 1 <= j < d.len() implies #[trigger] g[j] == (
        Action::Defect,
        Action::Defect,
    ) by {
        lemma_play_step(Strategy::TitForTat, Strategy::AlwaysDefect, m, d, j);
        lemma_play_step(Strategy::TitForTat, Strategy::AlwaysDefect, m, d, j - 1);
        assert(!d[j].flip1 && !d[j].flip2);
        assert(!d[j - 1].flip1 && !d[j - 1].flip2);
        assert(g.take(j).last() == g[j - 1]);
    }
}

/// Once its opponent has defected in some round, grim trigger (as the first
/// player, against any opponent) decides to defect in every later round,
/// whatever the opponent does meanwhile; without noise it plays Defect there.
pub proof fn lemma_grim_trigger_never_forgives(
    opponent: Strategy,
    m: PayoffMatrix,
    noise: Probability,
    d: Seq<RoundDraws>,
)
    requires
        noise.wf(),
        draws_fit(d, noise),
    ensures
        play(Strategy::GrimTrigger, opponent, m, d).len() == d.len(),
        forall|i: int, j: int|
            0 <= i < j < d.len() && (#[trigger] play(Strategy::GrimTrigger, opponent, m, d)[i]).1
                == Action::Defect ==> decide(
                Strategy::GrimTrigger,
                play(Strategy::GrimTrigger, opponent, m, d).take(j),
                m,
                d[j].coin1,
            ) == Action::Defect && (noise.is_never() ==> (#[trigger] play(
                Strategy::GrimTrigger,
                opponent,
                m,
                d,
            )[j]).0 == Action::Defect),
{
    let g = play(Strategy::GrimTrigger, opponent, m, d);
    lemma_play_len(Strategy::GrimTrigger, opponent, m, d);
    assert forall|i: int, j: int|
        0 <= i < j < d.len() && (#[trigger] g[i]).1 == Action::Defect implies decide(
        Strategy::GrimTrigger,
        g.take(j),
        m,
        d[j].coin1,
    ) == Action::Defect && (noise.is_never() ==> (#[trigger] g[j]).0 == Action::Defect) by {
        lemma_play_step(Strategy::GrimTrigger, opponent, m, d, j);
        assert(g.take(j)[i] == g[i]);
        assert(opponent_defected(g.take(j)));
        if noise.is_never() {
            assert(!d[j].flip1);
        }
    }
}

/// The same from the second seat: once the first player has defected, grim
/// trigger decides to defect in every later round, and without noise plays
/// Defect there.
pub proof fn lemma_grim_trigger_never_forgives_second(
    opponent: Strategy,
    m: PayoffMatrix,
    noise: Probability,
    d: Seq<RoundDraws>,
)
    requires
        noise.wf(),
        draws_fit(d, noise),
    ensures
        play(opponent, Strategy::GrimTrigger, m, d).len() == d.len(),
        forall|i: int, j: int|
            0 <= i < j < d.len() && (#[trigger] play(opponent, Strategy::GrimTrigger, m, d)[i]).0
                == Action::Defect ==> decide(
                Strategy::GrimTrigger,
                mirror(play(opponent, Strategy::GrimTrigger, m, d).take(j)),
                m,
                d[j].coin2,
            ) == Action::Defect && (noise.is_never() ==> (#[trigger] play(
                opponent,
                Strategy::GrimTrigger,
                m,
                d,
            )[j]).1 == Action::Defect),
{
    let g = play(opponent, Strategy::GrimTrigger, m, d);
    lemma_play_len(opponent, Strategy::GrimTrigger, m, d);
    assert forall|i: int, j: int|
        0 <= i < j < d.len() && (#[trigger] g[i]).0 == Action::Defect implies decide(
        Strategy::GrimTrigger,
        mirror(g.take(j)),
        m,
        d[j].coin2,
    ) == Action::Defect && (noise.is_never() ==> (#[trigger] g[j]).1 == Action::Defect) by {
        lemma_play_step(opponent, Strategy::GrimTrigger, m, d, j);
        let h = mirror(g.take(j));
        assert(h.len() == j);
        assert(h[i] == (g[i].1, g[i].0));
        assert(h[i].1 == Action::Defect);
        assert(opponent_defected(h));
        if noise.is_never() {
            assert(!d[j].flip2);
        }
    }
}

/// Without noise, two always-cooperate players each score the reward in
/// every round: `reward * rounds` apiece.
pub proof fn lemma_cooperators_share_reward(m: PayoffMatrix, noise: Probability, d: Seq<RoundDraws>)
    requires
        noise.wf(),
        noise.is_never(),
        draws_fit(d, noise),
    ensures
        score_first(play(Strategy::AlwaysCooperate, Strategy::AlwaysCooperate, m, d), m) == m.reward
            * d.len(),
        score_second(play(Strategy::AlwaysCooperate, Strategy::AlwaysCooperate, m, d), m)
            == m.reward * d.len(),
    decreases d.len(),
{
    let c = Strategy::AlwaysCooperate;
    if d.len() > 0 {
        let e = d.drop_last();
        assert(draws_fit(e, noise)) by {
            assert forall|i: int| 0 <= i < e.len() implies e[i] == d[i] by {}
        }
        lemma_cooperators_share_reward(m, noise, e);
        let h = play(c, c, m, e);
        assert(!d.last().flip1 && !d.last().flip2) by {
            assert(d.last() == d[d.len() - 1]);
        }
        let g = play(c, c, m, d);
        assert(g.drop_last() =~= h);
        assert(g.last() == (Action::Cooperate, Action::Cooperate));
        assert(m.reward * e.len() + m.reward == m.reward * d.len()) by (nonlinear_arith)
            requires
                e.len() + 1 == d.len(),
        ;
    }
}

} // verus!
