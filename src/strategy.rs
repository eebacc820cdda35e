//! The closed roster of strategies, their decision rules and the factory.
use crate::chance::{happens, Probability};
use crate::game::{calculate_payoff, flip, payoff, Action, PayoffMatrix, Round};
use vstd::prelude::*;

verus! {

/// Number of strategies in the roster.
pub const ROSTER_SIZE: usize = 8;

/// A decision policy of the roster.
#[derive(Clone, Copy, Debug, PartialEq, Eq, Structural)]
pub enum Strategy {
    TitForTat,
    AlwaysDefect,
    GrimTrigger,
    AlwaysCooperate,
    Random,
    Pavlov,
    GenerousTFT,
    Joss,
}

/// The roster, in its fixed order.
pub open spec fn roster() -> Seq<Strategy> {
    seq![
        Strategy::TitForTat,
        Strategy::AlwaysDefect,
        Strategy::GrimTrigger,
        Strategy::AlwaysCooperate,
        Strategy::Random,
        Strategy::Pavlov,
        Strategy::GenerousTFT,
        Strategy::Joss,
    ]
}

/// The strategy that an identifier names; unknown identifiers give `AlwaysDefect`.
pub open spec fn strategy_for(id: Seq<char>) -> Strategy {
    if id == "tit_for_tat"@ {
        Strategy::TitForTat
    } else if id == "always_defect"@ {
        Strategy::AlwaysDefect
    } else if id == "grim_trigger"@ {
        Strategy::GrimTrigger
    } else if id == "always_cooperate"@ {
        Strategy::AlwaysCooperate
    } else if id == "random"@ {
        Strategy::Random
    } else if id == "pavlov"@ {
        Strategy::Pavlov
    } else if id == "generous_tft"@ {
        Strategy::GenerousTFT
    } else if id == "joss"@ {
        Strategy::Joss
    } else {
        Strategy::AlwaysDefect
    }
}

/// A round seen by the second player: its own action first.
pub open spec fn swap(r: Round) -> Round {
    (r.1, r.0)
}

/// A history seen from the other side.
pub open spec fn mirror(h: Seq<Round>) -> Seq<Round> {
    Seq::new(h.len(), |i: int| swap(h[i]))
}

/// A canonical (first-player-first) history as one player sees it.
pub open spec fn perspective(h: Seq<Round>, second: bool) -> Seq<Round> {
    if second {
        mirror(h)
    } else {
        h
    }
}

/// The opponent defected in some round of the history.
pub open spec fn opponent_defected(h: Seq<Round>) -> bool {
    exists|i: int| 0 <= i < h.len() && #[trigger] h[i].1 == Action::Defect
}

/// The decision rule of each strategy, on its own-perspective history. The
/// coin is the strategy's random draw: it is read only by the stochastic
/// rules, and `true` stands for the event that the rule draws for.
pub open spec fn decide(s: Strategy, h: Seq<Round>, m: PayoffMatrix, coin: bool) -> Action {
    match s {
        Strategy::TitForTat => if h.len() == 0 {
            Action::Cooperate
        } else {
            h.last().1
        },
        Strategy::AlwaysDefect => Action::Defect,
        Strategy::GrimTrigger => if opponent_defected(h) {
            Action::Defect
        } else {
            Action::Cooperate
        },
        Strategy::AlwaysCooperate => Action::Cooperate,
        Strategy::Random => if coin {
            Action::Cooperate
        } else {
            Action::Defect
        },
        Strategy::Pavlov => if h.len() == 0 {
            Action::Cooperate
        } else if payoff(h.last().0, h.last().1, m).0 >= m.reward {
            h.last().0
        } else {
            flip(h.last().0)
        },
        Strategy::GenerousTFT => if h.len() == 0 || h.last().1 == Action::Cooperate {
            Action::Cooperate
        } else if coin {
            Action::Cooperate
        } else {
            Action::Defect
        },
        Strategy::Joss => if h.len() == 0 {
            Action::Cooperate
        } else if h.last().1 == Action::Defect {
            Action::Defect
        } else if coin {
            Action::Defect
        } else {
            Action::Cooperate
        },
    }
}

/// The chance of the event that a stochastic strategy draws for: Random
/// cooperates with chance 1/2, GenerousTFT forgives and Joss defects
/// with chance 1/10.
pub open spec fn coin_odds(s: Strategy) -> Option<Probability> {
    match s {
        Strategy::Random => Some(Probability { numerator: 1, denominator: 2 }),
        Strategy::GenerousTFT => Some(Probability { numerator: 1, denominator: 10 }),
        Strategy::Joss => Some(Probability { numerator: 1, denominator: 10 }),
        _ => None,
    }
}

/// The text of a strategy's display name.
pub open spec fn display_name(s: Strategy) -> Seq<char> {
    match s {
        Strategy::TitForTat => "Tit-For-Tat"@,
        Strategy::AlwaysDefect => "Always Defect"@,
        Strategy::GrimTrigger => "Grim Trigger"@,
        Strategy::AlwaysCooperate => "Always Cooperate"@,
        Strategy::Random => "Random"@,
        Strategy::Pavlov => "Pavlov"@,
        Strategy::GenerousTFT => "Generous TFT"@,
        Strategy::Joss => "Joss"@,
    }
}

fn same_text(a: &str, b: &str) -> (r: bool)
    ensures
        r == (a@ == b@),
{
    a.to_owned() == b.to_owned()
}

/// Maps an identifier to its strategy; an unknown identifier gives `AlwaysDefect`.
pub fn create_strategy(id: &str) -> (r: Strategy)
    ensures
        r == strategy_for(id@),
{
    if same_text(id, "tit_for_tat") {
        Strategy::TitForTat
    } else if same_text(id, "always_defect") {
        Strategy::AlwaysDefect
    } else if same_text(id, "grim_trigger") {
        Strategy::GrimTrigger
    } else if same_text(id, "always_cooperate") {
        Strategy::AlwaysCooperate
    } else if same_text(id, "random") {
        Strategy::Random
    } else if same_text(id, "pavlov") {
        Strategy::Pavlov
    } else if same_text(id, "generous_tft") {
        Strategy::GenerousTFT
    } else if same_text(id, "joss") {
        Strategy::Joss
    } else {
        Strategy::AlwaysDefect
    }
}

/// The strategy at a slot of the roster.
pub fn roster_at(i: usize) -> (r: Strategy)
    requires
        i < ROSTER_SIZE,
    ensures
        r == roster()[i as int],
{
    match i {
        0 => Strategy::TitForTat,
        1 => Strategy::AlwaysDefect,
        2 => Strategy::GrimTrigger,
        3 => Strategy::AlwaysCooperate,
        4 => Strategy::Random,
        5 => Strategy::Pavlov,
        6 => Strategy::GenerousTFT,
        _ => Strategy::Joss,
    }
}

/// One round of a canonical history as a player sees it.
fn own_view(r: Round, second: bool) -> (v: Round)
    ensures
        v == (if second {
            swap(r)
        } else {
            r
        }),
{
    if second {
        (r.1, r.0)
    } else {
        r
    }
}

impl Strategy {
    /// The display name.
    pub fn name(&self) -> (r: String)
        ensures
            r@ == display_name(*self),
    {
        match self {
            Strategy::TitForTat => "Tit-For-Tat".to_owned(),
            Strategy::AlwaysDefect => "Always Defect".to_owned(),
            Strategy::GrimTrigger => "Grim Trigger".to_owned(),
            Strategy::AlwaysCooperate => "Always Cooperate".to_owned(),
            Strategy::Random => "Random".to_owned(),
            Strategy::Pavlov => "Pavlov".to_owned(),
            Strategy::GenerousTFT => "Generous TFT".to_owned(),
            Strategy::Joss => "Joss".to_owned(),
        }
    }

    /// The next action, given the canonical history of the match, which side
    /// of it this strategy plays, and the strategy's random draw.
    pub fn next_move(&self, history: &Vec<Round>, second: bool, matrix: &PayoffMatrix, coin: bool) -> (r:
        Action)
        ensures
            r == decide(*self, perspective(history@, second), *matrix, coin),
    {
        let ghost h = perspective(history@, second);
        let n = history.len();
        match self {
            Strategy::TitForTat => {
                if n == 0 {
                    Action::Cooperate
                } else {
                    own_view(history[n - 1], second).1
                }
            },
            Strategy::AlwaysDefect => Action::Defect,
            Strategy::GrimTrigger => {
                assert(h.len() == n);
                let mut i: usize = 0;
                while i < n
                    invariant
                        n == history.len(),
                        h == perspective(history@, second),
                        h.len() == n,
                        *self == Strategy::GrimTrigger,
                        i <= n,
                        forall|k: int| 0 <= k < i ==> h[k].1 != Action::Defect,
                    decreases n - i,
                {
                    if own_view(history[i], second).1 == Action::Defect {
                        assert(h[i as int].1 == Action::Defect);
                        assert(opponent_defected(h));
                        return Action::Defect;
                    }
                    i += 1;
                }
                Action::Cooperate
            },
            Strategy::AlwaysCooperate => Action::Cooperate,
            Strategy::Random => {
                if coin {
                    Action::Cooperate
                } else {
                    Action::Defect
                }
            },
            Strategy::Pavlov => {
                if n == 0 {
                    Action::Cooperate
                } else {
                    let last = own_view(history[n - 1], second);
                    let (mine, _) = calculate_payoff(last.0, last.1, matrix);
                    if mine >= matrix.reward {
                        last.0
                    } else {
                        last.0.toggle()
                    }
                }
            },
            Strategy::GenerousTFT => {
                if n == 0 || own_view(history[n - 1], second).1 == Action::Cooperate {
                    Action::Cooperate
                } else if coin {
                    Action::Cooperate
                } else {
                    Action::Defect
                }
            },
            Strategy::Joss => {
                if n == 0 {
                    Action::Cooperate
                } else if own_view(history[n - 1], second).1 == Action::Defect {
                    Action::Defect
                } else if coin {
                    Action::Defect
                } else {
                    Action::Cooperate
                }
            },
        }
    }

    /// The chance of this strategy's random event, if it has one.
    pub fn odds(&self) -> (r: Option<Probability>)
        ensures
            r == coin_odds(*self),
    {
        match self {
            Strategy::Random => Some(Probability { numerator: 1, denominator: 2 }),
            Strategy::GenerousTFT => Some(Probability { numerator: 1, denominator: 10 }),
            Strategy::Joss => Some(Probability { numerator: 1, denominator: 10 }),
            _ => None,
        }
    }

    /// Draws this strategy's random event for one round; a deterministic
    /// strategy draws nothing and gets `false`.
    pub fn draw_coin(&self, rng: &mut rand::rngs::StdRng) -> (r: bool)
        ensures
            coin_odds(*self) is None ==> !r,
    {
        match self.odds() {
            Some(p) => happens(p, rng),
            None => false,
        }
    }
}

} // verus!
