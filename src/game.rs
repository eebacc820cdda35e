//! Actions, rounds and the payoff matrix.
use vstd::prelude::*;

verus! {

/// A player's choice in one round.
#[derive(Clone, Copy, Debug, PartialEq, Eq, Structural)]
pub enum Action {
    Cooperate,
    Defect,
}

/// The other action.
pub open spec fn flip(a: Action) -> Action {
    match a {
        Action::Cooperate => Action::Defect,
        Action::Defect => Action::Cooperate,
    }
}

impl Action {
    /// Swaps Cooperate and Defect.
    pub fn toggle(&self) -> (r: Action)
        ensures
            r == flip(*self),
    {
        match self {
            Action::Cooperate => Action::Defect,
            Action::Defect => Action::Cooperate,
        }
    }
}

/// One round: the first component is the first player's action (or, in a
/// player's own view, its own action), the second the other player's.
pub type Round = (Action, Action);

/// Temptation, reward, punishment and sucker payoffs.
#[derive(Clone, Copy, Debug, PartialEq, Eq, Structural)]
pub struct PayoffMatrix {
    pub temptation: i32,
    pub reward: i32,
    pub punishment: i32,
    pub sucker: i32,
}

/// What the two players score for one round.
pub open spec fn payoff(a1: Action, a2: Action, m: PayoffMatrix) -> (i32, i32) {
    match (a1, a2) {
        (Action::Defect, Action::Cooperate) => (m.temptation, m.sucker),
        (Action::Cooperate, Action::Cooperate) => (m.reward, m.reward),
        (Action::Defect, Action::Defect) => (m.punishment, m.punishment),
        (Action::Cooperate, Action::Defect) => (m.sucker, m.temptation),
    }
}

/// Scores of one round, for any matrix values.
pub fn calculate_payoff(a1: Action, a2: Action, matrix: &PayoffMatrix) -> (r: (i32, i32))
    ensures
        r == payoff(a1, a2, *matrix),
        a1 == Action::Defect && a2 == Action::Cooperate ==> r == (matrix.temptation, matrix.sucker),
        a1 == Action::Cooperate && a2 == Action::Cooperate ==> r == (matrix.reward, matrix.reward),
        a1 == Action::Defect && a2 == Action::Defect ==> r == (
            matrix.punishment,
            matrix.punishment,
        ),
        a1 == Action::Cooperate && a2 == Action::Defect ==> r == (matrix.sucker, matrix.temptation),
{
    match (a1, a2) {
        (Action::Defect, Action::Cooperate) => (matrix.temptation, matrix.sucker),
        (Action::Cooperate, Action::Cooperate) => (matrix.reward, matrix.reward),
        (Action::Defect, Action::Defect) => (matrix.punishment, matrix.punishment),
        (Action::Cooperate, Action::Defect) => (matrix.sucker, matrix.temptation),
    }
}

} // verus!
