use dilemma::chance::{happens, Probability};
use dilemma::game::{calculate_payoff, Action, PayoffMatrix};
use dilemma::strategy::{create_strategy, roster_at, Strategy, ROSTER_SIZE};
use rand::rngs::StdRng;
use rand::SeedableRng;

const C: Action = Action::Cooperate;
const D: Action = Action::Defect;

fn classic() -> PayoffMatrix {
    PayoffMatrix { temptation: 5, reward: 3, punishment: 1, sucker: 0 }
}

#[test]
fn payoff_table_classic() {
    let m = classic();
    assert_eq!(calculate_payoff(D, C, &m), (5, 0));
    assert_eq!(calculate_payoff(C, C, &m), (3, 3));
    assert_eq!(calculate_payoff(D, D, &m), (1, 1));
    assert_eq!(calculate_payoff(C, D, &m), (0, 5));
}

#[test]
fn payoff_table_arbitrary_values() {
    let m = PayoffMatrix { temptation: -7, reward: 100, punishment: i32::MIN, sucker: i32::MAX };
    assert_eq!(calculate_payoff(D, C, &m), (-7, i32::MAX));
    assert_eq!(calculate_payoff(C, C, &m), (100, 100));
    assert_eq!(calculate_payoff(D, D, &m), (i32::MIN, i32::MIN));
    assert_eq!(calculate_payoff(C, D, &m), (i32::MAX, -7));
}

#[test]
fn toggle_swaps_actions() {
    assert_eq!(C.toggle(), D);
    assert_eq!(D.toggle(), C);
}

#[test]
fn factory_maps_every_identifier() {
    assert_eq!(create_strategy("tit_for_tat"), Strategy::TitForTat);
    assert_eq!(create_strategy("always_defect"), Strategy::AlwaysDefect);
    assert_eq!(create_strategy("grim_trigger"), Strategy::GrimTrigger);
    assert_eq!(create_strategy("always_cooperate"), Strategy::AlwaysCooperate);
    assert_eq!(create_strategy("random"), Strategy::Random);
    assert_eq!(create_strategy("pavlov"), Strategy::Pavlov);
    assert_eq!(create_strategy("generous_tft"), Strategy::GenerousTFT);
    assert_eq!(create_strategy("joss"), Strategy::Joss);
}

#[test]
fn factory_falls_back_to_always_defect() {
    assert_eq!(create_strategy("nobody"), Strategy::AlwaysDefect);
    assert_eq!(create_strategy(""), Strategy::AlwaysDefect);
    assert_eq!(create_strategy("Tit_For_Tat"), Strategy::AlwaysDefect);
}

#[test]
fn roster_order_and_names() {
    let names: Vec<String> = (0..ROSTER_SIZE).map(|i| roster_at(i).name()).collect();
    assert_eq!(
        names,
        vec![
            "Tit-For-Tat",
            "Always Defect",
            "Grim Trigger",
            "Always Cooperate",
            "Random",
            "Pavlov",
            "Generous TFT",
            "Joss"
        ]
    );
}

#[test]
fn tit_for_tat_copies_last_opponent_move() {
    let m = classic();
    let s = Strategy::TitForTat;
    assert_eq!(s.next_move(&vec![], false, &m, false), C);
    assert_eq!(s.next_move(&vec![(C, D)], false, &m, false), D);
    assert_eq!(s.next_move(&vec![(C, D), (D, C)], false, &m, false), C);
    // As second player the opponent is the first component.
    assert_eq!(s.next_move(&vec![(D, C)], true, &m, false), D);
}

#[test]
fn grim_trigger_remembers_any_defection() {
    let m = classic();
    let s = Strategy::GrimTrigger;
    assert_eq!(s.next_move(&vec![], false, &m, false), C);
    assert_eq!(s.next_move(&vec![(C, C), (C, C)], false, &m, false), C);
    assert_eq!(s.next_move(&vec![(C, D), (D, C), (D, C)], false, &m, false), D);
    assert_eq!(s.next_move(&vec![(D, C)], true, &m, false), D);
    assert_eq!(s.next_move(&vec![(C, D)], true, &m, false), C);
}

#[test]
fn pavlov_win_stay_lose_shift() {
    let m = classic();
    let s = Strategy::Pavlov;
    assert_eq!(s.next_move(&vec![], false, &m, false), C);
    // Reward 3 >= 3: stay.
    assert_eq!(s.next_move(&vec![(C, C)], false, &m, false), C);
    // Temptation 5: stay with Defect.
    assert_eq!(s.next_move(&vec![(D, C)], false, &m, false), D);
    // Sucker 0: shift.
    assert_eq!(s.next_move(&vec![(C, D)], false, &m, false), D);
    // Punishment 1: shift.
    assert_eq!(s.next_move(&vec![(D, D)], false, &m, false), C);
    // The threshold is the matrix's reward.
    let high = PayoffMatrix { temptation: 9, reward: 8, punishment: 1, sucker: 0 };
    assert_eq!(s.next_move(&vec![(C, C)], false, &high, false), C);
    assert_eq!(s.next_move(&vec![(D, C)], false, &high, false), D);
    let odd = PayoffMatrix { temptation: 2, reward: 3, punishment: 1, sucker: 0 };
    assert_eq!(s.next_move(&vec![(D, C)], false, &odd, false), C);
}

#[test]
fn stochastic_rules_read_their_draw() {
    let m = classic();
    assert_eq!(Strategy::Random.next_move(&vec![], false, &m, true), C);
    assert_eq!(Strategy::Random.next_move(&vec![], false, &m, false), D);
    let g = Strategy::GenerousTFT;
    assert_eq!(g.next_move(&vec![], false, &m, false), C);
    assert_eq!(g.next_move(&vec![(D, C)], false, &m, false), C);
    assert_eq!(g.next_move(&vec![(C, D)], false, &m, true), C);
    assert_eq!(g.next_move(&vec![(C, D)], false, &m, false), D);
    let j = Strategy::Joss;
    assert_eq!(j.next_move(&vec![], false, &m, true), C);
    assert_eq!(j.next_move(&vec![(C, D)], false, &m, false), D);
    assert_eq!(j.next_move(&vec![(C, D)], false, &m, true), D);
    assert_eq!(j.next_move(&vec![(C, C)], false, &m, true), D);
    assert_eq!(j.next_move(&vec![(C, C)], false, &m, false), C);
}

#[test]
fn deterministic_rules_ignore_their_draw() {
    let m = classic();
    assert_eq!(Strategy::AlwaysDefect.next_move(&vec![], false, &m, true), D);
    assert_eq!(Strategy::AlwaysCooperate.next_move(&vec![(C, D)], false, &m, true), C);
    let mut rng = StdRng::seed_from_u64(3);
    for _ in 0..50 {
        assert!(!Strategy::TitForTat.draw_coin(&mut rng));
        assert!(!Strategy::Pavlov.draw_coin(&mut rng));
    }
}

#[test]
fn certain_and_impossible_events() {
    let mut rng = StdRng::seed_from_u64(11);
    for _ in 0..200 {
        assert!(!happens(Probability { numerator: 0, denominator: 7 }, &mut rng));
        assert!(happens(Probability { numerator: 7, denominator: 7 }, &mut rng));
    }
}

#[test]
fn even_odds_give_both_outcomes() {
    let mut rng = StdRng::seed_from_u64(5);
    let hits = (0..1000)
        .filter(|_| happens(Probability { numerator: 1, denominator: 2 }, &mut rng))
        .count();
    assert!(hits > 350 && hits < 650);
}
