//! Tests de proprietes : des bots jouent des donnes completes et l'on verifie
//! les invariants qui doivent tenir quoi qu'il arrive.

use belote::event::Event;
use belote::rules::{legal_moves, reduce, start_deal};
use belote::scoring::DEAL_TOTAL;
use belote::sim::{check_invariants, play_deal, play_hand, SimError};
use belote::state::{GameState, Phase, Seat};
use rand::SeedableRng;
use rand_chacha::ChaCha8Rng;

/// Nombre de donnes du test d'invariants.
const DEALS: usize = 1_500;

#[test]
fn thousands_of_deals_hold_every_invariant() {
    let mut rng = ChaCha8Rng::seed_from_u64(0xBE10DE);
    let mut carry = 0u16;

    for i in 0..DEALS {
        let dealer = Seat((i % 4) as u8);
        let outcome = play_deal(dealer, carry, &mut rng)
            .unwrap_or_else(|e| panic!("donne {i} n'a pas abouti : {}", e.message()));

        let problems = check_invariants(&outcome);
        assert!(problems.is_empty(), "donne {i} : {}", problems.join(" | "));

        carry = outcome.state.score.as_ref().expect("donne comptee").carry_out;
    }
}

#[test]
fn replaying_the_event_log_reproduces_the_state_exactly() {
    let mut rng = ChaCha8Rng::seed_from_u64(1234);

    for i in 0..200 {
        let dealer = Seat((i % 4) as u8);
        let outcome = play_deal(dealer, 0, &mut rng).expect("donne jouable");

        let mut replay = GameState::new(dealer, 0);
        for ev in &outcome.events {
            reduce(&mut replay, ev);
        }
        assert_eq!(
            replay, outcome.state,
            "donne {i} : le rejeu du journal diverge de l'etat courant"
        );
    }
}

#[test]
fn a_player_to_move_always_has_at_least_one_legal_card() {
    let mut rng = ChaCha8Rng::seed_from_u64(777);

    for i in 0..300 {
        let dealer = Seat((i % 4) as u8);
        let outcome = play_deal(dealer, 0, &mut rng).expect("donne jouable");

        let mut state = GameState::new(dealer, 0);
        for ev in &outcome.events {
            reduce(&mut state, ev);
            if state.phase == Phase::Playing && !state.hand(state.turn).is_empty() {
                assert!(
                    !legal_moves(&state, state.turn).is_empty(),
                    "donne {i} : le siege {:?} n'a aucun coup legal",
                    state.turn
                );
            }
        }
    }
}

#[test]
fn every_legal_move_is_a_card_actually_held() {
    let mut rng = ChaCha8Rng::seed_from_u64(31337);

    for i in 0..300 {
        let dealer = Seat((i % 4) as u8);
        let outcome = play_deal(dealer, 0, &mut rng).expect("donne jouable");

        let mut state = GameState::new(dealer, 0);
        for ev in &outcome.events {
            reduce(&mut state, ev);
            if state.phase == Phase::Playing {
                let hand = state.hand(state.turn).to_vec();
                for card in legal_moves(&state, state.turn) {
                    assert!(hand.contains(&card), "donne {i} : {card:?} proposee hors de la main");
                }
            }
        }
    }
}

#[test]
fn the_32_cards_are_dealt_once_and_played_once() {
    let mut rng = ChaCha8Rng::seed_from_u64(4242);

    for i in 0..300 {
        let dealer = Seat((i % 4) as u8);
        let outcome = play_deal(dealer, 0, &mut rng).expect("donne jouable");

        let played: Vec<_> = outcome
            .events
            .iter()
            .filter_map(|e| match e {
                Event::Played { card, .. } => Some(*card),
                _ => None,
            })
            .collect();

        assert_eq!(played.len(), 32, "donne {i}");
        let mut distinct = played.clone();
        distinct.sort();
        distinct.dedup();
        assert_eq!(distinct.len(), 32, "donne {i} : une carte a ete posee deux fois");
    }
}

#[test]
fn deal_points_always_total_162() {
    let mut rng = ChaCha8Rng::seed_from_u64(999);

    for i in 0..500 {
        let dealer = Seat((i % 4) as u8);
        let outcome = play_deal(dealer, 0, &mut rng).expect("donne jouable");
        let score = outcome.state.score.expect("donne comptee");
        assert_eq!(
            score.raw[0] + score.raw[1],
            DEAL_TOTAL,
            "donne {i} : les points des plis ne tombent pas juste"
        );
    }
}

#[test]
fn each_seat_plays_exactly_eight_cards() {
    let mut rng = ChaCha8Rng::seed_from_u64(2024);

    for i in 0..200 {
        let dealer = Seat((i % 4) as u8);
        let outcome = play_deal(dealer, 0, &mut rng).expect("donne jouable");

        let mut counts = [0usize; 4];
        for ev in &outcome.events {
            if let Event::Played { seat, .. } = ev {
                counts[seat.index()] += 1;
            }
        }
        assert_eq!(counts, [8, 8, 8, 8], "donne {i}");
    }
}

#[test]
fn a_redacted_event_never_carries_another_seats_cards() {
    let mut rng = ChaCha8Rng::seed_from_u64(5150);
    let outcome = play_deal(Seat(0), 0, &mut rng).expect("donne jouable");

    for seat in Seat::all() {
        let mut state = GameState::new(Seat(0), 0);
        for ev in &outcome.events {
            let public = ev.redact(seat);
            if let Event::Dealt { hands, .. } = ev {
                let belote::event::PublicEvent::Dealt { hand, .. } = &public else {
                    panic!("distribution attendue");
                };
                for (i, other) in hands.iter().enumerate() {
                    if i == seat.index() {
                        continue;
                    }
                    for card in other {
                        assert!(
                            !hand.contains(card),
                            "la distribution fuite {card:?} vers le siege {seat:?}"
                        );
                    }
                }
            }
            if let Event::DealCompleted { extra, .. } = ev {
                let belote::event::PublicEvent::DealCompleted { extra: mine, .. } = &public else {
                    panic!("complement attendu");
                };
                assert_eq!(mine, &extra[seat.index()]);
            }
            reduce(&mut state, ev);
        }
    }
}

#[test]
fn a_deal_outcome_reports_no_problem_and_counts_its_redeals() {
    let mut rng = ChaCha8Rng::seed_from_u64(42);
    let outcome = play_deal(Seat(1), 81, &mut rng).expect("donne jouable");
    assert!(check_invariants(&outcome).is_empty());
    assert!(outcome.redeals <= 100);
    assert_eq!(outcome.state.phase, Phase::Finished);
    assert_eq!(outcome.state.dealer, Seat(1));
    assert_eq!(outcome.state.carry_in, 81);
    let dealt = outcome.events.iter().filter(|e| matches!(e, Event::Dealt { .. })).count();
    assert_eq!(dealt, outcome.redeals + 1);
}

#[test]
fn check_invariants_reports_each_violation() {
    let mut rng = ChaCha8Rng::seed_from_u64(9);
    let mut outcome = play_deal(Seat(0), 0, &mut rng).expect("donne jouable");
    outcome.state.card_points = [100, 50];
    outcome.state.tricks_won = [5, 2];
    outcome.state.score = None;
    outcome.events.retain(|e| !matches!(e, Event::Played { .. }));
    let problems = check_invariants(&outcome);
    assert_eq!(
        problems,
        vec![
            "total des plis = 150 au lieu de 162".to_string(),
            "7 plis joues au lieu de 8".to_string(),
            "0 cartes posees au lieu de 32".to_string(),
            "la donne s'est terminee sans decompte".to_string(),
        ]
    );
}

#[test]
fn a_dealt_hand_is_played_out_or_redealt() {
    let mut rng = ChaCha8Rng::seed_from_u64(31);
    let mut finished = 0;
    for i in 0..60u8 {
        let dealer = Seat(i % 4);
        let dealt = start_deal(dealer, 0, &mut rng);
        let (state, events) = play_hand(dealer, 0, dealt.clone()).unwrap();
        assert_eq!(events[0], dealt);
        assert!(state.phase == Phase::Finished || state.phase == Phase::Redeal);
        let mut replay = GameState::new(dealer, 0);
        for ev in &events {
            reduce(&mut replay, ev);
        }
        assert_eq!(replay, state);
        if state.phase == Phase::Finished {
            finished += 1;
            let score = state.score.as_ref().unwrap();
            assert_eq!(score.raw[0] + score.raw[1], 162);
        } else {
            assert!(events.iter().all(|e| !matches!(e, Event::Played { .. })));
        }
    }
    assert!(finished > 0);
}

#[test]
fn a_pot_that_cannot_be_scored_makes_the_deal_fail() {
    let mut rng = ChaCha8Rng::seed_from_u64(5);
    for i in 0..5u8 {
        let r = play_deal(Seat(i % 4), u16::MAX, &mut rng);
        assert!(matches!(r, Err(SimError::ScoreOverflow)));
    }
    // Juste sous la limite, toute donne se compte.
    let outcome = play_deal(Seat(0), 65_263, &mut rng).expect("donne comptee");
    assert!(outcome.state.score.is_some());
}
