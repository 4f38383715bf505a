//! Cartes, bareme, sieges, vues : les briques du moteur.

use belote::action::{Action, RuleError};
use belote::card::{Card, Rank, Suit};
use belote::event::{Event, PublicEvent};
use belote::rules::{apply, deal_from_deck, legal_moves, reduce, start_deal, trick_points};
use belote::scoring::{card_points, card_strength, DEAL_TOTAL, TRICK_POINTS_TOTAL};
use belote::sim::SimError;
use belote::state::{GameState, Phase, PlayedCard, Seat, Team};
use belote::text::decimal_string;
use belote::view::project;
use rand::SeedableRng;
use rand_chacha::ChaCha8Rng;

#[test]
fn deck_has_32_distinct_cards() {
    let deck = Card::deck();
    assert_eq!(deck.len(), 32);
    let mut seen: Vec<Card> = Vec::new();
    for card in deck.iter().copied() {
        if !seen.contains(&card) {
            seen.push(card);
        }
    }
    assert_eq!(seen.len(), 32);
}

#[test]
fn suit_totals_match_the_official_barem() {
    let trump: u16 = Rank::ALL.iter().map(|r| card_points(*r, true)).sum();
    let plain: u16 = Rank::ALL.iter().map(|r| card_points(*r, false)).sum();
    assert_eq!(trump, 62);
    assert_eq!(plain, 30);
    assert_eq!(trump + 3 * plain, TRICK_POINTS_TOTAL);
}

#[test]
fn strengths_are_a_total_order_within_a_suit() {
    for trump in [true, false] {
        let mut seen: Vec<u8> = Rank::ALL.iter().map(|r| card_strength(*r, trump)).collect();
        seen.sort_unstable();
        assert_eq!(seen, (0..8).collect::<Vec<u8>>());
    }
}

#[test]
fn seats_rotate_and_pair_correctly() {
    assert_eq!(Seat(3).next(), Seat(0));
    assert_eq!(Seat(0).partner(), Seat(2));
    assert_eq!(Seat(1).partner(), Seat(3));
    assert_eq!(Seat(0).team(), Seat(2).team());
    assert_ne!(Seat(0).team(), Seat(1).team());
}

#[test]
fn a_view_never_carries_another_seats_cards() {
    let mut rng = ChaCha8Rng::seed_from_u64(7);
    let mut state = GameState::new(Seat(0), 0);
    reduce(&mut state, &start_deal(Seat(0), 0, &mut rng));

    let view = project(&state, Seat(1));
    for other in [Seat(0), Seat(2), Seat(3)] {
        for card in state.hand(other) {
            if !state.hand(Seat(1)).contains(card) {
                assert!(!view.hand.contains(card), "fuite de {card:?} dans la vue du siege 1");
                assert!(!view.legal.contains(card), "fuite de {card:?} dans la vue du siege 1");
                assert!(view.trick.iter().all(|p| p.card != *card));
                assert_ne!(view.upcard, Some(*card));
            }
        }
    }
    assert_eq!(view.hand, state.hand(Seat(1)).to_vec());
    assert_eq!(view.hand_sizes, [5, 5, 5, 5]);
}

// ---------------------------------------------------------------------------
// Cartes et bareme
// ---------------------------------------------------------------------------

#[test]
fn card_labels_and_suit_names() {
    assert_eq!(Rank::Ten.label_fr(), "10");
    assert_eq!(Rank::Jack.label_fr(), "V");
    assert_eq!(Rank::Queen.label_fr(), "D");
    assert_eq!(Rank::King.label_fr(), "R");
    assert_eq!(Suit::Hearts.name_fr(), "coeur");
    assert_eq!(Suit::Spades.name_fr(), "pique");
    assert_eq!(Suit::Clubs.symbol(), '\u{2663}');
    assert_eq!(Suit::Diamonds.symbol(), '\u{2666}');
    assert_eq!(Card::new(Suit::Hearts, Rank::Ace), Card { suit: Suit::Hearts, rank: Rank::Ace });
}

#[test]
fn the_trump_jack_and_nine_are_worth_20_and_14() {
    assert_eq!(card_points(Rank::Jack, true), 20);
    assert_eq!(card_points(Rank::Nine, true), 14);
    assert_eq!(card_points(Rank::Jack, false), 2);
    assert_eq!(card_points(Rank::Nine, false), 0);
    assert_eq!(card_points(Rank::Ace, false), 11);
    assert_eq!(card_points(Rank::Ten, true), 10);
    assert_eq!(card_strength(Rank::Jack, true), 7);
    assert_eq!(card_strength(Rank::Nine, true), 6);
    assert_eq!(card_strength(Rank::Ace, false), 7);
    assert_eq!(card_strength(Rank::Ten, false), 6);
    assert_eq!(DEAL_TOTAL, 162);
}

#[test]
fn the_deck_is_worth_152_points_whatever_the_trump() {
    for trump in Suit::ALL {
        let total: u16 = Card::deck().iter().map(|c| card_points(c.rank, c.suit == trump)).sum();
        assert_eq!(total, 152);
    }
}

#[test]
fn teams_pair_the_partners() {
    assert_eq!(Seat(1).team(), Team(1));
    assert_eq!(Team(0).other(), Team(1));
    assert_eq!(Team(1).other(), Team(0));
    assert_eq!(Seat(2).index(), 2);
    assert_eq!(Seat::all(), [Seat(0), Seat(1), Seat(2), Seat(3)]);
}

#[test]
fn trick_points_add_the_cards() {
    let trick = vec![
        PlayedCard { seat: Seat(0), card: Card::new(Suit::Hearts, Rank::Jack) },
        PlayedCard { seat: Seat(1), card: Card::new(Suit::Hearts, Rank::Ace) },
        PlayedCard { seat: Seat(2), card: Card::new(Suit::Spades, Rank::Nine) },
    ];
    assert_eq!(trick_points(&trick, Suit::Hearts), 20 + 11 + 0);
    assert_eq!(trick_points(&trick, Suit::Spades), 2 + 11 + 14);
}

// ---------------------------------------------------------------------------
// Distribution, reduction, vues
// ---------------------------------------------------------------------------

#[test]
fn dealing_an_ordered_deck_gives_three_then_two_from_the_dealers_left() {
    let deck = Card::deck();
    let ev = deal_from_deck(Seat(3), 40, &deck);
    match ev {
        Event::Dealt { dealer, hands, upcard, stock, carry_in } => {
            assert_eq!(dealer, Seat(3));
            assert_eq!(carry_in, 40);
            // Le siege 0 est a gauche du donneur 3 : cartes 0..3 et 12..14.
            assert_eq!(hands[0], vec![deck[0], deck[1], deck[2], deck[12], deck[13]]);
            assert_eq!(hands[3], vec![deck[9], deck[10], deck[11], deck[18], deck[19]]);
            assert_eq!(upcard, deck[20]);
            assert_eq!(stock, deck[21..].to_vec());
        }
        _ => panic!("distribution attendue"),
    }
}

#[test]
fn a_deal_opens_the_bidding_left_of_the_dealer() {
    let mut rng = ChaCha8Rng::seed_from_u64(3);
    let mut state = GameState::new(Seat(2), 0);
    reduce(&mut state, &start_deal(Seat(2), 0, &mut rng));
    assert_eq!(state.phase, Phase::Bidding1);
    assert_eq!(state.turn, Seat(3));
    for seat in Seat::all() {
        assert_eq!(state.hand(seat).len(), 5);
    }
    assert_eq!(state.stock.len(), 11);
    assert!(state.upcard.is_some());
}

#[test]
fn a_redacted_deal_shows_only_my_hand() {
    let deck = Card::deck();
    let ev = deal_from_deck(Seat(0), 0, &deck);
    let Event::Dealt { hands, .. } = ev.clone() else { panic!("distribution attendue") };
    for seat in Seat::all() {
        match ev.redact(seat) {
            PublicEvent::Dealt { hand, hand_sizes, upcard, .. } => {
                assert_eq!(hand, hands[seat.index()]);
                assert_eq!(hand_sizes, [5, 5, 5, 5]);
                assert_eq!(upcard, deck[20]);
            }
            _ => panic!("distribution attendue"),
        }
    }
}

#[test]
fn taking_completes_every_hand_to_eight_cards() {
    let deck = Card::deck();
    let mut state = GameState::new(Seat(0), 0);
    reduce(&mut state, &deal_from_deck(Seat(0), 0, &deck));
    let events = apply(&state, Seat(1), Action::Take).unwrap();
    for ev in &events {
        reduce(&mut state, ev);
    }
    assert_eq!(state.phase, Phase::Playing);
    assert_eq!(state.taker, Some(Seat(1)));
    assert_eq!(state.trump, Some(deck[20].suit));
    for seat in Seat::all() {
        assert_eq!(state.hand(seat).len(), 8);
    }
    assert!(state.hand(Seat(1)).contains(&deck[20]));
    assert_eq!(state.turn, Seat(1));
    assert!(!legal_moves(&state, Seat(1)).is_empty());
}

#[test]
fn the_trump_cannot_be_the_upcard_suit_in_round_two() {
    let deck = Card::deck();
    let mut state = GameState::new(Seat(0), 0);
    reduce(&mut state, &deal_from_deck(Seat(0), 0, &deck));
    for seat in [Seat(1), Seat(2), Seat(3), Seat(0)] {
        for ev in apply(&state, seat, Action::Pass).unwrap() {
            reduce(&mut state, &ev);
        }
    }
    assert_eq!(state.phase, Phase::Bidding2);
    let err = apply(&state, Seat(1), Action::ChooseTrump { suit: deck[20].suit }).unwrap_err();
    assert_eq!(err, RuleError::TrumpMustDiffer);
    assert_eq!(apply(&state, Seat(1), Action::Take).unwrap_err(), RuleError::WrongPhase { phase: Phase::Bidding2 });
}

#[test]
fn four_passes_twice_call_for_a_redeal() {
    let deck = Card::deck();
    let mut state = GameState::new(Seat(0), 0);
    reduce(&mut state, &deal_from_deck(Seat(0), 0, &deck));
    let mut last = Vec::new();
    for _ in 0..8 {
        let seat = state.turn;
        last = apply(&state, seat, Action::Pass).unwrap();
        for ev in &last {
            reduce(&mut state, ev);
        }
    }
    assert_eq!(last.len(), 2);
    assert_eq!(last[1], Event::Redeal);
    assert_eq!(state.phase, Phase::Redeal);
    assert!(state.is_over());
    assert_eq!(apply(&state, Seat(1), Action::Pass).unwrap_err(), RuleError::DealOver);
}

// ---------------------------------------------------------------------------
// Messages
// ---------------------------------------------------------------------------

#[test]
fn rule_errors_have_readable_messages() {
    assert_eq!(RuleError::NotYourTurn.message(), "ce n'est pas a ce joueur d'agir");
    assert_eq!(
        RuleError::WrongPhase { phase: Phase::Bidding2 }.message(),
        "action impossible dans la phase Bidding2"
    );
    assert_eq!(RuleError::UnknownSeat { seat: Seat(7) }.message(), "siege inconnu: Seat(7)");
    assert_eq!(RuleError::DealOver.message(), "la donne est terminee");
    assert_eq!(
        SimError::Rejected(RuleError::IllegalCard).message(),
        "action refusee par le moteur: coup interdit par les regles de la belote"
    );
    assert_eq!(
        SimError::BotStuck(Phase::Playing).message(),
        "le bot n'a propose aucune action en phase Playing"
    );
    assert_eq!(
        SimError::TooManyRedeals.message(),
        "trop de redistributions consecutives : personne ne prend jamais"
    );
    assert_eq!(SimError::ScoreOverflow.message(), "le decompte de la donne depasse 16 bits");
    assert_eq!(SimError::from(RuleError::CardNotInHand), SimError::Rejected(RuleError::CardNotInHand));
}

#[test]
fn numbers_are_written_in_decimal() {
    assert_eq!(decimal_string(0), "0");
    assert_eq!(decimal_string(7), "7");
    assert_eq!(decimal_string(162), "162");
    assert_eq!(decimal_string(65535), "65535");
}

#[test]
fn a_shuffled_deal_differs_from_the_ordered_deck() {
    let mut rng = ChaCha8Rng::seed_from_u64(11);
    let shuffled = start_deal(Seat(0), 0, &mut rng);
    let ordered = deal_from_deck(Seat(0), 0, &Card::deck());
    assert_ne!(shuffled, ordered);
    let Event::Dealt { hands, upcard, stock, .. } = shuffled else { panic!("distribution attendue") };
    let mut all: Vec<Card> = hands.iter().flatten().copied().collect();
    all.push(upcard);
    all.extend(stock);
    all.sort();
    let mut deck = Card::deck();
    deck.sort();
    assert_eq!(all, deck, "le melange garde les 32 cartes");
}
