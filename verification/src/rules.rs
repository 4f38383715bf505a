//! La logique de la belote classique.
//!
//! Deux fonctions seulement modifient le cours du jeu :
//!   - `apply`  : valide une action et produit les `Event` correspondants ;
//!   - `reduce` : applique un `Event` a l'etat (et sert aussi au rejeu).
//!
//! `legal_moves` est l'unique source de verite sur ce qui est jouable. `apply`
//! refuse systematiquement toute carte absente de `legal_moves`, ce qui rend
//! impossible une divergence entre l'affichage et la validation.

use vstd::prelude::*;

use rand::seq::SliceRandom;
use rand_chacha::ChaCha8Rng;

use crate::action::{Action, RuleError};
use crate::card::{spec_deck, Card, Rank, Suit};
use crate::scoring::{
    card_points, card_strength, lemma_strength_is_rank_order, plain_order, points_of, points_sum,
    spec_card_points, spec_card_strength, trump_order,
};
use crate::seqs::{
    copy_slice, is_subsequence, lemma_filter_member, lemma_filter_nonempty, lemma_filter_step,
    lemma_filter_subsequence, lemma_subsequence_empty, lemma_subsequence_refl,
    lemma_subsequence_trans,
};
use crate::event::{hands_view, Event, EventModel};
use crate::state::{fresh_model, DealScore, GameModel, GameState, Phase, PlayedCard, Seat, Team};
use crate::scoring::{BELOTE_BONUS, CAPOT_POINTS, DEAL_TOTAL, LAST_TRICK_BONUS};

verus! {

// ---------------------------------------------------------------------------
// Plis
// ---------------------------------------------------------------------------

/// Le pli contient-il de l'atout ?
pub open spec fn trick_has_trump(trick: Seq<PlayedCard>, trump: Suit) -> bool {
    exists|i: int| 0 <= i < trick.len() && #[trigger] trick[i].card.suit == trump
}

/// La couleur qui decide du pli : l'atout s'il y en a, sinon la couleur demandee.
pub open spec fn relevant_suit(trick: Seq<PlayedCard>, trump: Suit) -> Suit {
    if trick_has_trump(trick, trump) {
        trump
    } else {
        trick[0].card.suit
    }
}

/// Indice de la plus forte carte de la couleur `suit` dans le pli ; a force
/// egale, la derniere posee.
pub open spec fn best_in(trick: Seq<PlayedCard>, suit: Suit, is_trump: bool) -> Option<int>
    decreases trick.len(),
{
    if trick.len() == 0 {
        None
    } else {
        let prev = best_in(trick.drop_last(), suit, is_trump);
        let i = trick.len() - 1;
        if trick[i].card.suit == suit {
            match prev {
                None => Some(i),
                Some(j) => if spec_card_strength(trick[i].card.rank, is_trump)
                    >= spec_card_strength(trick[j].card.rank, is_trump) {
                    Some(i)
                } else {
                    Some(j)
                },
            }
        } else {
            prev
        }
    }
}

/// Le gagnant d'un pli : le plus fort atout s'il y en a, sinon la plus forte
/// carte de la couleur demandee.
pub open spec fn spec_trick_winner(trick: Seq<PlayedCard>, trump: Suit) -> Option<Seat> {
    if trick.len() == 0 {
        None
    } else {
        let relevant = relevant_suit(trick, trump);
        match best_in(trick, relevant, relevant == trump) {
            Some(j) => Some(trick[j].seat),
            None => None,
        }
    }
}

/// Les cartes d'un pli, dans l'ordre ou elles ont ete posees.
pub open spec fn trick_cards(trick: Seq<PlayedCard>) -> Seq<Card> {
    trick.map_values(|p: PlayedCard| p.card)
}

/// Somme des points d'un pli (hors dix de der).
pub open spec fn spec_trick_points(trick: Seq<PlayedCard>, trump: Suit) -> int {
    points_sum(trick_cards(trick), trump)
}

/// La meilleure carte de `best_in` est bien de la couleur demandee et au moins
/// aussi forte que toutes les cartes de cette couleur dans le pli.
pub proof fn lemma_best_in(trick: Seq<PlayedCard>, suit: Suit, is_trump: bool)
    ensures
        (exists|k: int| 0 <= k < trick.len() && #[trigger] trick[k].card.suit == suit)
            ==> best_in(trick, suit, is_trump) is Some,
        best_in(trick, suit, is_trump) matches Some(j) ==> {
            &&& 0 <= j < trick.len()
            &&& trick[j].card.suit == suit
            &&& forall|k: int|
                0 <= k < trick.len() && #[trigger] trick[k].card.suit == suit
                    ==> spec_card_strength(trick[k].card.rank, is_trump)
                    <= spec_card_strength(trick[j].card.rank, is_trump)
        },
    decreases trick.len(),
{
    if trick.len() > 0 {
        let d = trick.drop_last();
        lemma_best_in(d, suit, is_trump);
        assert forall|k: int| 0 <= k < d.len() implies #[trigger] d[k] == trick[k] by {}
        if exists|k: int| 0 <= k < trick.len() && #[trigger] trick[k].card.suit == suit {
            let k = choose|k: int| 0 <= k < trick.len() && #[trigger] trick[k].card.suit == suit;
            if k < d.len() {
                assert(d[k].card.suit == suit);
            }
        }
        if let Some(j) = best_in(trick, suit, is_trump) {
            assert forall|k: int|
                0 <= k < trick.len() && #[trigger] trick[k].card.suit == suit implies
                spec_card_strength(trick[k].card.rank, is_trump) <= spec_card_strength(
                    trick[j].card.rank,
                    is_trump,
                ) by {
                if k < d.len() {
                    assert(d[k].card.suit == suit);
                }
            }
        }
    }
}

/// Le gagnant d'un pli non vide a pose une carte de la couleur qui decide,
/// et aucune carte de cette couleur dans le pli n'est plus forte que la sienne.
pub proof fn lemma_trick_winner(trick: Seq<PlayedCard>, trump: Suit)
    requires
        trick.len() > 0,
    ensures
        spec_trick_winner(trick, trump) is Some,
        ({
            let relevant = relevant_suit(trick, trump);
            let j = best_in(trick, relevant, relevant == trump)->0;
            &&& 0 <= j < trick.len()
            &&& spec_trick_winner(trick, trump) == Some(trick[j].seat)
            &&& trick[j].card.suit == relevant
            &&& forall|k: int|
                0 <= k < trick.len() && #[trigger] trick[k].card.suit == relevant
                    ==> spec_card_strength(trick[k].card.rank, relevant == trump)
                    <= spec_card_strength(trick[j].card.rank, relevant == trump)
        }),
{
    let relevant = relevant_suit(trick, trump);
    if !trick_has_trump(trick, trump) {
        assert(trick[0].card.suit == relevant);
    }
    lemma_best_in(trick, relevant, relevant == trump);
}

/// Qui remporte un pli : s'il y a de l'atout, celui qui a pose l'atout le
/// plus haut dans l'ordre 7 < 8 < D < R < 10 < A < 9 < V ; sinon celui qui a
/// pose la carte la plus haute de la couleur demandee dans l'ordre
/// 7 < 8 < 9 < V < D < R < 10 < A.
pub proof fn lemma_trick_winner_by_rank_order(trick: Seq<PlayedCard>, trump: Suit)
    requires
        trick.len() > 0,
    ensures
        exists|j: int|
            {
                &&& 0 <= j < trick.len()
                &&& spec_trick_winner(trick, trump) == Some(#[trigger] trick[j].seat)
                &&& trick_has_trump(trick, trump) ==> trick[j].card.suit == trump && forall|
                    k: int,
                    a: int,
                    b: int,
                |
                    #![trigger trick[k], trump_order()[a], trump_order()[b]]
                    0 <= k < trick.len() && trick[k].card.suit == trump && 0 <= a < 8 && 0 <= b < 8
                        && trump_order()[a] == trick[k].card.rank && trump_order()[b]
                        == trick[j].card.rank ==> a <= b
                &&& !trick_has_trump(trick, trump) ==> trick[j].card.suit == trick[0].card.suit
                    && forall|k: int, a: int, b: int|
                    #![trigger trick[k], plain_order()[a], plain_order()[b]]
                    0 <= k < trick.len() && trick[k].card.suit == trick[0].card.suit && 0 <= a < 8
                        && 0 <= b < 8 && plain_order()[a] == trick[k].card.rank && plain_order()[b]
                        == trick[j].card.rank ==> a <= b
            },
{
    lemma_trick_winner(trick, trump);
    lemma_strength_is_rank_order();
    let relevant = relevant_suit(trick, trump);
    let j = best_in(trick, relevant, relevant == trump)->0;
    assert(spec_trick_winner(trick, trump) == Some(trick[j].seat));
}

/// Le gagnant d'un pli : le plus fort atout s'il y en a, sinon la plus forte
/// carte de la couleur demandee.
pub fn trick_winner(trick: &[PlayedCard], trump: Suit) -> (w: Option<Seat>)
    ensures
        w == spec_trick_winner(trick@, trump),
{
    if trick.len() == 0 {
        return None;
    }
    let led = trick[0].card.suit;
    let mut has_trump = false;
    let mut i: usize = 0;
    while i < trick.len()
        invariant
            i <= trick@.len(),
            has_trump == exists|k: int| 0 <= k < i && #[trigger] trick@[k].card.suit == trump,
        decreases trick@.len() - i,
    {
        if trick[i].card.suit == trump {
            has_trump = true;
        }
        i += 1;
    }
    let relevant = if has_trump {
        trump
    } else {
        led
    };
    let is_trump = relevant == trump;
    let mut best: Option<usize> = None;
    let mut i: usize = 0;
    while i < trick.len()
        invariant
            i <= trick@.len(),
            match best {
                None => best_in(trick@.subrange(0, i as int), relevant, is_trump) is None,
                Some(j) => best_in(trick@.subrange(0, i as int), relevant, is_trump) == Some(
                    j as int,
                ) && j < i,
            },
        decreases trick@.len() - i,
    {
        let ghost prefix = trick@.subrange(0, i as int + 1);
        assert(prefix.drop_last() =~= trick@.subrange(0, i as int));
        if trick[i].card.suit == relevant {
            match best {
                None => {
                    best = Some(i);
                },
                Some(j) => {
                    if card_strength(trick[i].card.rank, is_trump) >= card_strength(
                        trick[j].card.rank,
                        is_trump,
                    ) {
                        best = Some(i);
                    }
                },
            }
        }
        i += 1;
    }
    assert(trick@.subrange(0, trick@.len() as int) =~= trick@);
    match best {
        Some(j) => Some(trick[j].seat),
        None => None,
    }
}

pub proof fn lemma_points_sum_push(cards: Seq<Card>, c: Card, trump: Suit)
    ensures
        points_sum(cards.push(c), trump) == points_sum(cards, trump) + points_of(c, trump),
{
    assert(cards.push(c).drop_last() =~= cards);
}

/// Un paquet de `n` cartes vaut au plus `20 * n` points.
pub proof fn lemma_points_sum_bounded(cards: Seq<Card>, trump: Suit)
    ensures
        0 <= points_sum(cards, trump) <= 20 * cards.len(),
    decreases cards.len(),
{
    if cards.len() > 0 {
        lemma_points_sum_bounded(cards.drop_last(), trump);
    }
}

/// Somme des points d'un pli (hors dix de der).
pub fn trick_points(trick: &[PlayedCard], trump: Suit) -> (p: u16)
    requires
        spec_trick_points(trick@, trump) <= u16::MAX,
    ensures
        p == spec_trick_points(trick@, trump),
{
    let mut sum: u16 = 0;
    let mut i: usize = 0;
    while i < trick.len()
        invariant
            i <= trick@.len(),
            sum == points_sum(trick_cards(trick@.subrange(0, i as int)), trump),
            points_sum(trick_cards(trick@), trump) <= u16::MAX,
        decreases trick@.len() - i,
    {
        let ghost before = trick_cards(trick@.subrange(0, i as int));
        proof {
            assert(trick_cards(trick@.subrange(0, i as int + 1)) =~= before.push(trick@[i as int].card));
            lemma_points_sum_push(before, trick@[i as int].card, trump);
            lemma_points_sum_prefix(trick_cards(trick@), i as int + 1, trump);
            assert(trick_cards(trick@).subrange(0, i as int + 1) =~= trick_cards(trick@.subrange(0, i as int + 1)));
        }
        let c = trick[i].card;
        sum = sum + card_points(c.rank, c.suit == trump);
        i += 1;
    }
    assert(trick@.subrange(0, trick@.len() as int) =~= trick@);
    sum
}

/// La somme des points d'un prefixe ne depasse pas celle du tout.
pub proof fn lemma_points_sum_prefix(cards: Seq<Card>, n: int, trump: Suit)
    requires
        0 <= n <= cards.len(),
    ensures
        points_sum(cards.subrange(0, n), trump) <= points_sum(cards, trump),
    decreases cards.len(),
{
    if n < cards.len() {
        lemma_points_sum_prefix(cards.drop_last(), n, trump);
        assert(cards.drop_last().subrange(0, n) =~= cards.subrange(0, n));
    } else {
        assert(cards.subrange(0, n) =~= cards);
    }
}

} // verus!

verus! {

// ---------------------------------------------------------------------------
// Coups legaux
// ---------------------------------------------------------------------------

/// Predicat : la carte est de la couleur `suit`.
pub open spec fn suit_is(suit: Suit) -> spec_fn(Card) -> bool {
    |c: Card| c.suit == suit
}

/// Predicat : la carte, comptee comme atout, bat le meilleur atout `best` deja
/// pose (toute carte bat l'absence d'atout).
pub open spec fn beats_best(best: Option<u8>) -> spec_fn(Card) -> bool {
    |c: Card|
        match best {
            None => true,
            Some(b) => spec_card_strength(c.rank, true) > b,
        }
}

/// Force du plus fort atout pose dans le pli, s'il y en a un.
pub open spec fn best_trump_played(trick: Seq<PlayedCard>, trump: Suit) -> Option<u8>
    decreases trick.len(),
{
    if trick.len() == 0 {
        None
    } else {
        let prev = best_trump_played(trick.drop_last(), trump);
        let c = trick.last().card;
        if c.suit == trump {
            let s = spec_card_strength(c.rank, true);
            match prev {
                None => Some(s),
                Some(p) => Some(if s > p { s } else { p }),
            }
        } else {
            prev
        }
    }
}

/// Monter a l'atout si possible, sinon n'importe quel atout ("sous-couper").
pub open spec fn climb(trumps: Seq<Card>, best: Option<u8>) -> Seq<Card> {
    let higher = trumps.filter(beats_best(best));
    if higher.len() == 0 {
        trumps
    } else {
        higher
    }
}

/// Le gagnant provisoire du pli en cours.
pub open spec fn spec_current_winner(m: GameModel) -> Option<Seat> {
    match m.trump {
        None => None,
        Some(t) => spec_trick_winner(m.trick, t),
    }
}

/// Les cartes que `seat` peut legalement poser dans l'etat `m`.
pub open spec fn spec_legal_moves(m: GameModel, seat: Seat) -> Seq<Card> {
    if m.phase != Phase::Playing || m.turn != seat {
        Seq::empty()
    } else {
        match m.trump {
            None => Seq::empty(),
            Some(trump) => {
                let hand = m.hands[seat.0 as int];
                if m.trick.len() == 0 {
                    hand
                } else {
                    let led = m.trick[0].card.suit;
                    let trumps = hand.filter(suit_is(trump));
                    let best = best_trump_played(m.trick, trump);
                    if led == trump {
                        if trumps.len() == 0 {
                            hand
                        } else {
                            climb(trumps, best)
                        }
                    } else {
                        let in_suit = hand.filter(suit_is(led));
                        if in_suit.len() > 0 {
                            in_suit
                        } else if (match spec_current_winner(m) {
                            Some(w) => w.spec_partner() == seat,
                            None => false,
                        }) {
                            hand
                        } else if trumps.len() == 0 {
                            hand
                        } else {
                            climb(trumps, best)
                        }
                    }
                }
            },
        }
    }
}

/// Le gagnant provisoire du pli en cours. `None` si le pli est vide.
pub fn current_winner(state: &GameState) -> (w: Option<Seat>)
    ensures
        w == spec_current_winner(state@),
{
    match state.trump {
        None => None,
        Some(trump) => trick_winner(state.trick.as_slice(), trump),
    }
}

pub(crate) fn filter_suit(cards: &[Card], suit: Suit) -> (r: Vec<Card>)
    ensures
        r@ == cards@.filter(suit_is(suit)),
{
    let mut r: Vec<Card> = Vec::new();
    let mut i: usize = 0;
    while i < cards.len()
        invariant
            i <= cards@.len(),
            r@ == cards@.subrange(0, i as int).filter(suit_is(suit)),
        decreases cards@.len() - i,
    {
        proof {
            lemma_filter_step(cards@, i as int, suit_is(suit));
        }
        if cards[i].suit == suit {
            r.push(cards[i]);
        }
        i += 1;
    }
    assert(cards@.subrange(0, cards@.len() as int) =~= cards@);
    r
}

fn filter_beats(cards: &[Card], best: Option<u8>) -> (r: Vec<Card>)
    ensures
        r@ == cards@.filter(beats_best(best)),
{
    let mut r: Vec<Card> = Vec::new();
    let mut i: usize = 0;
    while i < cards.len()
        invariant
            i <= cards@.len(),
            r@ == cards@.subrange(0, i as int).filter(beats_best(best)),
        decreases cards@.len() - i,
    {
        proof {
            lemma_filter_step(cards@, i as int, beats_best(best));
        }
        let keep = match best {
            None => true,
            Some(b) => card_strength(cards[i].rank, true) > b,
        };
        if keep {
            r.push(cards[i]);
        }
        i += 1;
    }
    assert(cards@.subrange(0, cards@.len() as int) =~= cards@);
    r
}

fn best_trump_strength(trick: &[PlayedCard], trump: Suit) -> (b: Option<u8>)
    ensures
        b == best_trump_played(trick@, trump),
{
    let mut best: Option<u8> = None;
    let mut i: usize = 0;
    while i < trick.len()
        invariant
            i <= trick@.len(),
            best == best_trump_played(trick@.subrange(0, i as int), trump),
        decreases trick@.len() - i,
    {
        assert(trick@.subrange(0, i as int + 1).drop_last() =~= trick@.subrange(0, i as int));
        let c = trick[i].card;
        if c.suit == trump {
            let s = card_strength(c.rank, true);
            best = match best {
                None => Some(s),
                Some(p) => Some(if s > p { s } else { p }),
            };
        }
        i += 1;
    }
    assert(trick@.subrange(0, trick@.len() as int) =~= trick@);
    best
}

fn climb_trumps(trumps: Vec<Card>, best: Option<u8>) -> (r: Vec<Card>)
    ensures
        r@ == climb(trumps@, best),
{
    let higher = filter_beats(trumps.as_slice(), best);
    if higher.len() == 0 {
        trumps
    } else {
        higher
    }
}

/// Les cartes que `seat` peut legalement poser maintenant.
///
/// Trois contraintes, dans cet ordre :
///   1. fournir la couleur demandee si on la possede ;
///   2. sinon couper, sauf si le partenaire est deja maitre du pli ;
///   3. quand on met de l'atout, monter au-dessus du plus fort atout du pli
///      si on le peut.
pub fn legal_moves(state: &GameState, seat: Seat) -> (moves: Vec<Card>)
    requires
        state.phase == Phase::Playing && state.turn == seat ==> seat.valid(),
    ensures
        moves@ == spec_legal_moves(state@, seat),
{
    if state.phase != Phase::Playing || state.turn != seat {
        return Vec::new();
    }
    let hand = state.hand(seat);
    let trump = match state.trump {
        Some(t) => t,
        None => {
            return Vec::new();
        },
    };
    // Entameur : totalement libre.
    let led = match state.led_suit() {
        Some(l) => l,
        None => {
            return copy_slice(hand);
        },
    };
    let trumps = filter_suit(hand, trump);
    let best = best_trump_strength(state.trick.as_slice(), trump);
    if led == trump {
        // Atout demande : fournir de l'atout, et monter si on peut.
        return if trumps.len() == 0 {
            copy_slice(hand)
        } else {
            climb_trumps(trumps, best)
        };
    }
    let in_suit = filter_suit(hand, led);
    if in_suit.len() > 0 {
        // Obligation de fournir, sans obligation de monter hors atout.
        return in_suit;
    }
    // Le partenaire tient le pli : on est libre de se defausser.
    let partner_holds = match current_winner(state) {
        Some(w) => w.partner() == seat,
        None => false,
    };
    if partner_holds {
        return copy_slice(hand);
    }
    if trumps.len() == 0 {
        return copy_slice(hand);
    }
    climb_trumps(trumps, best)
}

/// Tout coup legal est une carte que le joueur tient en main.
pub proof fn lemma_legal_moves_in_hand(m: GameModel, seat: Seat, c: Card)
    requires
        spec_legal_moves(m, seat).contains(c),
    ensures
        seat.valid() ==> m.hands[seat.0 as int].contains(c),
        m.phase == Phase::Playing,
        m.turn == seat,
        m.trump is Some,
{
    let hand = m.hands[seat.0 as int];
    let trump = m.trump->0;
    if m.trick.len() > 0 {
        let led = m.trick[0].card.suit;
        let trumps = hand.filter(suit_is(trump));
        let best = best_trump_played(m.trick, trump);
        let higher = trumps.filter(beats_best(best));
        let legal = spec_legal_moves(m, seat);
        if legal == hand.filter(suit_is(led)) && hand.filter(suit_is(led)).len() > 0 {
            lemma_filter_member(hand, suit_is(led), c);
        } else if legal == trumps {
            lemma_filter_member(hand, suit_is(trump), c);
        } else if legal == higher {
            lemma_filter_member(trumps, beats_best(best), c);
            lemma_filter_member(hand, suit_is(trump), c);
        }
    }
}

/// Un joueur a qui c'est le tour de jouer et qui a encore des cartes a
/// toujours au moins un coup legal.
pub proof fn lemma_legal_moves_nonempty(m: GameModel, seat: Seat)
    requires
        m.phase == Phase::Playing,
        m.turn == seat,
        m.trump is Some,
        m.hands[seat.0 as int].len() > 0,
    ensures
        spec_legal_moves(m, seat).len() > 0,
{
    broadcast use vstd::seq_lib::group_filter_ensures;

    let hand = m.hands[seat.0 as int];
    let trump = m.trump->0;
    if m.trick.len() > 0 {
        let trumps = hand.filter(suit_is(trump));
        let best = best_trump_played(m.trick, trump);
        let higher = trumps.filter(beats_best(best));
        assert(climb(trumps, best).len() >= trumps.len() || climb(trumps, best).len() > 0);
    }
}

/// Le plus fort atout du pli : absent s'il n'y a pas d'atout, sinon la
/// force d'un atout du pli, au moins egale a celle de chacun.
proof fn lemma_best_trump_played(trick: Seq<PlayedCard>, trump: Suit)
    ensures
        best_trump_played(trick, trump) is None ==> forall|k: int|
            0 <= k < trick.len() ==> (#[trigger] trick[k]).card.suit != trump,
        best_trump_played(trick, trump) matches Some(b) ==> {
            &&& exists|k: int|
                0 <= k < trick.len() && (#[trigger] trick[k]).card.suit == trump
                    && spec_card_strength(trick[k].card.rank, true) == b
            &&& forall|k: int|
                0 <= k < trick.len() && (#[trigger] trick[k]).card.suit == trump
                    ==> spec_card_strength(trick[k].card.rank, true) <= b
        },
    decreases trick.len(),
{
    if trick.len() > 0 {
        let d = trick.drop_last();
        lemma_best_trump_played(d, trump);
        assert forall|k: int| 0 <= k < d.len() implies #[trigger] d[k] == trick[k] by {}
        let i = trick.len() - 1;
        let c = trick[i].card;
        assert(trick.last() == trick[i]);
        let prev = best_trump_played(d, trump);
        let si = spec_card_strength(c.rank, true);
        if best_trump_played(trick, trump) is None {
            assert(c.suit != trump);
            assert(prev is None);
            assert forall|k: int| 0 <= k < trick.len() implies (#[trigger] trick[k]).card.suit
                != trump by {
                if k < d.len() {
                    assert(d[k].card.suit != trump);
                }
            }
        }
        if let Some(b) = best_trump_played(trick, trump) {
            assert forall|k: int|
                0 <= k < trick.len() && (#[trigger] trick[k]).card.suit == trump implies spec_card_strength(
                trick[k].card.rank,
                true,
            ) <= b by {
                if k < d.len() {
                    assert(d[k].card.suit == trump);
                }
            }
            if c.suit == trump && si == b {
                assert(trick[i].card.suit == trump && spec_card_strength(trick[i].card.rank, true)
                    == b);
            } else {
                let pb = prev->0;
                assert(prev is Some && pb == b);
                let k = choose|k: int|
                    0 <= k < d.len() && (#[trigger] d[k]).card.suit == trump
                        && spec_card_strength(d[k].card.rank, true) == pb;
                assert(trick[k] == d[k]);
                assert(trick[k].card.suit == trump && spec_card_strength(trick[k].card.rank, true)
                    == b);
            }
        }
    }
}

/// Monter a l'atout : quand il faut jouer atout (le pli est entame a
/// l'atout, ou le joueur n'a plus de la couleur demandee et son partenaire
/// n'est pas maitre du pli) et que le joueur tient un atout plus fort que
/// tous ceux deja poses, chacun de ses coups legaux est un atout plus fort
/// que tous les atouts du pli.
pub proof fn lemma_must_overtrump(m: GameModel, seat: Seat, c: Card)
    requires
        m.phase == Phase::Playing,
        m.turn == seat,
        m.trump == Some(c.suit),
        m.trick.len() > 0,
        m.hands[seat.0 as int].contains(c),
        forall|k: int|
            0 <= k < m.trick.len() && (#[trigger] m.trick[k]).card.suit == c.suit
                ==> spec_card_strength(m.trick[k].card.rank, true) < spec_card_strength(c.rank, true),
        m.trick[0].card.suit == c.suit || ((forall|x: Card|
            #[trigger] m.hands[seat.0 as int].contains(x) ==> x.suit != m.trick[0].card.suit)
            && !(spec_current_winner(m) matches Some(w) && w.spec_partner() == seat)),
    ensures
        forall|l: Card|
            #[trigger] spec_legal_moves(m, seat).contains(l) ==> l.suit == c.suit && forall|k: int|
                0 <= k < m.trick.len() && (#[trigger] m.trick[k]).card.suit == c.suit
                    ==> spec_card_strength(m.trick[k].card.rank, true) < spec_card_strength(
                    l.rank,
                    true,
                ),
{
    broadcast use vstd::seq_lib::group_filter_ensures;

    let trump = c.suit;
    let hand = m.hands[seat.0 as int];
    let led = m.trick[0].card.suit;
    let trumps = hand.filter(suit_is(trump));
    let best = best_trump_played(m.trick, trump);
    lemma_best_trump_played(m.trick, trump);
    let k0 = choose|k: int| 0 <= k < hand.len() && hand[k] == c;
    lemma_filter_nonempty(hand, suit_is(trump), k0);
    let ti = choose|i: int| 0 <= i < trumps.len() && trumps[i] == c;
    assert(beats_best(best)(c));
    lemma_filter_nonempty(trumps, beats_best(best), ti);
    let higher = trumps.filter(beats_best(best));
    assert(climb(trumps, best) == higher);
    if led != trump {
        let in_suit = hand.filter(suit_is(led));
        if in_suit.len() > 0 {
            assert(in_suit.contains(in_suit[0]));
            lemma_filter_member(hand, suit_is(led), in_suit[0]);
        }
    }
    assert(spec_legal_moves(m, seat) == higher);
    assert forall|l: Card| #[trigger] spec_legal_moves(m, seat).contains(l) implies l.suit == trump
        && forall|k: int|
        0 <= k < m.trick.len() && (#[trigger] m.trick[k]).card.suit == trump
            ==> spec_card_strength(m.trick[k].card.rank, true) < spec_card_strength(l.rank, true) by {
        lemma_filter_member(trumps, beats_best(best), l);
        lemma_filter_member(hand, suit_is(trump), l);
    }
}

/// Les coups legaux : aucun hors de la phase de jeu, hors de son tour ou
/// sans atout ; toujours une sous-suite de la main (chaque carte proposee est
/// tenue, dans l'ordre de la main) ; jamais aucun quand c'est son tour de
/// jouer et qu'il reste des cartes en main.
pub proof fn lemma_legal_moves_law(m: GameModel, seat: Seat)
    ensures
        (m.phase != Phase::Playing || m.turn != seat || m.trump is None) ==> spec_legal_moves(
            m,
            seat,
        ).len() == 0,
        is_subsequence(spec_legal_moves(m, seat), m.hands[seat.0 as int]),
        (m.phase == Phase::Playing && m.turn == seat && m.trump is Some && m.hands[seat.0 as int].len()
            > 0) ==> spec_legal_moves(m, seat).len() > 0,
{
    let hand = m.hands[seat.0 as int];
    if m.phase != Phase::Playing || m.turn != seat || m.trump is None {
        lemma_subsequence_empty(hand);
        assert(spec_legal_moves(m, seat) =~= Seq::<Card>::empty());
    } else {
        let trump = m.trump->0;
        lemma_subsequence_refl(hand);
        if hand.len() > 0 {
            lemma_legal_moves_nonempty(m, seat);
        }
        if m.trick.len() > 0 {
            let led = m.trick[0].card.suit;
            let trumps = hand.filter(suit_is(trump));
            let best = best_trump_played(m.trick, trump);
            lemma_filter_subsequence(hand, suit_is(trump));
            lemma_filter_subsequence(hand, suit_is(led));
            lemma_filter_subsequence(trumps, beats_best(best));
            lemma_subsequence_trans(trumps.filter(beats_best(best)), trumps, hand);
        }
    }
}

} // verus!

verus! {

// ---------------------------------------------------------------------------
// Reduction
// ---------------------------------------------------------------------------

/// Position de la premiere occurrence d'une carte.
pub open spec fn first_index(s: Seq<Card>, c: Card) -> Option<int>
    decreases s.len(),
{
    if s.len() == 0 {
        None
    } else {
        match first_index(s.drop_last(), c) {
            Some(i) => Some(i),
            None => if s.last() == c {
                Some(s.len() - 1)
            } else {
                None
            },
        }
    }
}

/// La main privee de la premiere occurrence de la carte, si elle y est.
pub open spec fn remove_first(hand: Seq<Card>, c: Card) -> Seq<Card> {
    match first_index(hand, c) {
        Some(i) => hand.remove(i),
        None => hand,
    }
}

/// Effet d'un evenement sur le modele de l'etat.
pub open spec fn step(m: GameModel, e: EventModel) -> GameModel {
    match e {
        EventModel::Dealt { dealer, hands, upcard, stock, carry_in } => GameModel {
            hands,
            upcard: Some(upcard),
            stock,
            phase: Phase::Bidding1,
            turn: dealer.spec_next(),
            ..fresh_model(dealer, carry_in)
        },
        EventModel::Passed { .. } => {
            if m.passes + 1 == 4 && m.phase == Phase::Bidding1 {
                GameModel { phase: Phase::Bidding2, passes: 0, turn: m.dealer.spec_next(), ..m }
            } else {
                GameModel { passes: (m.passes + 1) as u8, turn: m.turn.spec_next(), ..m }
            }
        },
        EventModel::Redeal => GameModel { phase: Phase::Redeal, ..m },
        EventModel::Took { seat, suit, .. } => GameModel {
            trump: Some(suit),
            taker: Some(seat),
            ..m
        },
        EventModel::DealCompleted { extra, belote_seat } => GameModel {
            hands: Seq::new(4, |i: int| m.hands[i] + extra[i]),
            stock: Seq::empty(),
            upcard: None,
            belote_seat,
            phase: Phase::Playing,
            turn: m.dealer.spec_next(),
            trick_leader: m.dealer.spec_next(),
            ..m
        },
        EventModel::BeloteShown { .. } => GameModel {
            belote_shown: (m.belote_shown + 1) as u8,
            ..m
        },
        EventModel::Played { seat, card } => GameModel {
            hands: m.hands.update(seat.0 as int, remove_first(m.hands[seat.0 as int], card)),
            trick: m.trick.push(PlayedCard { seat, card }),
            turn: seat.spec_next(),
            ..m
        },
        EventModel::TrickTaken { winner, points, .. } => {
            let team = winner.spec_team().0 as int;
            GameModel {
                card_points: m.card_points.update(team, (m.card_points[team] + points) as u16),
                tricks_won: m.tricks_won.update(team, (m.tricks_won[team] + 1) as u8),
                tricks_played: (m.tricks_played + 1) as u8,
                trick: Seq::empty(),
                trick_leader: winner,
                turn: winner,
                ..m
            }
        },
        EventModel::Scored(s) => GameModel { score: Some(s), phase: Phase::Finished, ..m },
    }
}

/// L'evenement peut etre applique sans depassement ni indice hors bornes.
pub open spec fn reduce_safe(m: GameModel, e: EventModel) -> bool {
    match e {
        EventModel::Passed { .. } => m.passes < 255,
        EventModel::BeloteShown { .. } => m.belote_shown < 255,
        EventModel::Played { seat, .. } => seat.valid(),
        EventModel::TrickTaken { winner, points, .. } => {
            let team = winner.spec_team().0 as int;
            &&& m.card_points[team] + points <= u16::MAX
            &&& m.tricks_won[team] < 255
            &&& m.tricks_played < 255
        },
        _ => true,
    }
}

/// Rejoue un journal d'evenements a partir d'un etat.
pub open spec fn replay(m: GameModel, evs: Seq<EventModel>) -> GameModel
    decreases evs.len(),
{
    if evs.len() == 0 {
        m
    } else {
        step(replay(m, evs.drop_last()), evs.last())
    }
}

/// Chaque evenement d'un journal peut etre rejoue sans incident.
pub open spec fn replay_safe(m: GameModel, evs: Seq<EventModel>) -> bool
    decreases evs.len(),
{
    if evs.len() == 0 {
        true
    } else {
        replay_safe(m, evs.drop_last()) && reduce_safe(replay(m, evs.drop_last()), evs.last())
    }
}

fn position_of(hand: &[Card], card: Card) -> (r: Option<usize>)
    ensures
        match r {
            Some(i) => first_index(hand@, card) == Some(i as int) && i < hand@.len() && hand@[i as int] == card,
            None => first_index(hand@, card) is None,
        },
{
    let mut i: usize = 0;
    while i < hand.len()
        invariant
            i <= hand@.len(),
            first_index(hand@.subrange(0, i as int), card) is None,
        decreases hand@.len() - i,
    {
        assert(hand@.subrange(0, i as int + 1).drop_last() =~= hand@.subrange(0, i as int));
        if hand[i] == card {
            proof {
                lemma_first_index_prefix(hand@, i as int + 1, card);
            }
            return Some(i);
        }
        i += 1;
    }
    assert(hand@.subrange(0, hand@.len() as int) =~= hand@);
    None
}

proof fn lemma_first_index_prefix(s: Seq<Card>, n: int, c: Card)
    requires
        0 <= n <= s.len(),
        first_index(s.subrange(0, n), c) is Some,
    ensures
        first_index(s, c) == first_index(s.subrange(0, n), c),
    decreases s.len(),
{
    if n < s.len() {
        assert(s.drop_last().subrange(0, n) =~= s.subrange(0, n));
        lemma_first_index_prefix(s.drop_last(), n, c);
    } else {
        assert(s.subrange(0, n) =~= s);
    }
}

fn concat_cards(a: &[Card], b: &[Card]) -> (r: Vec<Card>)
    ensures
        r@ == a@ + b@,
{
    let mut r = copy_slice(a);
    let mut i: usize = 0;
    while i < b.len()
        invariant
            i <= b@.len(),
            r@ == a@ + b@.subrange(0, i as int),
        decreases b@.len() - i,
    {
        r.push(b[i]);
        i += 1;
        assert(r@ =~= a@ + b@.subrange(0, i as int));
    }
    assert(b@.subrange(0, b@.len() as int) =~= b@);
    r
}

/// Applique un evenement a l'etat. Total et deterministe : c'est aussi la
/// fonction utilisee pour rejouer une partie depuis le journal.
pub fn reduce(state: &mut GameState, event: &Event)
    requires
        reduce_safe(old(state)@, event@),
    ensures
        final(state)@ == step(old(state)@, event@),
{
    match event {
        Event::Dealt { dealer, hands, upcard, stock, carry_in } => {
            *state = GameState::new(*dealer, *carry_in);
            state.hands = [
                copy_slice(hands[0].as_slice()),
                copy_slice(hands[1].as_slice()),
                copy_slice(hands[2].as_slice()),
                copy_slice(hands[3].as_slice()),
            ];
            state.upcard = Some(*upcard);
            state.stock = copy_slice(stock.as_slice());
            state.phase = Phase::Bidding1;
            state.turn = dealer.next();
            assert(state@.hands =~= hands_view(*hands));
        },
        Event::Passed { .. } => {
            state.passes = state.passes + 1;
            state.turn = state.turn.next();
            if state.passes == 4 && state.phase == Phase::Bidding1 {
                state.phase = Phase::Bidding2;
                state.passes = 0;
                state.turn = state.dealer.next();
            }
        },
        Event::Redeal => {
            state.phase = Phase::Redeal;
        },
        Event::Took { seat, suit, .. } => {
            state.trump = Some(*suit);
            state.taker = Some(*seat);
        },
        Event::DealCompleted { extra, belote_seat } => {
            let ghost before = state@;
            state.hands = [
                concat_cards(state.hands[0].as_slice(), extra[0].as_slice()),
                concat_cards(state.hands[1].as_slice(), extra[1].as_slice()),
                concat_cards(state.hands[2].as_slice(), extra[2].as_slice()),
                concat_cards(state.hands[3].as_slice(), extra[3].as_slice()),
            ];
            state.stock = Vec::new();
            state.upcard = None;
            state.belote_seat = *belote_seat;
            state.phase = Phase::Playing;
            state.turn = state.dealer.next();
            state.trick_leader = state.dealer.next();
            assert(state@.hands =~= Seq::new(
                4,
                |i: int| before.hands[i] + hands_view(*extra)[i],
            ));
            assert(state@.stock =~= Seq::<Card>::empty());
        },
        Event::BeloteShown { .. } => {
            state.belote_shown = state.belote_shown + 1;
        },
        Event::Played { seat, card } => {
            let ghost before = state@;
            let i = seat.index();
            match position_of(state.hands[i].as_slice(), *card) {
                Some(pos) => {
                    state.hands[i].remove(pos);
                },
                None => {},
            }
            state.trick.push(PlayedCard { seat: *seat, card: *card });
            state.turn = seat.next();
            assert(state@.hands =~= before.hands.update(
                i as int,
                remove_first(before.hands[i as int], *card),
            ));
        },
        Event::TrickTaken { winner, points, .. } => {
            let team = winner.team().index();
            state.card_points[team] = state.card_points[team] + *points;
            state.tricks_won[team] = state.tricks_won[team] + 1;
            state.tricks_played = state.tricks_played + 1;
            state.trick = Vec::new();
            state.trick_leader = *winner;
            state.turn = *winner;
            assert(state@.trick =~= Seq::<PlayedCard>::empty());
        },
        Event::Scored(score) => {
            state.score = Some(*score);
            state.phase = Phase::Finished;
        },
    }
}

} // verus!

verus! {

// ---------------------------------------------------------------------------
// Decompte
// ---------------------------------------------------------------------------

/// Indice de l'equipe du preneur.
pub open spec fn taker_team(m: GameModel) -> int {
    ((m.taker->0).0 % 2) as int
}

/// Prime de belote revenant a l'equipe `team`.
pub open spec fn belote_bonus(m: GameModel, team: int) -> int {
    match m.belote_seat {
        Some(s) => if s.spec_team().0 == team {
            BELOTE_BONUS as int
        } else {
            0
        },
        None => 0,
    }
}

/// L'equipe qui a remporte les 8 plis, le cas echeant.
pub open spec fn capot_team(m: GameModel) -> Option<Team> {
    let tt = taker_team(m);
    if m.tricks_won[tt] == 8 {
        Some(Team(tt as u8))
    } else if m.tricks_won[1 - tt] == 8 {
        Some(Team((1 - tt) as u8))
    } else {
        None
    }
}

/// Total servant a juger le contrat : plis (ou capot) + belote.
pub open spec fn contract_total(m: GameModel, team: int) -> int {
    (match capot_team(m) {
        Some(t) => if t.0 == team {
            CAPOT_POINTS as int
        } else {
            0
        },
        None => m.card_points[team] as int,
    }) + belote_bonus(m, team)
}

/// Ce que gagnent les defenseurs quand le preneur chute.
pub open spec fn fall_base(m: GameModel) -> int {
    if capot_team(m) == Some(Team((1 - taker_team(m)) as u8)) {
        CAPOT_POINTS as int
    } else {
        DEAL_TOTAL as int
    }
}

/// Les points attribues aux equipes du preneur et de la defense, dans cet
/// ordre, puis la cagnotte reportee.
pub open spec fn deal_outcome(m: GameModel) -> (int, int, int) {
    let tt = taker_team(m);
    let dt = 1 - tt;
    if contract_total(m, tt) > contract_total(m, dt) {
        (contract_total(m, tt) + m.carry_in, contract_total(m, dt), 0)
    } else if contract_total(m, tt) < contract_total(m, dt) {
        (belote_bonus(m, tt), fall_base(m) + belote_bonus(m, dt) + m.carry_in, 0)
    } else {
        (0, contract_total(m, dt), contract_total(m, tt) + m.carry_in)
    }
}

/// Le decompte peut se faire sans depassement de capacite.
pub open spec fn score_safe(m: GameModel) -> bool {
    let o = deal_outcome(m);
    &&& m.taker is Some
    &&& m.trump is Some
    &&& contract_total(m, 0) <= u16::MAX
    &&& contract_total(m, 1) <= u16::MAX
    &&& o.0 <= u16::MAX
    &&& o.1 <= u16::MAX
    &&& o.2 <= u16::MAX
}

/// Le decompte d'une donne jouee.
pub open spec fn spec_score_deal(m: GameModel) -> DealScore {
    let tt = taker_team(m);
    let dt = 1 - tt;
    let o = deal_outcome(m);
    DealScore {
        points: if tt == 0 {
            [o.0 as u16, o.1 as u16]
        } else {
            [o.1 as u16, o.0 as u16]
        },
        raw: [m.card_points[0], m.card_points[1]],
        taker: m.taker->0,
        trump: m.trump->0,
        belote: m.belote_seat,
        capot: capot_team(m),
        contract_made: contract_total(m, tt) > contract_total(m, dt),
        litige: contract_total(m, tt) == contract_total(m, dt),
        carry_out: o.2 as u16,
    }
}

/// Le decompte de `state` tient-il sur 16 bits ? Calcule en 32 bits, sans
/// rien compter.
pub fn score_fits(state: &GameState) -> (b: bool)
    ensures
        b == score_safe(state@),
{
    let ghost m = state@;
    let taker = match state.taker {
        Some(t) => t,
        None => {
            return false;
        },
    };
    if state.trump.is_none() {
        return false;
    }
    let tt: usize = (taker.0 % 2) as usize;
    let dt: usize = 1 - tt;
    assert(tt == taker_team(m));
    let capot_tt = state.tricks_won[tt] == 8;
    let capot_dt = !capot_tt && state.tricks_won[dt] == 8;
    let belote_tt: u32 = match state.belote_seat {
        Some(s) => if (s.0 % 2) as usize == tt {
            BELOTE_BONUS as u32
        } else {
            0
        },
        None => 0,
    };
    let belote_dt: u32 = match state.belote_seat {
        Some(s) => if (s.0 % 2) as usize == dt {
            BELOTE_BONUS as u32
        } else {
            0
        },
        None => 0,
    };
    assert(belote_tt == belote_bonus(m, tt as int));
    assert(belote_dt == belote_bonus(m, dt as int));
    let base_tt: u32 = if capot_tt {
        CAPOT_POINTS as u32
    } else if capot_dt {
        0
    } else {
        state.card_points[tt] as u32
    };
    let base_dt: u32 = if capot_dt {
        CAPOT_POINTS as u32
    } else if capot_tt {
        0
    } else {
        state.card_points[dt] as u32
    };
    let total_tt = base_tt + belote_tt;
    let total_dt = base_dt + belote_dt;
    assert(total_tt == contract_total(m, tt as int));
    assert(total_dt == contract_total(m, dt as int));
    let carry = state.carry_in as u32;
    let fall: u32 = if capot_dt {
        CAPOT_POINTS as u32
    } else {
        DEAL_TOTAL as u32
    };
    assert(fall == fall_base(m));
    let (o0, o1, o2): (u32, u32, u32) = if total_tt > total_dt {
        (total_tt + carry, total_dt, 0)
    } else if total_tt < total_dt {
        (belote_tt, fall + belote_dt + carry, 0)
    } else {
        (0, total_dt, total_tt + carry)
    };
    assert(o0 == deal_outcome(m).0 && o1 == deal_outcome(m).1 && o2 == deal_outcome(m).2);
    total_tt <= 65535 && total_dt <= 65535 && o0 <= 65535 && o1 <= 65535 && o2 <= 65535
}

/// Compte la donne une fois les 8 plis joues.
pub fn score_deal(state: &GameState) -> (score: DealScore)
    requires
        score_safe(state@),
    ensures
        score == spec_score_deal(state@),
{
    let ghost m = state@;
    let taker = state.taker.unwrap();
    let trump = state.trump.unwrap();
    let tt = taker.team().index();
    let dt = 1 - tt;
    let raw0 = state.card_points[0];
    let raw1 = state.card_points[1];

    let capot = if state.tricks_won[tt] == 8 {
        Some(taker.team())
    } else if state.tricks_won[dt] == 8 {
        Some(taker.team().other())
    } else {
        None
    };
    assert(capot == capot_team(m));

    let belote0: u16 = match state.belote_seat {
        Some(s) => if s.team().index() == 0 {
            BELOTE_BONUS
        } else {
            0
        },
        None => 0,
    };
    let belote1: u16 = match state.belote_seat {
        Some(s) => if s.team().index() == 1 {
            BELOTE_BONUS
        } else {
            0
        },
        None => 0,
    };

    // Totaux servant a juger le contrat : plis (ou capot) + belote.
    let (base0, base1): (u16, u16) = match capot {
        Some(team) => if team.index() == 0 {
            (CAPOT_POINTS, 0)
        } else {
            (0, CAPOT_POINTS)
        },
        None => (raw0, raw1),
    };
    let total0: u16 = base0 + belote0;
    let total1: u16 = base1 + belote1;
    assert(total0 == contract_total(m, 0) && total1 == contract_total(m, 1));
    let (total_tt, total_dt) = if tt == 0 {
        (total0, total1)
    } else {
        (total1, total0)
    };
    let (belote_tt, belote_dt) = if tt == 0 {
        (belote0, belote1)
    } else {
        (belote1, belote0)
    };

    let mut p_tt: u16 = 0;
    let mut p_dt: u16 = 0;
    let mut contract_made = false;
    let mut litige = false;
    let mut carry_out: u16 = 0;

    if total_tt > total_dt {
        // Contrat rempli : chacun garde ses points, la cagnotte va au preneur.
        contract_made = true;
        p_tt = total_tt + state.carry_in;
        p_dt = total_dt;
    } else if total_tt < total_dt {
        // Dedans : les defenseurs ramassent tout, la belote reste a son detenteur.
        let base = if capot == Some(taker.team().other()) {
            CAPOT_POINTS
        } else {
            DEAL_TOTAL
        };
        p_tt = belote_tt;
        p_dt = base + belote_dt + state.carry_in;
    } else {
        // Litige : les points du preneur partent en cagnotte.
        litige = true;
        p_tt = 0;
        p_dt = total_dt;
        carry_out = total_tt + state.carry_in;
    }

    let points = if tt == 0 {
        [p_tt, p_dt]
    } else {
        [p_dt, p_tt]
    };

    DealScore {
        points,
        raw: [raw0, raw1],
        taker,
        trump,
        belote: state.belote_seat,
        capot,
        contract_made,
        litige,
        carry_out,
    }
}

} // verus!

verus! {

// ---------------------------------------------------------------------------
// Application des actions
// ---------------------------------------------------------------------------

/// Position de `s` dans l'ordre de distribution, qui commence a gauche du donneur.
pub open spec fn deal_position(dealer: Seat, s: Seat) -> int {
    (s.0 as int - dealer.0 as int - 1) % 4
}

/// Debut, dans la reserve, du complement destine a `s`.
pub open spec fn extra_offset(dealer: Seat, taker: Seat, s: Seat) -> int {
    let k = deal_position(dealer, s);
    3 * k - if deal_position(dealer, taker) < k {
        1int
    } else {
        0int
    }
}

/// Taille du complement pris dans la reserve : le preneur n'en prend que 2,
/// puisqu'il a deja la retournee.
pub open spec fn extra_count(taker: Seat, s: Seat) -> int {
    if s == taker {
        2
    } else {
        3
    }
}

/// Le complement de distribution de chaque siege.
pub open spec fn spec_extra(m: GameModel, taker: Seat) -> Seq<Seq<Card>> {
    Seq::new(
        4,
        |i: int|
            {
                let s = Seat(i as u8);
                let off = extra_offset(m.dealer, taker, s);
                let part = m.stock.subrange(off, off + extra_count(taker, s));
                if s == taker {
                    part.push(m.upcard->0)
                } else {
                    part
                }
            },
    )
}

/// La main contient roi et dame de la couleur `suit`.
pub open spec fn holds_belote(cards: Seq<Card>, suit: Suit) -> bool {
    cards.contains(Card { suit, rank: Rank::King }) && cards.contains(
        Card { suit, rank: Rank::Queen },
    )
}

/// Le premier siege dont la main complete contient roi et dame d'atout.
pub open spec fn belote_holder(hands: Seq<Seq<Card>>, suit: Suit) -> Option<Seat> {
    if holds_belote(hands[0], suit) {
        Some(Seat(0))
    } else if holds_belote(hands[1], suit) {
        Some(Seat(1))
    } else if holds_belote(hands[2], suit) {
        Some(Seat(2))
    } else if holds_belote(hands[3], suit) {
        Some(Seat(3))
    } else {
        None
    }
}

/// Les evenements d'une prise.
pub open spec fn spec_take_events(m: GameModel, seat: Seat, suit: Suit, from_upcard: bool) -> Seq<
    EventModel,
> {
    let extra = spec_extra(m, seat);
    seq![
        EventModel::Took { seat, suit, from_upcard },
        EventModel::DealCompleted {
            extra,
            belote_seat: belote_holder(Seq::new(4, |i: int| m.hands[i] + extra[i]), suit),
        },
    ]
}

/// Apres une prise, la belote revient au siege dont la main finale (cartes
/// distribuees et complement) tient le roi et la dame d'atout ; s'il n'y en a
/// pas, a personne.
pub proof fn lemma_take_belote(m: GameModel, seat: Seat, suit: Suit, from_upcard: bool)
    ensures
        ({
            let evs = spec_take_events(m, seat, suit, from_upcard);
            let king = Card { suit, rank: Rank::King };
            let queen = Card { suit, rank: Rank::Queen };
            &&& evs.len() == 2
            &&& evs[1] is DealCompleted
            &&& evs[1]->belote_seat matches Some(s) ==> 0 <= s.0 < 4 && (m.hands[s.0 as int]
                + evs[1]->extra[s.0 as int]).contains(king) && (m.hands[s.0 as int]
                + evs[1]->extra[s.0 as int]).contains(queen)
            &&& evs[1]->belote_seat is None ==> forall|k: int|
                0 <= k < 4 ==> !((#[trigger] (m.hands[k] + evs[1]->extra[k])).contains(king) && (
                m.hands[k] + evs[1]->extra[k]).contains(queen))
        }),
{
    let extra = spec_extra(m, seat);
    let finals = Seq::new(4, |i: int| m.hands[i] + extra[i]);
    assert(finals[0] == m.hands[0] + extra[0]);
    assert(finals[1] == m.hands[1] + extra[1]);
    assert(finals[2] == m.hands[2] + extra[2]);
    assert(finals[3] == m.hands[3] + extra[3]);
}

/// La prise peut se faire sans incident.
pub open spec fn take_safe(m: GameModel, seat: Seat) -> bool {
    &&& m.upcard is Some
    &&& m.stock.len() == 11
    &&& seat.valid()
}

/// La carte annonce-t-elle la belote ?
pub open spec fn announces_belote(m: GameModel, seat: Seat, card: Card) -> bool {
    &&& m.belote_seat == Some(seat)
    &&& card.suit == m.trump->0
    &&& (card.rank == Rank::King || card.rank == Rank::Queen)
}

/// L'etat apres l'eventuelle annonce de belote et la pose de la carte.
pub open spec fn after_play(m: GameModel, seat: Seat, card: Card) -> GameModel {
    let w1 = if announces_belote(m, seat, card) {
        step(m, EventModel::BeloteShown { seat, complete: m.belote_shown == 1 })
    } else {
        m
    };
    step(w1, EventModel::Played { seat, card })
}

/// Le ramassage du pli complet dans l'etat `w`.
pub open spec fn trick_taken_event(w: GameModel) -> EventModel {
    let trump = w.trump->0;
    let last = w.tricks_played == 7;
    EventModel::TrickTaken {
        winner: spec_trick_winner(w.trick, trump)->0,
        points: (spec_trick_points(w.trick, trump) + if last {
            LAST_TRICK_BONUS as int
        } else {
            0
        }) as u16,
        last,
    }
}

/// Les evenements produits par la pose d'une carte.
pub open spec fn spec_play_events(m: GameModel, seat: Seat, card: Card) -> Seq<EventModel> {
    let e1: Seq<EventModel> = if announces_belote(m, seat, card) {
        seq![EventModel::BeloteShown { seat, complete: m.belote_shown == 1 }]
    } else {
        Seq::empty()
    };
    let w2 = after_play(m, seat, card);
    let e2 = e1.push(EventModel::Played { seat, card });
    if w2.trick.len() == 4 {
        let tt = trick_taken_event(w2);
        let w3 = step(w2, tt);
        if w2.tricks_played == 7 {
            e2.push(tt).push(EventModel::Scored(spec_score_deal(w3)))
        } else {
            e2.push(tt)
        }
    } else {
        e2
    }
}

/// La pose de la carte peut se faire sans incident.
pub open spec fn play_safe(m: GameModel, seat: Seat, card: Card) -> bool {
    let w2 = after_play(m, seat, card);
    &&& announces_belote(m, seat, card) ==> m.belote_shown < 255
    &&& w2.trick.len() == 4 ==> {
        let tt = trick_taken_event(w2);
        &&& reduce_safe(w2, tt)
        &&& w2.tricks_played == 7 ==> score_safe(step(w2, tt))
    }
}

/// Poser la carte se fait sans depassement jusqu'au ramassage du pli ; seul
/// le decompte de la donne, apres la derniere carte, reste a verifier.
pub open spec fn play_prepared(m: GameModel, seat: Seat, card: Card) -> bool {
    let w2 = after_play(m, seat, card);
    &&& announces_belote(m, seat, card) ==> m.belote_shown < 255
    &&& w2.trick.len() == 4 ==> reduce_safe(w2, trick_taken_event(w2))
}

/// Ce que produit une action : les evenements, ou la raison du refus.
pub open spec fn spec_apply(m: GameModel, seat: Seat, action: Action) -> Result<
    Seq<EventModel>,
    RuleError,
> {
    if m.is_over() {
        Err(RuleError::DealOver)
    } else if m.turn != seat {
        Err(RuleError::NotYourTurn)
    } else {
        match action {
            Action::Pass => {
                if !(m.phase == Phase::Bidding1 || m.phase == Phase::Bidding2) {
                    Err(RuleError::WrongPhase { phase: m.phase })
                } else {
                    let w = step(m, EventModel::Passed { seat });
                    if w.phase == Phase::Bidding2 && w.passes == 4 {
                        Ok(seq![EventModel::Passed { seat }, EventModel::Redeal])
                    } else {
                        Ok(seq![EventModel::Passed { seat }])
                    }
                }
            },
            Action::Take => {
                if m.phase != Phase::Bidding1 {
                    Err(RuleError::WrongPhase { phase: m.phase })
                } else {
                    Ok(spec_take_events(m, seat, m.upcard->0.suit, true))
                }
            },
            Action::ChooseTrump { suit } => {
                if m.phase != Phase::Bidding2 {
                    Err(RuleError::WrongPhase { phase: m.phase })
                } else if suit == m.upcard->0.suit {
                    Err(RuleError::TrumpMustDiffer)
                } else {
                    Ok(spec_take_events(m, seat, suit, false))
                }
            },
            Action::Play { card } => {
                if m.phase != Phase::Playing {
                    Err(RuleError::WrongPhase { phase: m.phase })
                } else if !m.hands[seat.0 as int].contains(card) {
                    Err(RuleError::CardNotInHand)
                } else if !spec_legal_moves(m, seat).contains(card) {
                    Err(RuleError::IllegalCard)
                } else {
                    Ok(spec_play_events(m, seat, card))
                }
            },
        }
    }
}

/// L'action peut etre traitee sans incident (ni depassement de capacite, ni
/// carte retournee absente, ni siege hors de la table).
pub open spec fn apply_safe(m: GameModel, seat: Seat, action: Action) -> bool {
    !m.is_over() && m.turn == seat ==> match action {
        Action::Pass => (m.phase == Phase::Bidding1 || m.phase == Phase::Bidding2) ==> m.passes
            < 255,
        Action::Take => m.phase == Phase::Bidding1 ==> take_safe(m, seat),
        Action::ChooseTrump { suit } => m.phase == Phase::Bidding2 ==> {
            &&& m.upcard is Some
            &&& suit != m.upcard->0.suit ==> take_safe(m, seat)
        },
        Action::Play { card } => m.phase == Phase::Playing ==> {
            &&& seat.valid()
            &&& spec_legal_moves(m, seat).contains(card) ==> play_safe(m, seat, card)
        },
    }
}

pub(crate) fn contains_card(cards: &[Card], c: Card) -> (b: bool)
    ensures
        b == cards@.contains(c),
{
    let mut i: usize = 0;
    while i < cards.len()
        invariant
            i <= cards@.len(),
            forall|k: int| 0 <= k < i ==> cards@[k] != c,
        decreases cards@.len() - i,
    {
        if cards[i] == c {
            assert(cards@[i as int] == c);
            return true;
        }
        i += 1;
    }
    false
}

fn holds_belote_in(hand: &[Card], extra: &[Card], suit: Suit) -> (b: bool)
    ensures
        b == holds_belote(hand@ + extra@, suit),
{
    let full = concat_cards(hand, extra);
    contains_card(full.as_slice(), Card::new(suit, Rank::King)) && contains_card(
        full.as_slice(),
        Card::new(suit, Rank::Queen),
    )
}

fn append_range(dst: &mut Vec<Card>, src: &[Card], from: usize, to: usize)
    requires
        from <= to <= src@.len(),
    ensures
        final(dst)@ == old(dst)@ + src@.subrange(from as int, to as int),
{
    let mut i = from;
    while i < to
        invariant
            from <= i <= to,
            to <= src@.len(),
            dst@ == old(dst)@ + src@.subrange(from as int, i as int),
        decreases to - i,
    {
        dst.push(src[i]);
        i += 1;
        assert(dst@ =~= old(dst)@ + src@.subrange(from as int, i as int));
    }
}

/// Prise : l'atout est fixe, le preneur ramasse la retournee, puis chacun est
/// complete a 8 cartes.
fn take_events(state: &GameState, seat: Seat, suit: Suit, from_upcard: bool) -> (evs: Vec<Event>)
    requires
        take_safe(state@, seat),
    ensures
        events_view_eq(evs@, spec_take_events(state@, seat, suit, from_upcard)),
{
    let ghost m = state@;
    let upcard = state.upcard.unwrap();
    let mut extra: [Vec<Card>; 4] = [Vec::new(), Vec::new(), Vec::new(), Vec::new()];
    let mut cursor: usize = 0;
    let mut s = state.dealer.next();
    let mut k: usize = 0;
    while k < 4
        invariant
            k <= 4,
            take_safe(m, seat),
            state@ == m,
            s == Seat(((state.dealer.0 as int + 1 + k) % 4) as u8),
            cursor == 3 * k - if deal_position(m.dealer, seat) < k {
                1int
            } else {
                0int
            },
            forall|i: int|
                0 <= i < 4 ==> #[trigger] extra[i]@ == if deal_position(m.dealer, Seat(i as u8))
                    < k {
                    m.stock.subrange(
                        extra_offset(m.dealer, seat, Seat(i as u8)),
                        extra_offset(m.dealer, seat, Seat(i as u8)) + extra_count(
                            seat,
                            Seat(i as u8),
                        ),
                    )
                } else {
                    Seq::empty()
                },
        decreases 4 - k,
    {
        // Le preneur a deja la retournee : il ne prend que 2 cartes en reserve.
        let count: usize = if s == seat {
            2
        } else {
            3
        };
        assert(deal_position(m.dealer, s) == k);
        let ghost before = extra;
        append_range(&mut extra[s.index()], state.stock.as_slice(), cursor, cursor + count);
        proof {
            assert forall|i: int| 0 <= i < 4 && i != s.0 implies #[trigger] extra[i]@
                == before[i]@ by {}
            assert forall|i: int| 0 <= i < 4 && i != s.0 implies #[trigger] deal_position(
                m.dealer,
                Seat(i as u8),
            ) != k by {}
        }
        cursor = cursor + count;
        s = s.next();
        k += 1;
    }
    let ti = seat.index();
    extra[ti].push(upcard);
    proof {
        assert forall|i: int| 0 <= i < 4 implies #[trigger] extra[i]@ == spec_extra(m, seat)[i] by {
            assert(0 <= deal_position(m.dealer, Seat(i as u8)) < 4);
        }
        assert(hands_view(extra) =~= spec_extra(m, seat));
    }

    // Detenteur de la belote : roi ET dame d'atout dans la meme main finale.
    let belote_seat = if holds_belote_in(state.hands[0].as_slice(), extra[0].as_slice(), suit) {
        Some(Seat(0))
    } else if holds_belote_in(state.hands[1].as_slice(), extra[1].as_slice(), suit) {
        Some(Seat(1))
    } else if holds_belote_in(state.hands[2].as_slice(), extra[2].as_slice(), suit) {
        Some(Seat(2))
    } else if holds_belote_in(state.hands[3].as_slice(), extra[3].as_slice(), suit) {
        Some(Seat(3))
    } else {
        None
    };
    let ghost full = Seq::new(4, |i: int| m.hands[i] + spec_extra(m, seat)[i]);
    assert(full[0] == m.hands[0] + extra[0]@);
    assert(full[1] == m.hands[1] + extra[1]@);
    assert(full[2] == m.hands[2] + extra[2]@);
    assert(full[3] == m.hands[3] + extra[3]@);
    let mut evs: Vec<Event> = Vec::new();
    evs.push(Event::Took { seat, suit, from_upcard });
    evs.push(Event::DealCompleted { extra, belote_seat });
    evs
}

/// Les deux journaux ont les memes evenements, au modele pres.
pub open spec fn events_view_eq(evs: Seq<Event>, models: Seq<EventModel>) -> bool {
    &&& evs.len() == models.len()
    &&& forall|i: int| 0 <= i < evs.len() ==> #[trigger] evs[i]@ == models[i]
}

} // verus!

verus! {

impl GameState {
    /// Copie verifiee de l'etat : la copie a le meme modele que l'etat copie.
    pub fn duplicate(&self) -> (r: GameState)
        ensures
            r@ == self@,
    {
        let r = GameState {
            phase: self.phase,
            dealer: self.dealer,
            turn: self.turn,
            hands: [
                copy_slice(self.hands[0].as_slice()),
                copy_slice(self.hands[1].as_slice()),
                copy_slice(self.hands[2].as_slice()),
                copy_slice(self.hands[3].as_slice()),
            ],
            upcard: self.upcard,
            stock: copy_slice(self.stock.as_slice()),
            trump: self.trump,
            taker: self.taker,
            passes: self.passes,
            trick: copy_slice(self.trick.as_slice()),
            trick_leader: self.trick_leader,
            tricks_played: self.tricks_played,
            tricks_won: [self.tricks_won[0], self.tricks_won[1]],
            card_points: [self.card_points[0], self.card_points[1]],
            belote_seat: self.belote_seat,
            belote_shown: self.belote_shown,
            carry_in: self.carry_in,
            score: self.score,
        };
        assert(r@.hands =~= self@.hands);
        assert(r@.tricks_won =~= self@.tricks_won);
        assert(r@.card_points =~= self@.card_points);
        r
    }
}

/// Applique l'evenement a l'etat de travail et l'ajoute au journal, pour que
/// l'evenement suivant soit calcule sur un etat deja a jour.
fn emit(work: &mut GameState, events: &mut Vec<Event>, ev: Event)
    requires
        reduce_safe(old(work)@, ev@),
    ensures
        final(work)@ == step(old(work)@, ev@),
        final(events)@ == old(events)@.push(ev),
{
    reduce(work, &ev);
    events.push(ev);
}

fn play_events(state: &GameState, seat: Seat, card: Card) -> (evs: Vec<Event>)
    requires
        state.phase == Phase::Playing,
        state.trump is Some,
        seat.valid(),
        play_safe(state@, seat, card),
    ensures
        events_view_eq(evs@, spec_play_events(state@, seat, card)),
{
    let ghost m = state@;
    let trump = state.trump.unwrap();
    let mut work = state.duplicate();
    let mut events: Vec<Event> = Vec::new();

    // Belote / rebelote : annoncee en posant le roi ou la dame d'atout.
    let announce = match work.belote_seat {
        Some(b) => b == seat && card.suit == trump && (card.rank == Rank::King || card.rank
            == Rank::Queen),
        None => false,
    };
    if announce {
        let complete = work.belote_shown == 1;
        emit(&mut work, &mut events, Event::BeloteShown { seat, complete });
    }
    emit(&mut work, &mut events, Event::Played { seat, card });
    let ghost w2 = work@;
    assert(w2 == after_play(m, seat, card));

    if work.trick.len() == 4 {
        let last = work.tricks_played == 7;
        proof {
            lemma_trick_winner(w2.trick, trump);
            lemma_points_sum_bounded(trick_cards(w2.trick), trump);
        }
        let winner = trick_winner(work.trick.as_slice(), trump).unwrap();
        let bonus: u16 = if last {
            LAST_TRICK_BONUS
        } else {
            0
        };
        let points = trick_points(work.trick.as_slice(), trump) + bonus;
        assert(Event::TrickTaken { winner, points, last }@ == trick_taken_event(w2));
        emit(&mut work, &mut events, Event::TrickTaken { winner, points, last });
        if last {
            let score = score_deal(&work);
            emit(&mut work, &mut events, Event::Scored(score));
        }
    }
    events
}

/// Poser `card` pour `seat` se fait-il sans depassement, decompte final
/// compris ? Rejoue la pose et le ramassage sur une copie de l'etat.
pub fn play_fits(state: &GameState, seat: Seat, card: Card) -> (b: bool)
    requires
        state.phase == Phase::Playing,
        state.trump is Some,
        seat.valid(),
        play_prepared(state@, seat, card),
    ensures
        b == play_safe(state@, seat, card),
{
    let ghost m = state@;
    let trump = state.trump.unwrap();
    let mut work = state.duplicate();
    let mut events: Vec<Event> = Vec::new();
    let announce = match work.belote_seat {
        Some(b) => b == seat && card.suit == trump && (card.rank == Rank::King || card.rank
            == Rank::Queen),
        None => false,
    };
    if announce {
        let complete = work.belote_shown == 1;
        emit(&mut work, &mut events, Event::BeloteShown { seat, complete });
    }
    emit(&mut work, &mut events, Event::Played { seat, card });
    let ghost w2 = work@;
    assert(w2 == after_play(m, seat, card));
    if work.trick.len() == 4 && work.tricks_played == 7 {
        proof {
            lemma_trick_winner(w2.trick, trump);
            lemma_points_sum_bounded(trick_cards(w2.trick), trump);
        }
        let winner = trick_winner(work.trick.as_slice(), trump).unwrap();
        let points = trick_points(work.trick.as_slice(), trump) + LAST_TRICK_BONUS;
        assert(Event::TrickTaken { winner, points, last: true }@ == trick_taken_event(w2));
        emit(&mut work, &mut events, Event::TrickTaken { winner, points, last: true });
        score_fits(&work)
    } else {
        true
    }
}

/// Valide une action et renvoie les evenements qu'elle produit.
/// N'altere jamais `state` : l'appelant les passe ensuite a `reduce`.
pub fn apply(state: &GameState, seat: Seat, action: Action) -> (res: Result<Vec<Event>, RuleError>)
    requires
        apply_safe(state@, seat, action),
    ensures
        match (res, spec_apply(state@, seat, action)) {
            (Ok(evs), Ok(models)) => events_view_eq(evs@, models),
            (Err(e), Err(f)) => e == f,
            _ => false,
        },
{
    if state.is_over() {
        return Err(RuleError::DealOver);
    }
    if state.turn != seat {
        return Err(RuleError::NotYourTurn);
    }
    match action {
        Action::Pass => {
            if !(state.phase == Phase::Bidding1 || state.phase == Phase::Bidding2) {
                return Err(RuleError::WrongPhase { phase: state.phase });
            }
            let mut work = state.duplicate();
            let mut events: Vec<Event> = Vec::new();
            emit(&mut work, &mut events, Event::Passed { seat });
            if work.phase == Phase::Bidding2 && work.passes == 4 {
                emit(&mut work, &mut events, Event::Redeal);
            }
            Ok(events)
        },
        Action::Take => {
            if state.phase != Phase::Bidding1 {
                return Err(RuleError::WrongPhase { phase: state.phase });
            }
            let suit = state.upcard.unwrap().suit;
            Ok(take_events(state, seat, suit, true))
        },
        Action::ChooseTrump { suit } => {
            if state.phase != Phase::Bidding2 {
                return Err(RuleError::WrongPhase { phase: state.phase });
            }
            let upcard = state.upcard.unwrap();
            if suit == upcard.suit {
                return Err(RuleError::TrumpMustDiffer);
            }
            Ok(take_events(state, seat, suit, false))
        },
        Action::Play { card } => {
            if state.phase != Phase::Playing {
                return Err(RuleError::WrongPhase { phase: state.phase });
            }
            if !contains_card(state.hand(seat), card) {
                return Err(RuleError::CardNotInHand);
            }
            let legal = legal_moves(state, seat);
            if !contains_card(legal.as_slice(), card) {
                return Err(RuleError::IllegalCard);
            }
            proof {
                lemma_legal_moves_in_hand(state@, seat, card);
            }
            Ok(play_events(state, seat, card))
        },
    }
}

} // verus!

verus! {

// ---------------------------------------------------------------------------
// Distribution
// ---------------------------------------------------------------------------

/// Les mains de la distribution initiale : 3 puis 2 cartes a chacun, en
/// commencant a gauche du donneur.
pub open spec fn spec_dealt_hands(dealer: Seat, deck: Seq<Card>) -> Seq<Seq<Card>> {
    Seq::new(
        4,
        |i: int|
            {
                let k = deal_position(dealer, Seat(i as u8));
                deck.subrange(3 * k, 3 * k + 3) + deck.subrange(12 + 2 * k, 12 + 2 * k + 2)
            },
    )
}

/// L'evenement de distribution d'un paquet deja melange.
pub open spec fn spec_deal(dealer: Seat, carry_in: u16, deck: Seq<Card>) -> EventModel {
    EventModel::Dealt {
        dealer,
        hands: spec_dealt_hands(dealer, deck),
        upcard: deck[20],
        stock: deck.subrange(21, 32),
        carry_in,
    }
}

/// Distribue un paquet de 32 cartes dans l'ordre ou il se presente : 3 puis 2
/// cartes a chacun, une carte retournee, 11 cartes en reserve pour le
/// complement d'apres encheres.
pub fn deal_from_deck(dealer: Seat, carry_in: u16, deck: &[Card]) -> (e: Event)
    requires
        deck@.len() == 32,
    ensures
        e@ == spec_deal(dealer, carry_in, deck@),
{
    let mut hands: [Vec<Card>; 4] = [Vec::new(), Vec::new(), Vec::new(), Vec::new()];
    let mut cursor: usize = 0;
    let mut round: usize = 0;
    while round < 2
        invariant
            round <= 2,
            deck@.len() == 32,
            cursor == if round == 0 {
                0usize
            } else if round == 1 {
                12usize
            } else {
                20usize
            },
            forall|i: int|
                0 <= i < 4 ==> #[trigger] hands[i]@ == {
                    let k = deal_position(dealer, Seat(i as u8));
                    if round == 0 {
                        Seq::empty()
                    } else if round == 1 {
                        deck@.subrange(3 * k, 3 * k + 3)
                    } else {
                        deck@.subrange(3 * k, 3 * k + 3) + deck@.subrange(
                            12 + 2 * k,
                            12 + 2 * k + 2,
                        )
                    }
                },
        decreases 2 - round,
    {
        let batch: usize = if round == 0 {
            3
        } else {
            2
        };
        let mut seat = dealer.next();
        let mut k: usize = 0;
        while k < 4
            invariant
                k <= 4,
                round < 2,
                deck@.len() == 32,
                batch == if round == 0 {
                    3usize
                } else {
                    2usize
                },
                seat == Seat(((dealer.0 as int + 1 + k) % 4) as u8),
                cursor == (if round == 0 {
                    0int
                } else {
                    12int
                }) + batch * k,
                forall|i: int|
                    0 <= i < 4 ==> #[trigger] hands[i]@ == {
                        let p = deal_position(dealer, Seat(i as u8));
                        let first: Seq<Card> = if round == 0 {
                            Seq::empty()
                        } else {
                            deck@.subrange(3 * p, 3 * p + 3)
                        };
                        let start = (if round == 0 {
                            0int
                        } else {
                            12int
                        }) + batch * p;
                        if p < k {
                            first + deck@.subrange(start, start + batch)
                        } else {
                            first
                        }
                    },
            decreases 4 - k,
        {
            assert(deal_position(dealer, seat) == k);
            let ghost before = hands;
            append_range(&mut hands[seat.index()], deck, cursor, cursor + batch);
            proof {
                assert forall|i: int| 0 <= i < 4 && i != seat.0 implies #[trigger] hands[i]@
                    == before[i]@ by {}
                assert forall|i: int| 0 <= i < 4 && i != seat.0 implies #[trigger] deal_position(
                    dealer,
                    Seat(i as u8),
                ) != k by {}
                assert(hands[seat.0 as int]@ =~= before[seat.0 as int]@ + deck@.subrange(
                    cursor as int,
                    cursor + batch,
                ));
                if round == 0 {
                    assert(before[seat.0 as int]@ + deck@.subrange(cursor as int, cursor + batch)
                        =~= deck@.subrange(cursor as int, cursor + batch));
                }
            }
            cursor = cursor + batch;
            seat = seat.next();
            k += 1;
        }
        proof {
            assert forall|i: int| 0 <= i < 4 implies 0 <= #[trigger] deal_position(
                dealer,
                Seat(i as u8),
            ) < 4 by {}
            if round == 0 {
                assert forall|i: int| 0 <= i < 4 implies #[trigger] hands[i]@ == deck@.subrange(
                    3 * deal_position(dealer, Seat(i as u8)),
                    3 * deal_position(dealer, Seat(i as u8)) + 3,
                ) by {
                    assert(Seq::<Card>::empty() + deck@.subrange(
                        3 * deal_position(dealer, Seat(i as u8)),
                        3 * deal_position(dealer, Seat(i as u8)) + 3,
                    ) =~= deck@.subrange(
                        3 * deal_position(dealer, Seat(i as u8)),
                        3 * deal_position(dealer, Seat(i as u8)) + 3,
                    ));
                }
            }
        }
        round += 1;
    }
    let upcard = deck[cursor];
    cursor += 1;
    let mut stock: Vec<Card> = Vec::new();
    append_range(&mut stock, deck, cursor, 32);
    assert(stock@ =~= deck@.subrange(21, 32));
    assert(hands_view(hands) =~= spec_dealt_hands(dealer, deck@));
    Event::Dealt { dealer, hands, upcard, stock, carry_in }
}

} // verus!

verus! {

/// Le generateur pseudo-aleatoire avec lequel on melange le paquet.
#[verifier::external_type_specification]
#[verifier::external_body]
pub struct ExChaCha8Rng(ChaCha8Rng);

/// Melange en place par `rand::seq::SliceRandom::shuffle` : le resultat est
/// une permutation des cartes d'entree, dont l'ordre depend du generateur.
#[verifier::external_body]
fn shuffle_cards(cards: &mut Vec<Card>, rng: &mut ChaCha8Rng)
    ensures
        final(cards)@.to_multiset() == old(cards)@.to_multiset(),
        final(cards)@.len() == old(cards)@.len(),
{
    cards.shuffle(rng);
}

/// Melange et distribue : 3 puis 2 cartes a chacun, une carte retournee,
/// 11 cartes en reserve pour le complement d'apres encheres.
pub fn start_deal(dealer: Seat, carry_in: u16, rng: &mut ChaCha8Rng) -> (e: Event)
    ensures
        exists|deck: Seq<Card>|
            {
                &&& deck.len() == 32
                &&& deck.to_multiset() == spec_deck().to_multiset()
                &&& #[trigger] spec_deal(dealer, carry_in, deck) == e@
            },
{
    let mut deck = Card::deck();
    shuffle_cards(&mut deck, rng);
    let e = deal_from_deck(dealer, carry_in, deck.as_slice());
    assert(spec_deal(dealer, carry_in, deck@) == e@);
    e
}

} // verus!
