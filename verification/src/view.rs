//! Projection de l'etat pour un joueur donne.
//!
//! C'est la frontiere de confidentialite du jeu : un `PlayerView` ne contient
//! jamais les cartes des autres sieges, seulement leur nombre. Le serveur ne
//! doit envoyer au client que ce type (et `PublicEvent`), jamais `GameState`.

use vstd::prelude::*;

use crate::card::{Card, Suit};
use crate::rules::{legal_moves, lemma_legal_moves_in_hand, spec_legal_moves, trick_cards};
use crate::seqs::copy_slice;
use crate::state::{DealScore, GameModel, GameState, Phase, PlayedCard, Seat};

verus! {

#[derive(Debug, Clone, PartialEq, Eq)]
pub struct PlayerView {
    pub seat: Seat,
    pub phase: Phase,
    pub turn: Seat,
    pub dealer: Seat,
    pub taker: Option<Seat>,
    pub trump: Option<Suit>,
    pub upcard: Option<Card>,
    /// Ma main, en clair.
    pub hand: Vec<Card>,
    /// Nombre de cartes de chaque siege, y compris le mien.
    pub hand_sizes: [usize; 4],
    pub trick: Vec<PlayedCard>,
    pub trick_leader: Seat,
    pub tricks_played: u8,
    pub tricks_won: [u8; 2],
    pub card_points: [u16; 2],
    /// Vrai si je detiens roi + dame d'atout.
    pub belote_mine: bool,
    /// Ce que je peux poser maintenant ; vide si ce n'est pas mon tour.
    pub legal: Vec<Card>,
    pub carry_in: u16,
    pub score: Option<DealScore>,
}

/// `v` est la vue de l'etat `m` pour le siege `seat`.
pub open spec fn projected(m: GameModel, seat: Seat, v: PlayerView) -> bool {
    &&& v.seat == seat
    &&& v.phase == m.phase
    &&& v.turn == m.turn
    &&& v.dealer == m.dealer
    &&& v.taker == m.taker
    &&& v.trump == m.trump
    &&& v.upcard == m.upcard
    &&& v.hand@ == m.hands[seat.0 as int]
    &&& forall|i: int| 0 <= i < 4 ==> #[trigger] v.hand_sizes[i] == m.hands[i].len()
    &&& v.trick@ == m.trick
    &&& v.trick_leader == m.trick_leader
    &&& v.tricks_played == m.tricks_played
    &&& v.tricks_won@ == m.tricks_won
    &&& v.card_points@ == m.card_points
    &&& v.belote_mine == (m.belote_seat == Some(seat))
    &&& v.legal@ == spec_legal_moves(m, seat)
    &&& v.carry_in == m.carry_in
    &&& v.score == m.score
}

/// Construit la vue du siege `seat`.
pub fn project(state: &GameState, seat: Seat) -> (v: PlayerView)
    requires
        seat.valid(),
    ensures
        projected(state@, seat, v),
{
    let v = PlayerView {
        seat,
        phase: state.phase,
        turn: state.turn,
        dealer: state.dealer,
        taker: state.taker,
        trump: state.trump,
        upcard: state.upcard,
        hand: copy_slice(state.hand(seat)),
        hand_sizes: [
            state.hands[0].len(),
            state.hands[1].len(),
            state.hands[2].len(),
            state.hands[3].len(),
        ],
        trick: copy_slice(state.trick.as_slice()),
        trick_leader: state.trick_leader,
        tricks_played: state.tricks_played,
        tricks_won: [state.tricks_won[0], state.tricks_won[1]],
        card_points: [state.card_points[0], state.card_points[1]],
        belote_mine: match state.belote_seat {
            Some(b) => b == seat,
            None => false,
        },
        legal: legal_moves(state, seat),
        carry_in: state.carry_in,
        score: state.score,
    };
    assert(v.tricks_won@ =~= state@.tricks_won);
    assert(v.card_points@ =~= state@.card_points);
    v
}

/// Les cartes qu'une vue nomme : la main, les coups legaux, le pli en cours
/// et la carte retournee.
pub open spec fn view_cards(v: PlayerView) -> Seq<Card> {
    v.hand@ + v.legal@ + trick_cards(v.trick@) + match v.upcard {
        Some(c) => seq![c],
        None => Seq::empty(),
    }
}

/// Confidentialite : toute carte nommee par la vue d'un siege est dans sa
/// propre main, deja posee sur la table, ou retournee.
pub proof fn lemma_view_keeps_secrets(m: GameModel, seat: Seat, v: PlayerView, c: Card)
    requires
        seat.valid(),
        projected(m, seat, v),
        view_cards(v).contains(c),
    ensures
        m.hands[seat.0 as int].contains(c) || trick_cards(m.trick).contains(c) || m.upcard
            == Some(c),
{
    let k = choose|k: int| 0 <= k < view_cards(v).len() && view_cards(v)[k] == c;
    let a = v.hand@.len();
    let b = a + v.legal@.len();
    let t = b + trick_cards(v.trick@).len();
    if k < a {
        assert(v.hand@[k] == c);
    } else if k < b {
        assert(v.legal@[k - a] == c);
        assert(spec_legal_moves(m, seat).contains(c));
        lemma_legal_moves_in_hand(m, seat, c);
    } else if k < t {
        assert(trick_cards(m.trick)[k - b] == c);
    }
}

} // verus!
