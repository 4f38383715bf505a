//! Les faits de jeu. Le log d'`Event` est la seule source de verite : l'etat
//! s'obtient en les rejouant, ce qui donne l'historique, la reconnexion et la
//! reprise apres redemarrage sans code supplementaire.

use vstd::prelude::*;

use crate::card::{Card, Suit};
use crate::seqs::copy_slice;
use crate::state::{DealScore, Seat};

verus! {

#[derive(Debug, Clone, PartialEq, Eq)]
pub enum Event {
    /// Distribution initiale : 5 cartes par joueur (3 puis 2) et une retournee.
    Dealt { dealer: Seat, hands: [Vec<Card>; 4], upcard: Card, stock: Vec<Card>, carry_in: u16 },
    Passed { seat: Seat },
    /// Prise, au premier tour (sur la retournee) ou au second (couleur nommee).
    Took {
        seat: Seat,
        suit: Suit,
        /// Vrai si la carte retournee revient au preneur (premier tour).
        from_upcard: bool,
    },
    /// Complement de distribution : chacun monte a 8 cartes.
    DealCompleted { extra: [Vec<Card>; 4], belote_seat: Option<Seat> },
    /// Quatre passes aux deux tours : personne ne prend.
    Redeal,
    /// Roi ou dame d'atout pose par le detenteur de la belote.
    BeloteShown {
        seat: Seat,
        /// Vrai sur la seconde des deux cartes (la "rebelote").
        complete: bool,
    },
    Played { seat: Seat, card: Card },
    TrickTaken {
        winner: Seat,
        points: u16,
        /// Vrai pour le 8e pli (dix de der).
        last: bool,
    },
    Scored(DealScore),
}

/// Vue d'un `Event` destinee a un joueur donne : la distribution y est reduite
/// a la main du destinataire. C'est le seul type qui doit franchir le reseau.
#[derive(Debug, Clone, PartialEq, Eq)]
pub enum PublicEvent {
    Dealt {
        dealer: Seat,
        /// Uniquement la main du destinataire.
        hand: Vec<Card>,
        upcard: Card,
        hand_sizes: [usize; 4],
        carry_in: u16,
    },
    Passed { seat: Seat },
    Took { seat: Seat, suit: Suit, from_upcard: bool },
    DealCompleted {
        /// Uniquement les cartes recues par le destinataire.
        extra: Vec<Card>,
        /// Nombre de cartes recues par chaque siege, pour tenir les compteurs.
        extra_sizes: [usize; 4],
        /// Renseigne seulement si le destinataire detient la belote.
        belote_mine: bool,
    },
    Redeal,
    BeloteShown { seat: Seat, complete: bool },
    Played { seat: Seat, card: Card },
    TrickTaken { winner: Seat, points: u16, last: bool },
    Scored(DealScore),
}

/// `p` est la projection de `e` pour le siege `seat`.
pub open spec fn redacted(e: Event, seat: Seat, p: PublicEvent) -> bool {
    match e {
        Event::Dealt { dealer, hands, upcard, stock, carry_in } => {
            &&& p matches PublicEvent::Dealt {
                dealer: d,
                hand,
                upcard: u,
                hand_sizes,
                carry_in: c,
            }
            &&& d == dealer && u == upcard && c == carry_in
            &&& hand@ == hands[seat.0 as int]@
            &&& forall|i: int| 0 <= i < 4 ==> hand_sizes[i] == hands[i]@.len()
        },
        Event::Passed { seat: s } => p == PublicEvent::Passed { seat: s },
        Event::Took { seat: s, suit, from_upcard } => p == PublicEvent::Took {
            seat: s,
            suit,
            from_upcard,
        },
        Event::DealCompleted { extra, belote_seat } => {
            &&& p matches PublicEvent::DealCompleted { extra: mine, extra_sizes, belote_mine }
            &&& mine@ == extra[seat.0 as int]@
            &&& forall|i: int| 0 <= i < 4 ==> extra_sizes[i] == extra[i]@.len()
            &&& belote_mine == (belote_seat == Some(seat))
        },
        Event::Redeal => p == PublicEvent::Redeal,
        Event::BeloteShown { seat: s, complete } => p == PublicEvent::BeloteShown {
            seat: s,
            complete,
        },
        Event::Played { seat: s, card } => p == PublicEvent::Played { seat: s, card },
        Event::TrickTaken { winner, points, last } => p == PublicEvent::TrickTaken {
            winner,
            points,
            last,
        },
        Event::Scored(score) => p == PublicEvent::Scored(score),
    }
}

/// Les cartes qu'un evenement public nomme.
pub open spec fn public_cards(p: PublicEvent) -> Seq<Card> {
    match p {
        PublicEvent::Dealt { hand, upcard, .. } => hand@.push(upcard),
        PublicEvent::DealCompleted { extra, .. } => extra@,
        PublicEvent::Played { card, .. } => seq![card],
        _ => Seq::empty(),
    }
}

/// Les cartes d'un evenement qui reviennent en propre au siege `seat`.
pub open spec fn own_cards(e: Event, seat: Seat) -> Seq<Card> {
    match e {
        Event::Dealt { hands, .. } => hands[seat.0 as int]@,
        Event::DealCompleted { extra, .. } => extra[seat.0 as int]@,
        _ => Seq::empty(),
    }
}

/// Les cartes qu'un evenement montre a toute la table.
pub open spec fn shown_cards(e: Event) -> Seq<Card> {
    match e {
        Event::Dealt { upcard, .. } => seq![upcard],
        Event::Played { card, .. } => seq![card],
        _ => Seq::empty(),
    }
}

impl Event {
    /// Projette un evenement pour un siege. Toute la confidentialite du jeu
    /// repose sur cette fonction : rien d'autre ne doit etre emis au client.
    pub fn redact(&self, seat: Seat) -> (p: PublicEvent)
        requires
            (self is Dealt || self is DealCompleted) ==> seat.valid(),
        ensures
            redacted(*self, seat, p),
    {
        match self {
            Event::Dealt { dealer, hands, upcard, carry_in, .. } => PublicEvent::Dealt {
                dealer: *dealer,
                hand: copy_slice(hands[seat.index()].as_slice()),
                upcard: *upcard,
                hand_sizes: [hands[0].len(), hands[1].len(), hands[2].len(), hands[3].len()],
                carry_in: *carry_in,
            },
            Event::Passed { seat: s } => PublicEvent::Passed { seat: *s },
            Event::Took { seat: s, suit, from_upcard } => PublicEvent::Took {
                seat: *s,
                suit: *suit,
                from_upcard: *from_upcard,
            },
            Event::DealCompleted { extra, belote_seat } => PublicEvent::DealCompleted {
                extra: copy_slice(extra[seat.index()].as_slice()),
                extra_sizes: [extra[0].len(), extra[1].len(), extra[2].len(), extra[3].len()],
                belote_mine: match belote_seat {
                    Some(b) => *b == seat,
                    None => false,
                },
            },
            Event::Redeal => PublicEvent::Redeal,
            Event::BeloteShown { seat: s, complete } => PublicEvent::BeloteShown {
                seat: *s,
                complete: *complete,
            },
            Event::Played { seat: s, card } => PublicEvent::Played { seat: *s, card: *card },
            Event::TrickTaken { winner, points, last } => PublicEvent::TrickTaken {
                winner: *winner,
                points: *points,
                last: *last,
            },
            Event::Scored(score) => PublicEvent::Scored(*score),
        }
    }
}

/// Confidentialite : toute carte nommee par la projection d'un evenement pour
/// un siege est soit une carte de ce siege, soit une carte que l'evenement
/// montre a toute la table (la retournee, une carte posee).
pub proof fn lemma_redact_keeps_secrets(e: Event, seat: Seat, p: PublicEvent, c: Card)
    requires
        seat.valid(),
        redacted(e, seat, p),
        public_cards(p).contains(c),
    ensures
        own_cards(e, seat).contains(c) || shown_cards(e).contains(c),
{
    match e {
        Event::Dealt { hands, upcard, .. } => {
            if let PublicEvent::Dealt { hand, .. } = p {
                let k = choose|k: int| 0 <= k < public_cards(p).len() && public_cards(p)[k] == c;
                if k < hand@.len() {
                    assert(own_cards(e, seat)[k] == c);
                } else {
                    assert(shown_cards(e)[0] == c);
                }
            }
        },
        Event::Played { card, .. } => {
            assert(shown_cards(e)[0] == c);
        },
        _ => {},
    }
}

} // verus!

verus! {

/// Modele mathematique d'un `Event` : les vecteurs y deviennent des suites.
pub enum EventModel {
    Dealt { dealer: Seat, hands: Seq<Seq<Card>>, upcard: Card, stock: Seq<Card>, carry_in: u16 },
    Passed { seat: Seat },
    Took { seat: Seat, suit: Suit, from_upcard: bool },
    DealCompleted { extra: Seq<Seq<Card>>, belote_seat: Option<Seat> },
    Redeal,
    BeloteShown { seat: Seat, complete: bool },
    Played { seat: Seat, card: Card },
    TrickTaken { winner: Seat, points: u16, last: bool },
    Scored(DealScore),
}

/// Les quatre vecteurs d'un tableau, vus comme une suite de suites.
pub open spec fn hands_view(h: [Vec<Card>; 4]) -> Seq<Seq<Card>> {
    seq![h[0]@, h[1]@, h[2]@, h[3]@]
}

impl View for Event {
    type V = EventModel;

    open spec fn view(&self) -> EventModel {
        match *self {
            Event::Dealt { dealer, hands, upcard, stock, carry_in } => EventModel::Dealt {
                dealer,
                hands: hands_view(hands),
                upcard,
                stock: stock@,
                carry_in,
            },
            Event::Passed { seat } => EventModel::Passed { seat },
            Event::Took { seat, suit, from_upcard } => EventModel::Took { seat, suit, from_upcard },
            Event::DealCompleted { extra, belote_seat } => EventModel::DealCompleted {
                extra: hands_view(extra),
                belote_seat,
            },
            Event::Redeal => EventModel::Redeal,
            Event::BeloteShown { seat, complete } => EventModel::BeloteShown { seat, complete },
            Event::Played { seat, card } => EventModel::Played { seat, card },
            Event::TrickTaken { winner, points, last } => EventModel::TrickTaken {
                winner,
                points,
                last,
            },
            Event::Scored(s) => EventModel::Scored(s),
        }
    }
}

/// Le modele de chaque evenement d'un journal.
pub open spec fn events_view(evs: Seq<Event>) -> Seq<EventModel> {
    evs.map_values(|e: Event| e@)
}

} // verus!
