//! Bareme de la belote classique.
//!
//! Atout      : V 20 | 9 14 | A 11 | 10 10 | R 4 | D 3 | 8 0 | 7 0  => 62
//! Hors atout : A 11 | 10 10 | R 4 | D 3 | V 2 | 9 0 | 8 0 | 7 0    => 30
//!
//! Total des plis = 62 + 3 x 30 = 152, + 10 de der = 162.

use vstd::prelude::*;

use crate::card::{card_at, spec_deck, Card, Rank, Suit};

verus! {

/// Points d'une carte selon qu'elle est a l'atout ou non.
pub open spec fn spec_card_points(rank: Rank, trump: bool) -> u16 {
    if trump {
        match rank {
            Rank::Jack => 20,
            Rank::Nine => 14,
            Rank::Ace => 11,
            Rank::Ten => 10,
            Rank::King => 4,
            Rank::Queen => 3,
            Rank::Eight | Rank::Seven => 0,
        }
    } else {
        match rank {
            Rank::Ace => 11,
            Rank::Ten => 10,
            Rank::King => 4,
            Rank::Queen => 3,
            Rank::Jack => 2,
            Rank::Nine | Rank::Eight | Rank::Seven => 0,
        }
    }
}

/// Force relative au sein d'une meme couleur. Croissante : 0 = plus faible.
pub open spec fn spec_card_strength(rank: Rank, trump: bool) -> u8 {
    if trump {
        match rank {
            Rank::Seven => 0,
            Rank::Eight => 1,
            Rank::Queen => 2,
            Rank::King => 3,
            Rank::Ten => 4,
            Rank::Ace => 5,
            Rank::Nine => 6,
            Rank::Jack => 7,
        }
    } else {
        match rank {
            Rank::Seven => 0,
            Rank::Eight => 1,
            Rank::Nine => 2,
            Rank::Jack => 3,
            Rank::Queen => 4,
            Rank::King => 5,
            Rank::Ten => 6,
            Rank::Ace => 7,
        }
    }
}

/// Points d'une carte quand l'atout est `trump`.
pub open spec fn points_of(c: Card, trump: Suit) -> int {
    spec_card_points(c.rank, c.suit == trump) as int
}

/// Somme des points d'une suite de cartes.
pub open spec fn points_sum(cards: Seq<Card>, trump: Suit) -> int
    decreases cards.len(),
{
    if cards.len() == 0 {
        0
    } else {
        points_sum(cards.drop_last(), trump) + points_of(cards.last(), trump)
    }
}

/// Points d'une carte selon qu'elle est a l'atout ou non.
pub fn card_points(rank: Rank, trump: bool) -> (p: u16)
    ensures
        p == spec_card_points(rank, trump),
{
    if trump {
        match rank {
            Rank::Jack => 20,
            Rank::Nine => 14,
            Rank::Ace => 11,
            Rank::Ten => 10,
            Rank::King => 4,
            Rank::Queen => 3,
            Rank::Eight | Rank::Seven => 0,
        }
    } else {
        match rank {
            Rank::Ace => 11,
            Rank::Ten => 10,
            Rank::King => 4,
            Rank::Queen => 3,
            Rank::Jack => 2,
            Rank::Nine | Rank::Eight | Rank::Seven => 0,
        }
    }
}

/// Force relative au sein d'une meme couleur. Croissante : 0 = plus faible.
///
/// Atout      : 7 < 8 < D < R < 10 < A < 9 < V
/// Hors atout : 7 < 8 < 9 < V < D < R < 10 < A
pub fn card_strength(rank: Rank, trump: bool) -> (s: u8)
    ensures
        s == spec_card_strength(rank, trump),
{
    if trump {
        match rank {
            Rank::Seven => 0,
            Rank::Eight => 1,
            Rank::Queen => 2,
            Rank::King => 3,
            Rank::Ten => 4,
            Rank::Ace => 5,
            Rank::Nine => 6,
            Rank::Jack => 7,
        }
    } else {
        match rank {
            Rank::Seven => 0,
            Rank::Eight => 1,
            Rank::Nine => 2,
            Rank::Jack => 3,
            Rank::Queen => 4,
            Rank::King => 5,
            Rank::Ten => 6,
            Rank::Ace => 7,
        }
    }
}

/// Points des plis pour une donne complete, hors belote : 152.
pub const TRICK_POINTS_TOTAL: u16 = 152;

/// Prime du dernier pli.
pub const LAST_TRICK_BONUS: u16 = 10;

/// Total distribuable sur une donne ordinaire.
pub const DEAL_TOTAL: u16 = TRICK_POINTS_TOTAL + LAST_TRICK_BONUS;

/// Prime belote/rebelote (roi + dame d'atout).
pub const BELOTE_BONUS: u16 = 20;

/// Valeur forfaitaire d'un capot (les 8 plis).
pub const CAPOT_POINTS: u16 = 252;

/// La somme des points d'une couleur vaut 62 a l'atout et 30 hors atout.
pub proof fn lemma_suit_totals()
    ensures
        spec_card_points(Rank::Seven, true) + spec_card_points(Rank::Eight, true)
            + spec_card_points(Rank::Nine, true) + spec_card_points(Rank::Ten, true)
            + spec_card_points(Rank::Jack, true) + spec_card_points(Rank::Queen, true)
            + spec_card_points(Rank::King, true) + spec_card_points(Rank::Ace, true) == 62,
        spec_card_points(Rank::Seven, false) + spec_card_points(Rank::Eight, false)
            + spec_card_points(Rank::Nine, false) + spec_card_points(Rank::Ten, false)
            + spec_card_points(Rank::Jack, false) + spec_card_points(Rank::Queen, false)
            + spec_card_points(Rank::King, false) + spec_card_points(Rank::Ace, false) == 30,
        62 + 3 * 30 == TRICK_POINTS_TOTAL,
        TRICK_POINTS_TOTAL + LAST_TRICK_BONUS == DEAL_TOTAL,
        DEAL_TOTAL == 162,
{
}

/// Au sein d'une couleur, deux rangs differents ont des forces differentes,
/// et les forces vont de 0 a 7 : c'est un ordre total.
pub proof fn lemma_strength_total_order(r1: Rank, r2: Rank, trump: bool)
    ensures
        spec_card_strength(r1, trump) < 8,
        r1 != r2 ==> spec_card_strength(r1, trump) != spec_card_strength(r2, trump),
{
}

/// L'ordre des rangs a l'atout, du plus faible au plus fort :
/// 7 < 8 < D < R < 10 < A < 9 < V.
pub open spec fn trump_order() -> Seq<Rank> {
    seq![
        Rank::Seven,
        Rank::Eight,
        Rank::Queen,
        Rank::King,
        Rank::Ten,
        Rank::Ace,
        Rank::Nine,
        Rank::Jack,
    ]
}

/// L'ordre des rangs hors atout, du plus faible au plus fort :
/// 7 < 8 < 9 < V < D < R < 10 < A.
pub open spec fn plain_order() -> Seq<Rank> {
    seq![
        Rank::Seven,
        Rank::Eight,
        Rank::Nine,
        Rank::Jack,
        Rank::Queen,
        Rank::King,
        Rank::Ten,
        Rank::Ace,
    ]
}

/// La force d'un rang est sa place dans l'ordre de sa couleur : a l'atout
/// 7 < 8 < D < R < 10 < A < 9 < V, hors atout 7 < 8 < 9 < V < D < R < 10 < A.
/// Chaque rang y figure une fois.
pub proof fn lemma_strength_is_rank_order()
    ensures
        forall|i: int| 0 <= i < 8 ==> spec_card_strength(#[trigger] trump_order()[i], true) == i,
        forall|i: int| 0 <= i < 8 ==> spec_card_strength(#[trigger] plain_order()[i], false) == i,
        forall|r: Rank| #[trigger] trump_order().contains(r) && plain_order().contains(r),
{
    assert forall|r: Rank| #[trigger] trump_order().contains(r) && plain_order().contains(r) by {
        match r {
            Rank::Seven => {
                assert(trump_order()[0] == r && plain_order()[0] == r);
            },
            Rank::Eight => {
                assert(trump_order()[1] == r && plain_order()[1] == r);
            },
            Rank::Nine => {
                assert(trump_order()[6] == r && plain_order()[2] == r);
            },
            Rank::Ten => {
                assert(trump_order()[4] == r && plain_order()[6] == r);
            },
            Rank::Jack => {
                assert(trump_order()[7] == r && plain_order()[3] == r);
            },
            Rank::Queen => {
                assert(trump_order()[2] == r && plain_order()[4] == r);
            },
            Rank::King => {
                assert(trump_order()[3] == r && plain_order()[5] == r);
            },
            Rank::Ace => {
                assert(trump_order()[5] == r && plain_order()[7] == r);
            },
        }
    }
}

/// Le bareme, rang par rang. A l'atout : V 20, 9 14, A 11, 10 10, R 4,
/// D 3, 8 et 7 rien. Hors atout : A 11, 10 10, R 4, D 3, V 2, 9, 8 et 7
/// rien.
pub proof fn lemma_card_points_barem()
    ensures
        spec_card_points(Rank::Jack, true) == 20,
        spec_card_points(Rank::Nine, true) == 14,
        spec_card_points(Rank::Ace, true) == 11,
        spec_card_points(Rank::Ten, true) == 10,
        spec_card_points(Rank::King, true) == 4,
        spec_card_points(Rank::Queen, true) == 3,
        spec_card_points(Rank::Eight, true) == 0,
        spec_card_points(Rank::Seven, true) == 0,
        spec_card_points(Rank::Ace, false) == 11,
        spec_card_points(Rank::Ten, false) == 10,
        spec_card_points(Rank::King, false) == 4,
        spec_card_points(Rank::Queen, false) == 3,
        spec_card_points(Rank::Jack, false) == 2,
        spec_card_points(Rank::Nine, false) == 0,
        spec_card_points(Rank::Eight, false) == 0,
        spec_card_points(Rank::Seven, false) == 0,
{
}

pub proof fn lemma_points_sum_add(a: Seq<Card>, b: Seq<Card>, trump: Suit)
    ensures
        points_sum(a + b, trump) == points_sum(a, trump) + points_sum(b, trump),
    decreases b.len(),
{
    if b.len() == 0 {
        assert(a + b =~= a);
    } else {
        lemma_points_sum_add(a, b.drop_last(), trump);
        assert((a + b).drop_last() =~= a + b.drop_last());
    }
}

proof fn lemma_suit_block_points(s: int, trump: Suit)
    requires
        0 <= s < 4,
    ensures
        points_sum(spec_deck().subrange(s * 8, s * 8 + 8), trump) == if card_at(s * 8).suit
            == trump {
            62int
        } else {
            30int
        },
{
    let b = spec_deck().subrange(s * 8, s * 8 + 8);
    assert forall|k: int| 0 <= k < 8 implies #[trigger] b[k] == card_at(s * 8 + k) by {}
    assert forall|k: int| 0 <= k < 8 implies (#[trigger] b[k]).suit == card_at(s * 8).suit by {
        assert((s * 8 + k) / 8 == s);
        assert((s * 8) / 8 == s);
    }
    assert((s * 8 + 0) % 8 == 0 && (s * 8 + 1) % 8 == 1 && (s * 8 + 2) % 8 == 2 && (s * 8 + 3)
        % 8 == 3 && (s * 8 + 4) % 8 == 4 && (s * 8 + 5) % 8 == 5 && (s * 8 + 6) % 8 == 6 && (s
        * 8 + 7) % 8 == 7);
    assert(b[0].rank == Rank::Seven && b[1].rank == Rank::Eight && b[2].rank == Rank::Nine
        && b[3].rank == Rank::Ten && b[4].rank == Rank::Jack && b[5].rank == Rank::Queen
        && b[6].rank == Rank::King && b[7].rank == Rank::Ace);
    reveal_with_fuel(points_sum, 9);
    assert(b.drop_last().drop_last().drop_last().drop_last().drop_last().drop_last().drop_last().drop_last().len() == 0);
}

/// Quel que soit l'atout, les 32 cartes valent 152 points au total.
pub proof fn lemma_deck_points(trump: Suit)
    ensures
        points_sum(spec_deck(), trump) == TRICK_POINTS_TOTAL as int,
{
    let d = spec_deck();
    assert(d =~= d.subrange(0, 8) + d.subrange(8, 16) + d.subrange(16, 24) + d.subrange(24, 32));
    lemma_points_sum_add(d.subrange(0, 8) + d.subrange(8, 16) + d.subrange(16, 24), d.subrange(24, 32), trump);
    lemma_points_sum_add(d.subrange(0, 8) + d.subrange(8, 16), d.subrange(16, 24), trump);
    lemma_points_sum_add(d.subrange(0, 8), d.subrange(8, 16), trump);
    lemma_suit_block_points(0, trump);
    lemma_suit_block_points(1, trump);
    lemma_suit_block_points(2, trump);
    lemma_suit_block_points(3, trump);
    assert(card_at(0).suit == Suit::Clubs);
    assert(card_at(8).suit == Suit::Diamonds);
    assert(card_at(16).suit == Suit::Hearts);
    assert(card_at(24).suit == Suit::Spades);
}

} // verus!
