//! Les 32 cartes du jeu de belote.

use vstd::prelude::*;

verus! {

/// Les quatre couleurs.
#[derive(Debug, Clone, Copy, PartialEq, Eq, Structural, Hash, PartialOrd, Ord)]
pub enum Suit {
    Clubs,
    Diamonds,
    Hearts,
    Spades,
}

/// Les huit rangs, du plus petit au plus grand dans l'ordre naturel.
#[derive(Debug, Clone, Copy, PartialEq, Eq, Structural, Hash, PartialOrd, Ord)]
pub enum Rank {
    Seven,
    Eight,
    Nine,
    Ten,
    Jack,
    Queen,
    King,
    Ace,
}

/// Une carte : une couleur et un rang.
#[derive(Debug, Clone, Copy, PartialEq, Eq, Structural, Hash, PartialOrd, Ord)]
pub struct Card {
    pub suit: Suit,
    pub rank: Rank,
}

/// Position d'une couleur dans l'ordre canonique : trefle, carreau, coeur, pique.
pub open spec fn suit_index(s: Suit) -> int {
    match s {
        Suit::Clubs => 0,
        Suit::Diamonds => 1,
        Suit::Hearts => 2,
        Suit::Spades => 3,
    }
}

/// La couleur a la position `i` de l'ordre canonique.
pub open spec fn suit_at(i: int) -> Suit {
    if i == 0 {
        Suit::Clubs
    } else if i == 1 {
        Suit::Diamonds
    } else if i == 2 {
        Suit::Hearts
    } else {
        Suit::Spades
    }
}

/// Position d'un rang dans l'ordre canonique, du sept a l'as.
pub open spec fn rank_index(r: Rank) -> int {
    match r {
        Rank::Seven => 0,
        Rank::Eight => 1,
        Rank::Nine => 2,
        Rank::Ten => 3,
        Rank::Jack => 4,
        Rank::Queen => 5,
        Rank::King => 6,
        Rank::Ace => 7,
    }
}

/// Le rang a la position `i` de l'ordre canonique.
pub open spec fn rank_at(i: int) -> Rank {
    if i == 0 {
        Rank::Seven
    } else if i == 1 {
        Rank::Eight
    } else if i == 2 {
        Rank::Nine
    } else if i == 3 {
        Rank::Ten
    } else if i == 4 {
        Rank::Jack
    } else if i == 5 {
        Rank::Queen
    } else if i == 6 {
        Rank::King
    } else {
        Rank::Ace
    }
}

/// Position d'une carte dans le paquet canonique.
pub open spec fn card_index(c: Card) -> int {
    suit_index(c.suit) * 8 + rank_index(c.rank)
}

/// La carte a la position `i` du paquet canonique.
pub open spec fn card_at(i: int) -> Card {
    Card { suit: suit_at(i / 8), rank: rank_at(i % 8) }
}

/// Le paquet canonique : couleur par couleur, du sept a l'as.
pub open spec fn spec_deck() -> Seq<Card> {
    Seq::new(32, |i: int| card_at(i))
}

impl Suit {
    pub const ALL: [Suit; 4] = [Suit::Clubs, Suit::Diamonds, Suit::Hearts, Suit::Spades];

    pub fn symbol(self) -> (c: char)
        ensures
            c == (match self {
                Suit::Clubs => '\u{2663}',
                Suit::Diamonds => '\u{2666}',
                Suit::Hearts => '\u{2665}',
                Suit::Spades => '\u{2660}',
            }),
    {
        match self {
            Suit::Clubs => '\u{2663}',
            Suit::Diamonds => '\u{2666}',
            Suit::Hearts => '\u{2665}',
            Suit::Spades => '\u{2660}',
        }
    }

    pub fn name_fr(self) -> (name: &'static str)
        ensures
            name@ == (match self {
                Suit::Clubs => "trefle"@,
                Suit::Diamonds => "carreau"@,
                Suit::Hearts => "coeur"@,
                Suit::Spades => "pique"@,
            }),
    {
        match self {
            Suit::Clubs => "trefle",
            Suit::Diamonds => "carreau",
            Suit::Hearts => "coeur",
            Suit::Spades => "pique",
        }
    }
}

impl Rank {
    pub const ALL: [Rank; 8] = [
        Rank::Seven,
        Rank::Eight,
        Rank::Nine,
        Rank::Ten,
        Rank::Jack,
        Rank::Queen,
        Rank::King,
        Rank::Ace,
    ];

    /// Etiquette francaise courte : 7 8 9 10 V D R A
    pub fn label_fr(self) -> (label: &'static str)
        ensures
            label@ == (match self {
                Rank::Seven => "7"@,
                Rank::Eight => "8"@,
                Rank::Nine => "9"@,
                Rank::Ten => "10"@,
                Rank::Jack => "V"@,
                Rank::Queen => "D"@,
                Rank::King => "R"@,
                Rank::Ace => "A"@,
            }),
    {
        match self {
            Rank::Seven => "7",
            Rank::Eight => "8",
            Rank::Nine => "9",
            Rank::Ten => "10",
            Rank::Jack => "V",
            Rank::Queen => "D",
            Rank::King => "R",
            Rank::Ace => "A",
        }
    }
}

fn suit_from_index(i: usize) -> (s: Suit)
    requires
        i < 4,
    ensures
        s == suit_at(i as int),
{
    if i == 0 {
        Suit::Clubs
    } else if i == 1 {
        Suit::Diamonds
    } else if i == 2 {
        Suit::Hearts
    } else {
        Suit::Spades
    }
}

fn rank_from_index(i: usize) -> (r: Rank)
    requires
        i < 8,
    ensures
        r == rank_at(i as int),
{
    if i == 0 {
        Rank::Seven
    } else if i == 1 {
        Rank::Eight
    } else if i == 2 {
        Rank::Nine
    } else if i == 3 {
        Rank::Ten
    } else if i == 4 {
        Rank::Jack
    } else if i == 5 {
        Rank::Queen
    } else if i == 6 {
        Rank::King
    } else {
        Rank::Ace
    }
}

impl Card {
    pub fn new(suit: Suit, rank: Rank) -> (c: Card)
        ensures
            c.suit == suit,
            c.rank == rank,
    {
        Card { suit, rank }
    }

    /// Le paquet complet, dans un ordre canonique et stable.
    pub fn deck() -> (cards: Vec<Card>)
        ensures
            cards@ == spec_deck(),
    {
        let mut cards: Vec<Card> = Vec::with_capacity(32);
        let mut s: usize = 0;
        while s < 4
            invariant
                s <= 4,
                cards@.len() == s * 8,
                forall|i: int| 0 <= i < cards@.len() ==> cards@[i] == card_at(i),
            decreases 4 - s,
        {
            let suit = suit_from_index(s);
            let mut r: usize = 0;
            while r < 8
                invariant
                    s < 4,
                    r <= 8,
                    suit == suit_at(s as int),
                    cards@.len() == s * 8 + r,
                    forall|i: int| 0 <= i < cards@.len() ==> cards@[i] == card_at(i),
                decreases 8 - r,
            {
                let card = Card::new(suit, rank_from_index(r));
                proof {
                    let k = (s * 8 + r) as int;
                    assert(k / 8 == s as int && k % 8 == r as int);
                }
                cards.push(card);
                r += 1;
            }
            s += 1;
        }
        assert(cards@ =~= spec_deck());
        cards
    }
}

/// Chaque carte occupe dans le paquet canonique la position que lui donne
/// `card_index`, et cette position est dans les bornes.
pub proof fn lemma_card_index(c: Card)
    ensures
        0 <= card_index(c) < 32,
        card_at(card_index(c)) == c,
        spec_deck()[card_index(c)] == c,
{
    let k = card_index(c);
    assert(k / 8 == suit_index(c.suit) && k % 8 == rank_index(c.rank));
}

/// La position d'une carte du paquet canonique est son indice.
pub proof fn lemma_card_at(i: int)
    requires
        0 <= i < 32,
    ensures
        card_index(card_at(i)) == i,
{
    assert(suit_index(suit_at(i / 8)) == i / 8);
    assert(rank_index(rank_at(i % 8)) == i % 8);
}

/// Le paquet compte 32 cartes, toutes differentes, et contient toutes les cartes.
pub proof fn lemma_deck_complete()
    ensures
        spec_deck().len() == 32,
        spec_deck().no_duplicates(),
        forall|c: Card| #[trigger] spec_deck().contains(c),
{
    assert forall|i: int, j: int| 0 <= i < 32 && 0 <= j < 32 && i != j implies
        spec_deck()[i] != spec_deck()[j] by {
        lemma_card_at(i);
        lemma_card_at(j);
    }
    assert forall|c: Card| #[trigger] spec_deck().contains(c) by {
        lemma_card_index(c);
    }
}

} // verus!
