//! Joueur automatique.
//!
//! Le bot ne recoit qu'un `PlayerView` : il voit exactement ce que voit un
//! humain. Il ne peut donc pas tricher, et sa logique se teste comme celle
//! d'un client ordinaire.

use vstd::prelude::*;

use crate::action::Action;
use crate::card::{Card, Rank, Suit};
use crate::rules::{filter_suit, spec_trick_points, spec_trick_winner, suit_is, trick_points, trick_winner};
use crate::scoring::{card_points, card_strength, spec_card_points, spec_card_strength};
use crate::seqs::{lemma_filter_member, lemma_filter_nonempty, lemma_filter_step};
use crate::state::{Phase, PlayedCard, Seat};
use crate::view::PlayerView;

verus! {

/// Seuil de prise au premier tour (couleur imposee par la retournee).
pub const TAKE_THRESHOLD_ROUND1: u16 = 48;

/// Seuil au second tour, ou l'on choisit librement sa couleur.
pub const TAKE_THRESHOLD_ROUND2: u16 = 52;

// ---------------------------------------------------------------------------
// Encheres
// ---------------------------------------------------------------------------

/// Apport d'une carte a l'estimation d'une main : ses points, plus une prime
/// de controle par atout, ou pour un as exterieur.
pub open spec fn card_value(c: Card, trump: Suit) -> int {
    let t = c.suit == trump;
    spec_card_points(c.rank, t) as int + if t {
        5int
    } else if c.rank == Rank::Ace {
        3int
    } else {
        0int
    }
}

/// Somme des apports des cartes d'une main.
pub open spec fn value_sum(hand: Seq<Card>, trump: Suit) -> int
    decreases hand.len(),
{
    if hand.len() == 0 {
        0
    } else {
        value_sum(hand.drop_last(), trump) + card_value(hand.last(), trump)
    }
}

/// Valeur estimee d'une main pour un atout donne : points bruts, prime de
/// controle par atout detenu, prime pour les as exterieurs, et primes pour le
/// valet et le neuf d'atout.
pub open spec fn spec_evaluate(hand: Seq<Card>, trump: Suit) -> int {
    value_sum(hand, trump) + (if hand.contains(Card { suit: trump, rank: Rank::Jack }) {
        8int
    } else {
        0int
    }) + if hand.contains(Card { suit: trump, rank: Rank::Nine }) {
        4int
    } else {
        0int
    }
}

proof fn lemma_value_sum_prefix(hand: Seq<Card>, n: int, trump: Suit)
    requires
        0 <= n <= hand.len(),
    ensures
        value_sum(hand.subrange(0, n), trump) <= value_sum(hand, trump),
    decreases hand.len(),
{
    if n < hand.len() {
        lemma_value_sum_prefix(hand.drop_last(), n, trump);
        assert(hand.drop_last().subrange(0, n) =~= hand.subrange(0, n));
    } else {
        assert(hand.subrange(0, n) =~= hand);
    }
}

fn contains_card(cards: &[Card], c: Card) -> (b: bool)
    ensures
        b == cards@.contains(c),
{
    let mut i: usize = 0;
    while i < cards.len()
        invariant
            i <= cards@.len(),
            forall|k: int| 0 <= k < i ==> cards@[k] != c,
        decreases cards@.len() - i,
    {
        if cards[i] == c {
            assert(cards@[i as int] == c);
            return true;
        }
        i += 1;
    }
    false
}

fn evaluate(hand: &[Card], trump: Suit) -> (score: u16)
    requires
        spec_evaluate(hand@, trump) <= u16::MAX,
    ensures
        score == spec_evaluate(hand@, trump),
{
    let mut score: u16 = 0;
    let mut i: usize = 0;
    while i < hand.len()
        invariant
            i <= hand@.len(),
            score == value_sum(hand@.subrange(0, i as int), trump),
            spec_evaluate(hand@, trump) <= u16::MAX,
        decreases hand@.len() - i,
    {
        proof {
            assert(hand@.subrange(0, i as int + 1).drop_last() =~= hand@.subrange(0, i as int));
            lemma_value_sum_prefix(hand@, i as int + 1, trump);
        }
        let card = hand[i];
        let is_trump = card.suit == trump;
        score = score + card_points(card.rank, is_trump);
        if is_trump {
            score = score + 5;
        } else if card.rank == Rank::Ace {
            score = score + 3;
        }
        i += 1;
    }
    assert(hand@.subrange(0, hand@.len() as int) =~= hand@);
    // Le valet et le neuf d'atout font gagner des plis, pas seulement des points.
    if contains_card(hand, Card::new(trump, Rank::Jack)) {
        score = score + 8;
    }
    if contains_card(hand, Card::new(trump, Rank::Nine)) {
        score = score + 4;
    }
    score
}

/// Decision du premier tour d'encheres.
pub open spec fn spec_bid_round1(v: PlayerView) -> Action {
    match v.upcard {
        None => Action::Pass,
        Some(u) => if spec_evaluate(v.hand@.push(u), u.suit) >= TAKE_THRESHOLD_ROUND1 {
            Action::Take
        } else {
            Action::Pass
        },
    }
}

/// Une etape de la recherche de la meilleure couleur : `s` remplace le
/// meilleur candidat courant s'il vaut au moins autant (a egalite, la derniere
/// couleur examinee l'emporte).
pub open spec fn better_suit(hand: Seq<Card>, excluded: Suit, acc: Option<Suit>, s: Suit) -> Option<
    Suit,
> {
    if s == excluded {
        acc
    } else {
        match acc {
            None => Some(s),
            Some(b) => if spec_evaluate(hand, s) >= spec_evaluate(hand, b) {
                Some(s)
            } else {
                acc
            },
        }
    }
}

/// La couleur, autre que `excluded`, qui donne la meilleure estimation.
pub open spec fn best_other_suit(hand: Seq<Card>, excluded: Suit) -> Suit {
    better_suit(
        hand,
        excluded,
        better_suit(
            hand,
            excluded,
            better_suit(
                hand,
                excluded,
                better_suit(hand, excluded, None, Suit::Clubs),
                Suit::Diamonds,
            ),
            Suit::Hearts,
        ),
        Suit::Spades,
    )->0
}

/// Decision du second tour d'encheres.
pub open spec fn spec_bid_round2(v: PlayerView) -> Action {
    match v.upcard {
        None => Action::Pass,
        Some(u) => {
            let hand = v.hand@.push(u);
            let s = best_other_suit(hand, u.suit);
            if spec_evaluate(hand, s) >= TAKE_THRESHOLD_ROUND2 {
                Action::ChooseTrump { suit: s }
            } else {
                Action::Pass
            }
        },
    }
}

fn with_card(hand: &[Card], c: Card) -> (r: Vec<Card>)
    ensures
        r@ == hand@.push(c),
{
    let mut r = crate::seqs::copy_slice(hand);
    r.push(c);
    r
}

fn bid_round1(view: &PlayerView) -> (a: Action)
    requires
        view.upcard matches Some(u) ==> spec_evaluate(view.hand@.push(u), u.suit) <= u16::MAX,
    ensures
        a == spec_bid_round1(*view),
{
    let upcard = match view.upcard {
        Some(u) => u,
        None => {
            return Action::Pass;
        },
    };
    // Le preneur ramasse la retournee : on l'inclut dans l'evaluation.
    let hand = with_card(view.hand.as_slice(), upcard);
    if evaluate(hand.as_slice(), upcard.suit) >= TAKE_THRESHOLD_ROUND1 {
        Action::Take
    } else {
        Action::Pass
    }
}

fn bid_round2(view: &PlayerView) -> (a: Action)
    requires
        view.upcard matches Some(u) ==> forall|s: Suit|
            s != u.suit ==> #[trigger] spec_evaluate(view.hand@.push(u), s) <= u16::MAX,
    ensures
        a == spec_bid_round2(*view),
{
    let upcard = match view.upcard {
        Some(u) => u,
        None => {
            return Action::Pass;
        },
    };
    let hand = with_card(view.hand.as_slice(), upcard);
    let ghost h = hand@;
    let suits = Suit::ALL;
    let mut best: Option<(u16, Suit)> = None;
    let mut i: usize = 0;
    while i < 4
        invariant
            i <= 4,
            hand@ == h,
            suits == Suit::ALL,
            forall|s: Suit| s != upcard.suit ==> #[trigger] spec_evaluate(h, s) <= u16::MAX,
            ({
                let acc = if i == 0 {
                    None
                } else if i == 1 {
                    better_suit(h, upcard.suit, None, Suit::Clubs)
                } else if i == 2 {
                    better_suit(
                        h,
                        upcard.suit,
                        better_suit(h, upcard.suit, None, Suit::Clubs),
                        Suit::Diamonds,
                    )
                } else if i == 3 {
                    better_suit(
                        h,
                        upcard.suit,
                        better_suit(
                            h,
                            upcard.suit,
                            better_suit(h, upcard.suit, None, Suit::Clubs),
                            Suit::Diamonds,
                        ),
                        Suit::Hearts,
                    )
                } else {
                    better_suit(
                        h,
                        upcard.suit,
                        better_suit(
                            h,
                            upcard.suit,
                            better_suit(
                                h,
                                upcard.suit,
                                better_suit(h, upcard.suit, None, Suit::Clubs),
                                Suit::Diamonds,
                            ),
                            Suit::Hearts,
                        ),
                        Suit::Spades,
                    )
                };
                match best {
                    None => acc is None,
                    Some((score, s)) => acc == Some(s) && score == spec_evaluate(h, s),
                }
            }),
        decreases 4 - i,
    {
        let s = suits[i];
        if s != upcard.suit {
            let score = evaluate(hand.as_slice(), s);
            best = match best {
                None => Some((score, s)),
                Some((b, bs)) => if score >= b {
                    Some((score, s))
                } else {
                    Some((b, bs))
                },
            };
        }
        i += 1;
    }
    match best {
        Some((score, suit)) => {
            if score >= TAKE_THRESHOLD_ROUND2 {
                Action::ChooseTrump { suit }
            } else {
                Action::Pass
            }
        },
        None => Action::Pass,
    }
}

} // verus!

verus! {

// ---------------------------------------------------------------------------
// Jeu de la carte
// ---------------------------------------------------------------------------

/// Les criteres de choix d'une carte, chacun ramene a un entier.
#[derive(Clone, Copy, PartialEq, Eq, Structural)]
pub enum CardKey {
    /// Force a l'atout.
    TrumpStrength,
    /// Points hors atout.
    PlainPoints,
    /// Cout d'une carte gagnante : d'abord ses points, puis sa force.
    WinCost,
    /// Cout d'une defausse : atout ou non, puis les points, puis la force.
    DiscardCost,
}

pub open spec fn spec_key(kind: CardKey, c: Card, trump: Suit) -> int {
    let t = c.suit == trump;
    match kind {
        CardKey::TrumpStrength => spec_card_strength(c.rank, true) as int,
        CardKey::PlainPoints => spec_card_points(c.rank, false) as int,
        CardKey::WinCost => spec_card_points(c.rank, t) as int * 10 + spec_card_strength(
            c.rank,
            t,
        ) as int,
        CardKey::DiscardCost => (if t {
            1000int
        } else {
            0int
        }) + spec_card_points(c.rank, t) as int * 10 + spec_card_strength(c.rank, t) as int,
    }
}

fn key(kind: CardKey, c: Card, trump: Suit) -> (k: u32)
    ensures
        k == spec_key(kind, c, trump),
{
    let t = c.suit == trump;
    match kind {
        CardKey::TrumpStrength => card_strength(c.rank, true) as u32,
        CardKey::PlainPoints => card_points(c.rank, false) as u32,
        CardKey::WinCost => card_points(c.rank, t) as u32 * 10 + card_strength(c.rank, t) as u32,
        CardKey::DiscardCost => (if t {
            1000u32
        } else {
            0u32
        }) + card_points(c.rank, t) as u32 * 10 + card_strength(c.rank, t) as u32,
    }
}

/// La carte de plus grande cle ; a egalite, la derniere.
pub open spec fn last_max(cards: Seq<Card>, kind: CardKey, trump: Suit) -> Option<Card>
    decreases cards.len(),
{
    if cards.len() == 0 {
        None
    } else {
        match last_max(cards.drop_last(), kind, trump) {
            None => Some(cards.last()),
            Some(b) => if spec_key(kind, cards.last(), trump) >= spec_key(kind, b, trump) {
                Some(cards.last())
            } else {
                Some(b)
            },
        }
    }
}

/// La carte de plus petite cle ; a egalite, la premiere.
pub open spec fn first_min(cards: Seq<Card>, kind: CardKey, trump: Suit) -> Option<Card>
    decreases cards.len(),
{
    if cards.len() == 0 {
        None
    } else {
        match first_min(cards.drop_last(), kind, trump) {
            None => Some(cards.last()),
            Some(b) => if spec_key(kind, cards.last(), trump) < spec_key(kind, b, trump) {
                Some(cards.last())
            } else {
                Some(b)
            },
        }
    }
}

/// Ce que `last_max` et `first_min` renvoient est une carte de la suite.
pub proof fn lemma_extremes_member(cards: Seq<Card>, kind: CardKey, trump: Suit)
    ensures
        cards.len() > 0 ==> last_max(cards, kind, trump) is Some && first_min(
            cards,
            kind,
            trump,
        ) is Some,
        last_max(cards, kind, trump) matches Some(c) ==> cards.contains(c),
        first_min(cards, kind, trump) matches Some(c) ==> cards.contains(c),
    decreases cards.len(),
{
    if cards.len() > 0 {
        let d = cards.drop_last();
        lemma_extremes_member(d, kind, trump);
        if let Some(c) = last_max(d, kind, trump) {
            let k = choose|k: int| 0 <= k < d.len() && d[k] == c;
            assert(cards[k] == c);
        }
        if let Some(c) = first_min(d, kind, trump) {
            let k = choose|k: int| 0 <= k < d.len() && d[k] == c;
            assert(cards[k] == c);
        }
        assert(cards[cards.len() - 1] == cards.last());
    }
}

fn extreme(cards: &[Card], kind: CardKey, trump: Suit, want_max: bool) -> (r: Option<Card>)
    ensures
        r == if want_max {
            last_max(cards@, kind, trump)
        } else {
            first_min(cards@, kind, trump)
        },
{
    let mut best: Option<Card> = None;
    let mut i: usize = 0;
    while i < cards.len()
        invariant
            i <= cards@.len(),
            best == if want_max {
                last_max(cards@.subrange(0, i as int), kind, trump)
            } else {
                first_min(cards@.subrange(0, i as int), kind, trump)
            },
        decreases cards@.len() - i,
    {
        assert(cards@.subrange(0, i as int + 1).drop_last() =~= cards@.subrange(0, i as int));
        let c = cards[i];
        best = match best {
            None => Some(c),
            Some(b) => {
                let kc = key(kind, c, trump);
                let kb = key(kind, b, trump);
                if want_max {
                    if kc >= kb {
                        Some(c)
                    } else {
                        Some(b)
                    }
                } else {
                    if kc < kb {
                        Some(c)
                    } else {
                        Some(b)
                    }
                }
            },
        };
        i += 1;
    }
    assert(cards@.subrange(0, cards@.len() as int) =~= cards@);
    best
}

/// Predicat : la carte n'est pas de la couleur `suit`.
pub open spec fn suit_is_not(suit: Suit) -> spec_fn(Card) -> bool {
    |c: Card| c.suit != suit
}

/// Predicat : un as hors atout.
pub open spec fn plain_ace(trump: Suit) -> spec_fn(Card) -> bool {
    |c: Card| c.suit != trump && c.rank == Rank::Ace
}

/// Predicat : poser cette carte remporterait le pli en l'etat.
pub open spec fn would_win(trick: Seq<PlayedCard>, seat: Seat, trump: Suit) -> spec_fn(Card) -> bool {
    |c: Card| spec_trick_winner(trick.push(PlayedCard { seat, card: c }), trump) == Some(seat)
}

/// La carte la moins couteuse a lacher : d'abord les points, puis la force.
pub open spec fn spec_cheapest(cards: Seq<Card>, trump: Suit) -> Card {
    first_min(cards, CardKey::DiscardCost, trump)->0
}

/// L'entame.
pub open spec fn spec_lead(v: PlayerView, trump: Suit) -> Card {
    let trumps = v.legal@.filter(suit_is(trump));
    let aces = v.legal@.filter(plain_ace(trump));
    if v.taker == Some(v.seat) && v.tricks_played < 2 && trumps.len() > 0 {
        // Preneur en debut de donne : on fait tomber l'atout adverse.
        last_max(trumps, CardKey::TrumpStrength, trump)->0
    } else if aces.len() > 0 {
        aces[0]
    } else {
        spec_cheapest(v.legal@, trump)
    }
}

/// La carte que le bot pose, s'il peut jouer.
pub open spec fn spec_choose_card(v: PlayerView) -> Option<Card> {
    if v.legal@.len() == 0 {
        None
    } else {
        match v.trump {
            None => None,
            Some(trump) => {
                if v.trick@.len() == 0 {
                    Some(spec_lead(v, trump))
                } else {
                    let partner_leads = spec_trick_winner(v.trick@, trump) == Some(
                        v.seat.spec_partner(),
                    );
                    let pot = spec_trick_points(v.trick@, trump);
                    if partner_leads {
                        match last_max(
                            v.legal@.filter(suit_is_not(trump)),
                            CardKey::PlainPoints,
                            trump,
                        ) {
                            Some(c) => Some(c),
                            None => Some(spec_cheapest(v.legal@, trump)),
                        }
                    } else {
                        let winning = v.legal@.filter(would_win(v.trick@, v.seat, trump));
                        let cheap_win = first_min(winning, CardKey::WinCost, trump)->0;
                        if winning.len() > 0 && (pot >= 8 || cheap_win.suit != trump
                            || v.tricks_played >= 5) {
                            Some(cheap_win)
                        } else {
                            Some(spec_cheapest(v.legal@, trump))
                        }
                    }
                }
            },
        }
    }
}

fn filter_not_suit(cards: &[Card], suit: Suit) -> (r: Vec<Card>)
    ensures
        r@ == cards@.filter(suit_is_not(suit)),
{
    let mut r: Vec<Card> = Vec::new();
    let mut i: usize = 0;
    while i < cards.len()
        invariant
            i <= cards@.len(),
            r@ == cards@.subrange(0, i as int).filter(suit_is_not(suit)),
        decreases cards@.len() - i,
    {
        proof {
            lemma_filter_step(cards@, i as int, suit_is_not(suit));
        }
        if cards[i].suit != suit {
            r.push(cards[i]);
        }
        i += 1;
    }
    assert(cards@.subrange(0, cards@.len() as int) =~= cards@);
    r
}

fn filter_plain_aces(cards: &[Card], trump: Suit) -> (r: Vec<Card>)
    ensures
        r@ == cards@.filter(plain_ace(trump)),
{
    let mut r: Vec<Card> = Vec::new();
    let mut i: usize = 0;
    while i < cards.len()
        invariant
            i <= cards@.len(),
            r@ == cards@.subrange(0, i as int).filter(plain_ace(trump)),
        decreases cards@.len() - i,
    {
        proof {
            lemma_filter_step(cards@, i as int, plain_ace(trump));
        }
        if cards[i].suit != trump && cards[i].rank == Rank::Ace {
            r.push(cards[i]);
        }
        i += 1;
    }
    assert(cards@.subrange(0, cards@.len() as int) =~= cards@);
    r
}

/// Cette carte remporterait-elle le pli si on la posait maintenant ?
fn beats(view: &PlayerView, card: Card, trump: Suit) -> (b: bool)
    ensures
        b == would_win(view.trick@, view.seat, trump)(card),
{
    let mut trick = crate::seqs::copy_slice(view.trick.as_slice());
    trick.push(PlayedCard { seat: view.seat, card });
    current_winner(trick.as_slice(), trump) == Some(view.seat)
}

fn current_winner(trick: &[PlayedCard], trump: Suit) -> (w: Option<Seat>)
    ensures
        w == spec_trick_winner(trick@, trump),
{
    trick_winner(trick, trump)
}

fn filter_winning(view: &PlayerView, trump: Suit) -> (r: Vec<Card>)
    ensures
        r@ == view.legal@.filter(would_win(view.trick@, view.seat, trump)),
{
    let cards = view.legal.as_slice();
    let mut r: Vec<Card> = Vec::new();
    let mut i: usize = 0;
    while i < cards.len()
        invariant
            i <= cards@.len(),
            cards@ == view.legal@,
            r@ == cards@.subrange(0, i as int).filter(would_win(view.trick@, view.seat, trump)),
        decreases cards@.len() - i,
    {
        proof {
            lemma_filter_step(cards@, i as int, would_win(view.trick@, view.seat, trump));
        }
        if beats(view, cards[i], trump) {
            r.push(cards[i]);
        }
        i += 1;
    }
    assert(cards@.subrange(0, cards@.len() as int) =~= cards@);
    r
}

/// La carte la moins couteuse a lacher : d'abord les points, puis la force.
fn cheapest(cards: &[Card], trump: Suit) -> (c: Card)
    requires
        cards@.len() > 0,
    ensures
        c == spec_cheapest(cards@, trump),
        cards@.contains(c),
{
    proof {
        lemma_extremes_member(cards@, CardKey::DiscardCost, trump);
    }
    extreme(cards, CardKey::DiscardCost, trump, false).unwrap()
}

fn lead(view: &PlayerView, trump: Suit) -> (c: Card)
    requires
        view.legal@.len() > 0,
    ensures
        c == spec_lead(*view, trump),
{
    let trumps = filter_suit(view.legal.as_slice(), trump);
    // Preneur en debut de donne : on fait tomber l'atout adverse.
    if view.taker == Some(view.seat) && view.tricks_played < 2 {
        match extreme(trumps.as_slice(), CardKey::TrumpStrength, trump, true) {
            Some(card) => {
                return card;
            },
            None => {},
        }
    }
    // Sinon un as exterieur, sinon la carte la moins chere.
    let aces = filter_plain_aces(view.legal.as_slice(), trump);
    if aces.len() > 0 {
        aces[0]
    } else {
        cheapest(view.legal.as_slice(), trump)
    }
}

fn choose_card(view: &PlayerView) -> (c: Option<Card>)
    requires
        view.trump matches Some(t) ==> spec_trick_points(view.trick@, t) <= u16::MAX,
    ensures
        c == spec_choose_card(*view),
{
    if view.legal.len() == 0 {
        return None;
    }
    let trump = match view.trump {
        Some(t) => t,
        None => {
            return None;
        },
    };
    if view.trick.len() == 0 {
        return Some(lead(view, trump));
    }
    let winner = current_winner(view.trick.as_slice(), trump);
    let partner_leads = winner == Some(view.seat.partner());
    let pot: u16 = trick_points(view.trick.as_slice(), trump);

    if partner_leads {
        // Le partenaire tient : on charge le pli avec ce qui rapporte, sans
        // gaspiller d'atout.
        let plain = filter_not_suit(view.legal.as_slice(), trump);
        let charge = extreme(plain.as_slice(), CardKey::PlainPoints, trump, true);
        return match charge {
            Some(c) => Some(c),
            None => Some(cheapest(view.legal.as_slice(), trump)),
        };
    }
    // Sinon : prendre la main au moindre cout si c'est possible.
    let winning = filter_winning(view, trump);
    if winning.len() > 0 {
        proof {
            lemma_extremes_member(winning@, CardKey::WinCost, trump);
        }
        // Si le pli est maigre et qu'il faudrait couper cher, on economise.
        let cheap_win = extreme(winning.as_slice(), CardKey::WinCost, trump, false).unwrap();
        if pot >= 8 || cheap_win.suit != trump || view.tricks_played >= 5 {
            return Some(cheap_win);
        }
    }
    Some(cheapest(view.legal.as_slice(), trump))
}

/// Ce que decide le bot pour la vue `v`.
pub open spec fn spec_choose_action(v: PlayerView) -> Option<Action> {
    if v.turn != v.seat {
        None
    } else {
        match v.phase {
            Phase::Bidding1 => Some(spec_bid_round1(v)),
            Phase::Bidding2 => Some(spec_bid_round2(v)),
            Phase::Playing => match spec_choose_card(v) {
                Some(card) => Some(Action::Play { card }),
                None => None,
            },
            _ => None,
        }
    }
}

/// Les estimations et le decompte du pli que le bot calcule tiennent sur 16
/// bits.
pub open spec fn bot_safe(v: PlayerView) -> bool {
    v.turn == v.seat ==> {
        &&& v.phase == Phase::Bidding1 ==> (v.upcard matches Some(u) ==> spec_evaluate(
            v.hand@.push(u),
            u.suit,
        ) <= u16::MAX)
        &&& v.phase == Phase::Bidding2 ==> (v.upcard matches Some(u) ==> forall|s: Suit|
            s != u.suit ==> #[trigger] spec_evaluate(v.hand@.push(u), s) <= u16::MAX)
        &&& v.phase == Phase::Playing ==> (v.trump matches Some(t) ==> spec_trick_points(
            v.trick@,
            t,
        ) <= u16::MAX)
    }
}

/// Decide de l'action a jouer. `None` si ce n'est pas au bot d'agir.
pub fn choose_action(view: &PlayerView) -> (a: Option<Action>)
    requires
        bot_safe(*view),
    ensures
        a == spec_choose_action(*view),
{
    if view.turn != view.seat {
        return None;
    }
    match view.phase {
        Phase::Bidding1 => Some(bid_round1(view)),
        Phase::Bidding2 => Some(bid_round2(view)),
        Phase::Playing => match choose_card(view) {
            Some(card) => Some(Action::Play { card }),
            None => None,
        },
        _ => None,
    }
}

/// Le bot ne pose jamais qu'une carte legale, et au second tour il ne nomme
/// jamais la couleur de la retournee.
pub proof fn lemma_bot_plays_by_the_rules(v: PlayerView)
    ensures
        spec_choose_action(v) matches Some(Action::Play { card }) ==> v.legal@.contains(card),
        spec_choose_action(v) matches Some(Action::ChooseTrump { suit }) ==> (v.upcard matches Some(
            u,
        ) && suit != u.suit),
        spec_choose_action(v) matches Some(Action::Take) ==> v.phase == Phase::Bidding1,
        v.turn == v.seat && (v.phase == Phase::Bidding1 || v.phase == Phase::Bidding2)
            ==> spec_choose_action(v) is Some,
        v.turn == v.seat && v.phase == Phase::Playing && v.trump is Some && v.legal@.len() > 0
            ==> spec_choose_action(v) is Some,
{
    if let Some(trump) = v.trump {
        let legal = v.legal@;
        lemma_extremes_member(legal, CardKey::DiscardCost, trump);
        let trumps = legal.filter(suit_is(trump));
        lemma_extremes_member(trumps, CardKey::TrumpStrength, trump);
        if let Some(c) = last_max(trumps, CardKey::TrumpStrength, trump) {
            lemma_filter_member(legal, suit_is(trump), c);
        }
        let aces = legal.filter(plain_ace(trump));
        if aces.len() > 0 {
            assert(aces.contains(aces[0]));
            lemma_filter_member(legal, plain_ace(trump), aces[0]);
        }
        let plain = legal.filter(suit_is_not(trump));
        lemma_extremes_member(plain, CardKey::PlainPoints, trump);
        if let Some(c) = last_max(plain, CardKey::PlainPoints, trump) {
            lemma_filter_member(legal, suit_is_not(trump), c);
        }
        let winning = legal.filter(would_win(v.trick@, v.seat, trump));
        lemma_extremes_member(winning, CardKey::WinCost, trump);
        if let Some(c) = first_min(winning, CardKey::WinCost, trump) {
            lemma_filter_member(legal, would_win(v.trick@, v.seat, trump), c);
        }
    }
    if let Some(u) = v.upcard {
        let h = v.hand@.push(u);
        let a1 = better_suit(h, u.suit, None, Suit::Clubs);
        let a2 = better_suit(h, u.suit, a1, Suit::Diamonds);
        let a3 = better_suit(h, u.suit, a2, Suit::Hearts);
        let a4 = better_suit(h, u.suit, a3, Suit::Spades);
        assert(a2 is Some);
        assert(a4 is Some && a4->0 != u.suit);
    }
}

} // verus!
