//! L'invariant d'une donne en cours, et sa preservation par les coups.
//!
//! Une donne distribuee puis jouee selon les regles garde, a chaque etape,
//! ses 32 cartes (en main, sur le tapis ou deja posees), ses 152 points de
//! plis (ramasses ou encore en jeu), et un ordre de jeu coherent.

use vstd::prelude::*;
use vstd::multiset::Multiset;

use crate::card::{lemma_deck_complete, spec_deck, Card, Suit};
use crate::event::EventModel;
use crate::rules::{
    after_play, announces_belote, best_in, first_index, lemma_points_sum_bounded,
    lemma_points_sum_push, lemma_trick_winner, reduce_safe, relevant_suit, remove_first, score_safe,
    spec_score_deal, spec_trick_points, spec_trick_winner, step, trick_cards, trick_taken_event,
    deal_position, extra_count, extra_offset, spec_deal, spec_dealt_hands, spec_extra,
    spec_take_events, take_safe,
};
use crate::scoring::{lemma_deck_points, lemma_points_sum_add, points_of, points_sum, TRICK_POINTS_TOTAL};
use crate::state::{GameModel, Phase, PlayedCard, Seat};

verus! {

broadcast use vstd::seq_lib::group_to_multiset_ensures;

/// Les 32 cartes, comptees avec leur multiplicite.
pub open spec fn deck_ms() -> Multiset<Card> {
    spec_deck().to_multiset()
}

/// Retirer une carte d'un paquet en retire les points.
pub proof fn lemma_points_sum_remove(s: Seq<Card>, i: int, trump: crate::card::Suit)
    requires
        0 <= i < s.len(),
    ensures
        points_sum(s, trump) == points_sum(s.remove(i), trump) + points_of(s[i], trump),
    decreases s.len(),
{
    if i == s.len() - 1 {
        assert(s.remove(i) =~= s.drop_last());
    } else {
        lemma_points_sum_remove(s.drop_last(), i, trump);
        assert(s.remove(i).drop_last() =~= s.drop_last().remove(i));
        assert(s.remove(i).last() == s.last());
    }
}

/// Deux paquets qui ont les memes cartes valent les memes points.
pub proof fn lemma_points_sum_perm(a: Seq<Card>, b: Seq<Card>, trump: crate::card::Suit)
    requires
        a.to_multiset() == b.to_multiset(),
    ensures
        points_sum(a, trump) == points_sum(b, trump),
    decreases a.len(),
{
    broadcast use vstd::multiset::group_multiset_axioms;

    assert(a.to_multiset().len() == a.len());
    assert(b.to_multiset().len() == b.len());
    if a.len() == 0 {
        assert(b.len() == 0);
    } else {
        let x = a.last();
        assert(a.drop_last().push(x) =~= a);
        assert(a.to_multiset().count(x) > 0);
        assert(b.to_multiset().count(x) > 0);
        assert(b.contains(x));
        let i = choose|i: int| 0 <= i < b.len() && b[i] == x;
        assert(b.remove(i).to_multiset() =~= b.to_multiset().remove(x));
        assert(a.drop_last().to_multiset() =~= a.to_multiset().remove(x));
        lemma_points_sum_perm(a.drop_last(), b.remove(i), trump);
        lemma_points_sum_remove(b, i, trump);
    }
}

/// Une carte presente a une premiere occurrence, ou elle se trouve bien.
pub proof fn lemma_first_index(s: Seq<Card>, c: Card)
    ensures
        s.contains(c) <==> first_index(s, c) is Some,
        first_index(s, c) matches Some(i) ==> 0 <= i < s.len() && s[i] == c,
    decreases s.len(),
{
    if s.len() > 0 {
        lemma_first_index(s.drop_last(), c);
        if s.contains(c) {
            let k = choose|k: int| 0 <= k < s.len() && s[k] == c;
            if k < s.len() - 1 {
                assert(s.drop_last()[k] == c);
            }
        }
        if let Some(i) = first_index(s.drop_last(), c) {
            assert(s[i] == c);
        }
    }
}

} // verus!

verus! {



/// Les cartes des quatre mains, mises bout a bout.
pub open spec fn all_hands(h: Seq<Seq<Card>>) -> Seq<Card> {
    h[0] + h[1] + h[2] + h[3]
}

/// Les cartes encore en jeu : en main ou sur le tapis.
pub open spec fn table_cards(m: GameModel) -> Seq<Card> {
    all_hands(m.hands) + trick_cards(m.trick)
}

/// Le siege a `k` pas de `leader` dans le sens du jeu.
pub open spec fn seat_at(leader: Seat, k: int) -> Seat {
    Seat(((leader.0 as int + k) % 4) as u8)
}

/// Le siege `s` a deja pose sa carte dans le pli en cours.
pub open spec fn in_trick(m: GameModel, s: Seat) -> bool {
    (s.0 as int - m.trick_leader.0 as int) % 4 < m.trick.len()
}

/// La plus grande cagnotte qu'une donne puisse recevoir sans que son
/// decompte depasse 16 bits.
pub open spec fn carry_limit() -> int {
    u16::MAX - 272
}

/// Etat de jeu de la carte bien forme, le pli en cours pouvant compter
/// jusqu'a `max_trick` cartes. `played` : les cartes deja posees.
pub open spec fn playing_core(m: GameModel, played: Seq<Card>, max_trick: int) -> bool {
    &&& m.phase == Phase::Playing
    &&& m.dealer.valid()
    &&& m.hands.len() == 4
    &&& m.trump is Some
    &&& m.taker matches Some(t) && t.valid()
    &&& m.tricks_played < 8
    &&& m.trick.len() <= max_trick
    &&& m.trick_leader.valid()
    &&& forall|i: int| 0 <= i < m.trick.len() ==> #[trigger] m.trick[i].seat == seat_at(m.trick_leader, i)
    &&& forall|i: int|
        0 <= i < 4 ==> #[trigger] m.hands[i].len() == 8 - m.tricks_played - if in_trick(
            m,
            Seat(i as u8),
        ) {
            1int
        } else {
            0int
        }
    &&& m.tricks_won.len() == 2
    &&& m.card_points.len() == 2
    &&& m.tricks_won[0] + m.tricks_won[1] == m.tricks_played
    &&& m.belote_shown <= 4 * m.tricks_played + m.trick.len()
    &&& m.card_points[0] + m.card_points[1] + points_sum(table_cards(m), m.trump->0)
        == TRICK_POINTS_TOTAL
    &&& all_hands(m.hands).to_multiset().add(played.to_multiset()) == deck_ms()
    &&& m.score is None
}

/// Etat de jeu de la carte bien forme, entre deux coups.
pub open spec fn playing_inv(m: GameModel, played: Seq<Card>) -> bool {
    &&& playing_core(m, played, 3)
    &&& m.turn == seat_at(m.trick_leader, m.trick.len() as int)
}

/// Donne achevee et comptee.
pub open spec fn finished_inv(m: GameModel, played: Seq<Card>) -> bool {
    &&& m.phase == Phase::Finished
    &&& m.score matches Some(sc) && sc.taker.valid() && sc.raw[0] == m.card_points[0]
        && sc.raw[1] == m.card_points[1]
    &&& m.card_points.len() == 2
    &&& m.tricks_won.len() == 2
    &&& m.card_points[0] + m.card_points[1] == 162
    &&& m.tricks_won[0] + m.tricks_won[1] == 8
    &&& m.hands.len() == 4
    &&& forall|i: int| 0 <= i < 4 ==> #[trigger] m.hands[i].len() == 0
    &&& m.trick.len() == 0
    &&& played.to_multiset() == deck_ms()
}

/// Points des quatre mains, main par main.
pub open spec fn hands_points(h: Seq<Seq<Card>>, trump: Suit) -> int {
    points_sum(h[0], trump) + points_sum(h[1], trump) + points_sum(h[2], trump) + points_sum(
        h[3],
        trump,
    )
}

/// Les cartes des quatre mains, comptees main par main.
pub open spec fn hands_ms(h: Seq<Seq<Card>>) -> Multiset<Card> {
    h[0].to_multiset().add(h[1].to_multiset()).add(h[2].to_multiset()).add(h[3].to_multiset())
}

/// Mettre les mains bout a bout ne change ni leurs points ni leurs cartes.
pub proof fn lemma_all_hands(h: Seq<Seq<Card>>, trump: Suit)
    ensures
        points_sum(all_hands(h), trump) == hands_points(h, trump),
        all_hands(h).to_multiset() == hands_ms(h),
        all_hands(h).len() == h[0].len() + h[1].len() + h[2].len() + h[3].len(),
{
    lemma_points_sum_add(h[0] + h[1] + h[2], h[3], trump);
    lemma_points_sum_add(h[0] + h[1], h[2], trump);
    lemma_points_sum_add(h[0], h[1], trump);
    vstd::seq_lib::lemma_multiset_commutative(h[0] + h[1] + h[2], h[3]);
    vstd::seq_lib::lemma_multiset_commutative(h[0] + h[1], h[2]);
    vstd::seq_lib::lemma_multiset_commutative(h[0], h[1]);
}

/// Les cartes en jeu, comptees par leurs points et leurs occurrences.
pub proof fn lemma_table_cards(m: GameModel, trump: Suit)
    ensures
        points_sum(table_cards(m), trump) == hands_points(m.hands, trump) + points_sum(
            trick_cards(m.trick),
            trump,
        ),
        table_cards(m).to_multiset() == hands_ms(m.hands).add(trick_cards(m.trick).to_multiset()),
        table_cards(m).len() == m.hands[0].len() + m.hands[1].len() + m.hands[2].len()
            + m.hands[3].len() + m.trick.len(),
{
    lemma_all_hands(m.hands, trump);
    lemma_points_sum_add(all_hands(m.hands), trick_cards(m.trick), trump);
    vstd::seq_lib::lemma_multiset_commutative(all_hands(m.hands), trick_cards(m.trick));
}

} // verus!

verus! {

/// Nombre total de cartes en main.
pub open spec fn cards_in_hands(m: GameModel) -> int {
    (m.hands[0].len() + m.hands[1].len() + m.hands[2].len() + m.hands[3].len()) as int
}

/// Retirer une carte d'une main la retire des cartes et des points des mains.
pub proof fn lemma_hands_remove(h: Seq<Seq<Card>>, si: int, c: Card, trump: Suit)
    requires
        h.len() == 4,
        0 <= si < 4,
        h[si].contains(c),
    ensures
        ({
            let h2 = h.update(si, remove_first(h[si], c));
            &&& hands_ms(h2) == hands_ms(h).remove(c)
            &&& hands_ms(h).count(c) > 0
            &&& hands_points(h2, trump) == hands_points(h, trump) - points_of(c, trump)
            &&& h2[si].len() == h[si].len() - 1
            &&& forall|k: int| 0 <= k < 4 && k != si ==> #[trigger] h2[k] == h[k]
        }),
{
    broadcast use vstd::multiset::group_multiset_axioms;

    let hand = h[si];
    lemma_first_index(hand, c);
    let i = first_index(hand, c)->0;
    let nh = hand.remove(i);
    let h2 = h.update(si, remove_first(h[si], c));
    assert(h2[si] == nh);
    lemma_points_sum_remove(hand, i, trump);
    assert(nh.to_multiset() =~= hand.to_multiset().remove(c)) by {
        assert(hand =~= hand.subrange(0, i) + seq![c] + hand.subrange(i + 1, hand.len() as int));
        assert(nh =~= hand.subrange(0, i) + hand.subrange(i + 1, hand.len() as int));
        vstd::seq_lib::lemma_multiset_commutative(hand.subrange(0, i) + seq![c], hand.subrange(i + 1, hand.len() as int));
        vstd::seq_lib::lemma_multiset_commutative(hand.subrange(0, i), seq![c]);
        vstd::seq_lib::lemma_multiset_commutative(hand.subrange(0, i), hand.subrange(i + 1, hand.len() as int));
    }
    assert(hand.to_multiset().count(c) > 0);
    assert(hands_ms(h2) =~= hands_ms(h).remove(c));
}

/// Poser une carte : elle quitte la main pour le tapis, les points des cartes
/// en jeu ne changent pas, et elle rejoint les cartes posees.
pub proof fn lemma_play_conserves(m: GameModel, played: Seq<Card>, seat: Seat, c: Card)
    requires
        m.hands.len() == 4,
        seat.valid(),
        m.hands[seat.0 as int].contains(c),
        all_hands(m.hands).to_multiset().add(played.to_multiset()) == deck_ms(),
    ensures
        ({
            let w = step(m, EventModel::Played { seat, card: c });
            &&& all_hands(w.hands).to_multiset().add(played.push(c).to_multiset()) == deck_ms()
            &&& points_sum(table_cards(w), m.trump->0) == points_sum(table_cards(m), m.trump->0)
        }),
{
    broadcast use vstd::multiset::group_multiset_axioms;

    let trump = m.trump->0;
    let si = seat.0 as int;
    let w = step(m, EventModel::Played { seat, card: c });
    lemma_hands_remove(m.hands, si, c, trump);
    assert(w.hands == m.hands.update(si, remove_first(m.hands[si], c)));
    assert(trick_cards(w.trick) =~= trick_cards(m.trick).push(c));
    lemma_table_cards(m, trump);
    lemma_table_cards(w, trump);
    lemma_points_sum_push(trick_cards(m.trick), c, trump);
    lemma_all_hands(m.hands, trump);
    lemma_all_hands(w.hands, trump);
    assert(played.push(c).to_multiset() =~= played.to_multiset().insert(c));
    assert(all_hands(w.hands).to_multiset().add(played.push(c).to_multiset()) =~= deck_ms());
}

/// Poser une carte de sa main, a son tour, garde l'etat bien forme : la
/// carte passe de la main au tapis, les points et les cartes se conservent.
#[verifier::spinoff_prover]
#[verifier::rlimit(40)]
pub proof fn lemma_play_card(m: GameModel, played: Seq<Card>, seat: Seat, c: Card)
    requires
        playing_inv(m, played),
        seat == m.turn,
        m.hands[seat.0 as int].contains(c),
    ensures
        announces_belote(m, seat, c) ==> m.belote_shown < 255,
        ({
            let w = after_play(m, seat, c);
            &&& playing_core(w, played.push(c), 4)
            &&& w.trick.len() == m.trick.len() + 1
            &&& w.trick_leader == m.trick_leader
            &&& w.tricks_played == m.tricks_played
            &&& w.turn == seat_at(m.trick_leader, w.trick.len() as int)
            &&& cards_in_hands(w) == cards_in_hands(m) - 1
            &&& forall|k: int|
                0 <= k < 4 ==> #[trigger] w.hands[k].len() == m.hands[k].len() - if k == seat.0 {
                    1int
                } else {
                    0int
                }
            &&& w.taker == m.taker
            &&& w.trump == m.trump
            &&& w.carry_in == m.carry_in
        }),
{
    let trump = m.trump->0;
    let w1 = if announces_belote(m, seat, c) {
        step(m, EventModel::BeloteShown { seat, complete: m.belote_shown == 1 })
    } else {
        m
    };
    let w = after_play(m, seat, c);
    let si = seat.0 as int;
    assert(w == step(w1, EventModel::Played { seat, card: c }));
    assert(table_cards(w1) == table_cards(m));
    lemma_play_conserves(w1, played, seat, c);
    lemma_hands_remove(m.hands, si, c, trump);
    assert(w.hands == m.hands.update(si, remove_first(m.hands[si], c)));
    assert(w.trick == m.trick.push(PlayedCard { seat, card: c }));

    // L'ordre de jeu.
    assert((seat.0 as int - m.trick_leader.0 as int) % 4 == m.trick.len());
    assert forall|k: int| 0 <= k < 4 implies #[trigger] w.hands[k].len() == 8 - w.tricks_played
        - if in_trick(w, Seat(k as u8)) {
        1int
    } else {
        0int
    } by {
        if k == si {
            assert(in_trick(w, Seat(k as u8)));
            assert(!in_trick(m, Seat(k as u8)));
        } else {
            assert(w.hands[k] == m.hands[k]);
            assert(in_trick(w, Seat(k as u8)) == in_trick(m, Seat(k as u8)));
        }
    }
    assert forall|k: int| 0 <= k < w.trick.len() implies #[trigger] w.trick[k].seat == seat_at(
        w.trick_leader,
        k,
    ) by {
        if k < m.trick.len() {
            assert(w.trick[k] == m.trick[k]);
        }
    }
}

/// Ramasser un pli complet : les points du pli passent a l'equipe gagnante,
/// qui mene le pli suivant ; apres le huitieme pli, la donne se compte.
pub proof fn lemma_trick_taken(w: GameModel, played: Seq<Card>)
    requires
        playing_core(w, played, 4),
        w.trick.len() == 4,
    ensures
        reduce_safe(w, trick_taken_event(w)),
        ({
            let w3 = step(w, trick_taken_event(w));
            &&& w.tricks_played < 7 ==> playing_inv(w3, played) && cards_in_hands(w3)
                == cards_in_hands(w)
            &&& w.tricks_played == 7 ==> (w.carry_in <= carry_limit() ==> score_safe(w3))
                && finished_inv(
                step(w3, EventModel::Scored(spec_score_deal(w3))),
                played,
            )
        }),
{
    let trump = w.trump->0;
    let tt = trick_taken_event(w);
    let w3 = step(w, tt);
    lemma_trick_winner(w.trick, trump);
    let relevant = relevant_suit(w.trick, trump);
    let j = best_in(w.trick, relevant, relevant == trump)->0;
    let winner = w.trick[j].seat;
    assert(winner == seat_at(w.trick_leader, j));
    assert(winner.valid());
    let team = winner.spec_team().0 as int;
    lemma_table_cards(w, trump);
    lemma_points_sum_bounded(w.hands[0], trump);
    lemma_points_sum_bounded(w.hands[1], trump);
    lemma_points_sum_bounded(w.hands[2], trump);
    lemma_points_sum_bounded(w.hands[3], trump);
    lemma_points_sum_bounded(trick_cards(w.trick), trump);
    let tp = spec_trick_points(w.trick, trump);
    assert(tp <= 80);
    assert(w.card_points[0] + w.card_points[1] + tp <= 152);
    let pts = tp + if w.tricks_played == 7 {
        10int
    } else {
        0int
    };
    assert(tt == EventModel::TrickTaken { winner, points: pts as u16, last: w.tricks_played == 7 });
    assert(w3.card_points[team] == w.card_points[team] + pts);
    assert(w3.card_points[1 - team] == w.card_points[1 - team]);
    assert(w3.card_points[0] + w3.card_points[1] == w.card_points[0] + w.card_points[1] + pts);
    assert(w3.tricks_won[0] + w3.tricks_won[1] == w.tricks_won[0] + w.tricks_won[1] + 1);
    assert(w3.tricks_won.len() == 2);
    assert(w3.card_points.len() == 2);
    assert forall|i: int| 0 <= i < 4 implies #[trigger] w.hands[i].len() == 7 - w.tricks_played by {
        assert(in_trick(w, Seat(i as u8)));
    }
    assert(table_cards(w3) =~= all_hands(w.hands)) by {
        assert(trick_cards(w3.trick) =~= Seq::<Card>::empty());
    }
    lemma_table_cards(w3, trump);
    if w.tricks_played < 7 {
        assert forall|i: int| 0 <= i < 4 implies #[trigger] w3.hands[i].len() == 8
            - w3.tricks_played - if in_trick(w3, Seat(i as u8)) {
            1int
        } else {
            0int
        } by {
            assert(!in_trick(w3, Seat(i as u8)));
        }
    } else {
        assert(forall|i: int| 0 <= i < 4 ==> #[trigger] w3.hands[i].len() == 0);
        assert(all_hands(w3.hands) =~= Seq::<Card>::empty());
        assert(points_sum(Seq::<Card>::empty(), trump) == 0);
        assert(w3.card_points[0] + w3.card_points[1] == 162);
        let f = step(w3, EventModel::Scored(spec_score_deal(w3)));
        assert(played.to_multiset() =~= deck_ms()) by {
            broadcast use vstd::multiset::group_multiset_axioms;
            assert(all_hands(w3.hands).to_multiset() =~= Multiset::<Card>::empty());
        }
    }
}

/// Encheres en cours : cinq cartes par main, la retournee et la reserve
/// completent le paquet ; rien n'est encore pose.
pub open spec fn bidding_inv(m: GameModel, played: Seq<Card>) -> bool {
    &&& m.phase == Phase::Bidding1 || m.phase == Phase::Bidding2
    &&& m.dealer.valid()
    &&& m.turn.valid()
    &&& m.passes < 4
    &&& m.hands.len() == 4
    &&& forall|i: int| 0 <= i < 4 ==> #[trigger] m.hands[i].len() == 5
    &&& m.upcard is Some
    &&& m.stock.len() == 11
    &&& all_hands(m.hands).to_multiset().insert(m.upcard->0).add(m.stock.to_multiset())
        == deck_ms()
    &&& played.len() == 0
    &&& m.trick.len() == 0
    &&& m.tricks_played == 0
    &&& m.tricks_won == seq![0u8, 0u8]
    &&& m.card_points == seq![0u16, 0u16]
    &&& m.belote_shown == 0
    &&& m.score is None
    &&& m.trump is None
    &&& m.taker is None
}

/// Le siege qui recoit en `k`-ieme position, en commencant a gauche du donneur.
pub open spec fn dealt_seat(dealer: Seat, k: int) -> int {
    (dealer.0 as int + 1 + k) % 4
}

/// Sommer sur les quatre sieges dans l'ordre de la distribution revient a
/// sommer dans l'ordre des indices.
pub proof fn lemma_rotate_sum(f: spec_fn(int) -> Multiset<Card>, dealer: Seat)
    requires
        dealer.valid(),
    ensures
        f(0).add(f(1)).add(f(2)).add(f(3)) == f(dealt_seat(dealer, 0)).add(
            f(dealt_seat(dealer, 1)),
        ).add(f(dealt_seat(dealer, 2))).add(f(dealt_seat(dealer, 3))),
{
    broadcast use vstd::multiset::group_multiset_axioms;

    let a = f(0).add(f(1)).add(f(2)).add(f(3));
    let b = f(dealt_seat(dealer, 0)).add(f(dealt_seat(dealer, 1))).add(
        f(dealt_seat(dealer, 2)),
    ).add(f(dealt_seat(dealer, 3)));
    if dealer.0 == 0 {
        assert(a =~= b);
    } else if dealer.0 == 1 {
        assert(a =~= b);
    } else if dealer.0 == 2 {
        assert(a =~= b);
    } else {
        assert(a =~= b);
    }
}

/// Le `k`-ieme servi est bien en position `k` de la distribution.
pub proof fn lemma_dealt_seat(dealer: Seat, k: int)
    requires
        dealer.valid(),
        0 <= k < 4,
    ensures
        0 <= dealt_seat(dealer, k) < 4,
        deal_position(dealer, Seat(dealt_seat(dealer, k) as u8)) == k,
{
}

/// Une position de distribution designe un unique siege.
pub proof fn lemma_deal_position(dealer: Seat, s: Seat)
    requires
        dealer.valid(),
        s.valid(),
    ensures
        0 <= deal_position(dealer, s) < 4,
        dealt_seat(dealer, deal_position(dealer, s)) == s.0,
{
}

/// Passer, a son tour, pendant les encheres : soit les encheres continuent,
/// soit, apres quatre passes au second tour, la donne est a redistribuer.
pub proof fn lemma_pass(m: GameModel, played: Seq<Card>, seat: Seat)
    requires
        bidding_inv(m, played),
        seat == m.turn,
    ensures
        reduce_safe(m, EventModel::Passed { seat }),
        ({
            let w = step(m, EventModel::Passed { seat });
            if w.phase == Phase::Bidding2 && w.passes == 4 {
                &&& reduce_safe(w, EventModel::Redeal)
                &&& step(w, EventModel::Redeal).phase == Phase::Redeal
                &&& m.phase == Phase::Bidding2
                &&& m.passes == 3
            } else {
                &&& bidding_inv(w, played)
                &&& (m.phase == Phase::Bidding1 ==> w.phase == Phase::Bidding2 || w.passes
                    == m.passes + 1)
                &&& (m.phase == Phase::Bidding2 ==> w.phase == Phase::Bidding2 && w.passes
                    == m.passes + 1)
            }
        }),
{
}

/// La part de reserve qu'un siege recoit au complement, sans la retournee.
pub open spec fn stock_part(m: GameModel, taker: Seat, i: int) -> Seq<Card> {
    let s = Seat(i as u8);
    let off = extra_offset(m.dealer, taker, s);
    m.stock.subrange(off, off + extra_count(taker, s))
}

/// Les parts de reserve se suivent sans trou ni chevauchement, dans l'ordre
/// de la distribution, et couvrent toute la reserve.
pub proof fn lemma_stock_partition(m: GameModel, taker: Seat)
    requires
        m.dealer.valid(),
        taker.valid(),
        m.stock.len() == 11,
    ensures
        stock_part(m, taker, 0).to_multiset().add(stock_part(m, taker, 1).to_multiset()).add(
            stock_part(m, taker, 2).to_multiset(),
        ).add(stock_part(m, taker, 3).to_multiset()) == m.stock.to_multiset(),
        forall|i: int| 0 <= i < 4 ==> #[trigger] stock_part(m, taker, i).len() == extra_count(taker, Seat(i as u8)),
{
    let d = m.dealer;
    let p = deal_position(d, taker);
    lemma_deal_position(d, taker);
    let o = |k: int| 3 * k - if p < k { 1int } else { 0int };
    let c = |k: int| if k == p { 2int } else { 3int };
    let r = |k: int| m.stock.subrange(o(k), o(k) + c(k));
    assert forall|k: int| 0 <= k < 4 implies #[trigger] stock_part(m, taker, dealt_seat(d, k)) == r(k) by {
        lemma_dealt_seat(d, k);
        let ds = dealt_seat(d, k);
        if k == p {
            assert(Seat(ds as u8) == taker);
        } else {
            assert(Seat(ds as u8) != taker);
        }
    }
    assert forall|i: int| 0 <= i < 4 implies #[trigger] stock_part(m, taker, i).len() == extra_count(taker, Seat(i as u8)) by {
        lemma_deal_position(d, Seat(i as u8));
    }
    assert(m.stock =~= r(0) + r(1) + r(2) + r(3));
    vstd::seq_lib::lemma_multiset_commutative(r(0) + r(1) + r(2), r(3));
    vstd::seq_lib::lemma_multiset_commutative(r(0) + r(1), r(2));
    vstd::seq_lib::lemma_multiset_commutative(r(0), r(1));
    let f = |i: int| stock_part(m, taker, i).to_multiset();
    lemma_rotate_sum(f, d);
    assert(stock_part(m, taker, dealt_seat(d, 0)) == r(0));
    assert(stock_part(m, taker, dealt_seat(d, 1)) == r(1));
    assert(stock_part(m, taker, dealt_seat(d, 2)) == r(2));
    assert(stock_part(m, taker, dealt_seat(d, 3)) == r(3));
}

/// Prendre pendant les encheres : la reserve et la retournee completent les
/// mains a huit cartes, et le jeu de la carte commence a gauche du donneur
/// avec tout le paquet en main.
#[verifier::spinoff_prover]
pub proof fn lemma_take(m: GameModel, played: Seq<Card>, seat: Seat, suit: Suit, from_upcard: bool)
    requires
        bidding_inv(m, played),
        seat == m.turn,
    ensures
        ({
            let evs = spec_take_events(m, seat, suit, from_upcard);
            let w1 = step(m, evs[0]);
            let w2 = step(w1, evs[1]);
            &&& take_safe(m, seat)
            &&& reduce_safe(m, evs[0])
            &&& reduce_safe(w1, evs[1])
            &&& playing_inv(w2, Seq::empty())
            &&& cards_in_hands(w2) == 32
            &&& w2.taker == Some(seat)
            &&& w2.trump == Some(suit)
            &&& w2.carry_in == m.carry_in
            &&& w2.dealer == m.dealer
        }),
{
    broadcast use vstd::multiset::group_multiset_axioms;

    let evs = spec_take_events(m, seat, suit, from_upcard);
    let w1 = step(m, evs[0]);
    let w2 = step(w1, evs[1]);
    let extra = spec_extra(m, seat);
    let u = m.upcard->0;
    let h = m.hands;
    lemma_stock_partition(m, seat);
    assert(w2.hands == Seq::new(4, |i: int| h[i] + extra[i]));
    assert forall|i: int| 0 <= i < 4 implies #[trigger] extra[i].to_multiset() == if i == seat.0 {
        stock_part(m, seat, i).to_multiset().insert(u)
    } else {
        stock_part(m, seat, i).to_multiset()
    } && extra[i].len() == 3 by {
        if i == seat.0 {
            assert(extra[i] == stock_part(m, seat, i).push(u));
        } else {
            assert(extra[i] == stock_part(m, seat, i));
        }
    }
    let em = extra[0].to_multiset().add(extra[1].to_multiset()).add(extra[2].to_multiset()).add(
        extra[3].to_multiset(),
    );
    assert(em =~= m.stock.to_multiset().insert(u)) by {
        let s0 = stock_part(m, seat, 0).to_multiset();
        let s1 = stock_part(m, seat, 1).to_multiset();
        let s2 = stock_part(m, seat, 2).to_multiset();
        let s3 = stock_part(m, seat, 3).to_multiset();
        assert(s0.add(s1).add(s2).add(s3) == m.stock.to_multiset());
        if seat.0 == 0 {
            assert(em =~= s0.insert(u).add(s1).add(s2).add(s3));
        } else if seat.0 == 1 {
            assert(em =~= s0.add(s1.insert(u)).add(s2).add(s3));
        } else if seat.0 == 2 {
            assert(em =~= s0.add(s1).add(s2.insert(u)).add(s3));
        } else {
            assert(em =~= s0.add(s1).add(s2).add(s3.insert(u)));
        }
    }
    assert forall|i: int| 0 <= i < 4 implies #[trigger] w2.hands[i].to_multiset() == h[i].to_multiset().add(
        extra[i].to_multiset(),
    ) && w2.hands[i].len() == 8 by {
        vstd::seq_lib::lemma_multiset_commutative(h[i], extra[i]);
    }
    let trump = suit;
    lemma_all_hands(h, trump);
    lemma_all_hands(w2.hands, trump);
    assert(hands_ms(w2.hands) =~= hands_ms(h).add(em));
    assert(all_hands(w2.hands).to_multiset() =~= deck_ms());
    assert(all_hands(w2.hands).to_multiset().add(Seq::<Card>::empty().to_multiset()) =~= deck_ms());
    // Les points : tout le paquet est en main.
    lemma_points_sum_perm(all_hands(w2.hands), spec_deck(), trump);
    lemma_deck_points(trump);
    lemma_table_cards(w2, trump);
    assert(table_cards(w2) =~= all_hands(w2.hands)) by {
        assert(trick_cards(w2.trick) =~= Seq::<Card>::empty());
    }
    assert forall|i: int| 0 <= i < 4 implies #[trigger] w2.hands[i].len() == 8 - w2.tricks_played
        - if in_trick(w2, Seat(i as u8)) {
        1int
    } else {
        0int
    } by {
        assert(!in_trick(w2, Seat(i as u8)));
    }
}

/// Distribuer un paquet complet ouvre les encheres : cinq cartes par main,
/// une retournee, onze cartes en reserve, rien de pose.
#[verifier::spinoff_prover]
pub proof fn lemma_deal(m: GameModel, dealer: Seat, carry_in: u16, deck: Seq<Card>)
    requires
        dealer.valid(),
        deck.to_multiset() == deck_ms(),
    ensures
        bidding_inv(step(m, spec_deal(dealer, carry_in, deck)), Seq::empty()),
        step(m, spec_deal(dealer, carry_in, deck)).phase == Phase::Bidding1,
        step(m, spec_deal(dealer, carry_in, deck)).passes == 0,
        step(m, spec_deal(dealer, carry_in, deck)).dealer == dealer,
        step(m, spec_deal(dealer, carry_in, deck)).carry_in == carry_in,
{
    broadcast use vstd::multiset::group_multiset_axioms;

    lemma_deck_complete();
    assert(deck.len() == 32) by {
        assert(deck.to_multiset().len() == deck.len());
        assert(spec_deck().to_multiset().len() == spec_deck().len());
    }
    let w = step(m, spec_deal(dealer, carry_in, deck));
    let h = spec_dealt_hands(dealer, deck);
    assert(w.hands == h);
    let a = |k: int| deck.subrange(3 * k, 3 * k + 3);
    let b = |k: int| deck.subrange(12 + 2 * k, 12 + 2 * k + 2);
    assert forall|k: int| 0 <= k < 4 implies #[trigger] h[dealt_seat(dealer, k)].to_multiset() == a(k).to_multiset().add(
        b(k).to_multiset(),
    ) by {
        lemma_dealt_seat(dealer, k);
        assert(h[dealt_seat(dealer, k)] == a(k) + b(k));
        vstd::seq_lib::lemma_multiset_commutative(a(k), b(k));
    }
    assert forall|i: int| 0 <= i < 4 implies #[trigger] h[i].len() == 5 by {
        lemma_deal_position(dealer, Seat(i as u8));
    }
    let f = |i: int| h[i].to_multiset();
    lemma_rotate_sum(f, dealer);
    lemma_all_hands(h, Suit::Clubs);
    let st = deck.subrange(21, 32);
    let top = a(0) + a(1) + a(2) + a(3) + b(0) + b(1) + b(2) + b(3);
    assert(deck =~= top + seq![deck[20]] + st);
    vstd::seq_lib::lemma_multiset_commutative(top + seq![deck[20]], st);
    vstd::seq_lib::lemma_multiset_commutative(top, seq![deck[20]]);
    vstd::seq_lib::lemma_multiset_commutative(a(0) + a(1) + a(2) + a(3) + b(0) + b(1) + b(2), b(3));
    vstd::seq_lib::lemma_multiset_commutative(a(0) + a(1) + a(2) + a(3) + b(0) + b(1), b(2));
    vstd::seq_lib::lemma_multiset_commutative(a(0) + a(1) + a(2) + a(3) + b(0), b(1));
    vstd::seq_lib::lemma_multiset_commutative(a(0) + a(1) + a(2) + a(3), b(0));
    vstd::seq_lib::lemma_multiset_commutative(a(0) + a(1) + a(2), a(3));
    vstd::seq_lib::lemma_multiset_commutative(a(0) + a(1), a(2));
    vstd::seq_lib::lemma_multiset_commutative(a(0), a(1));
    assert(hands_ms(h) =~= a(0).to_multiset().add(b(0).to_multiset()).add(
        a(1).to_multiset().add(b(1).to_multiset()),
    ).add(a(2).to_multiset().add(b(2).to_multiset())).add(
        a(3).to_multiset().add(b(3).to_multiset()),
    ));
    assert(all_hands(w.hands).to_multiset().insert(w.upcard->0).add(w.stock.to_multiset())
        =~= deck_ms());
}

} // verus!
