//! Une donne bien formee le reste a chaque action acceptee, et chaque action
//! la rapproche de sa fin.

use vstd::prelude::*;

use crate::action::Action;
use crate::bot::{
    bot_safe, lemma_bot_plays_by_the_rules, spec_choose_action, spec_evaluate, value_sum,
};
use crate::card::{Card, Suit};
use crate::view::{projected, PlayerView};
use crate::deal_laws::{
    bidding_inv, cards_in_hands, carry_limit, finished_inv, lemma_pass, lemma_play_card, lemma_take,
    lemma_trick_taken, playing_inv, seat_at, in_trick,
};
use crate::event::{events_view, Event, EventModel};
use crate::rules::{
    after_play, announces_belote, apply_safe, contains_card, legal_moves, lemma_legal_moves_in_hand,
    play_fits, play_prepared,
    lemma_legal_moves_nonempty, lemma_points_sum_bounded, play_safe, reduce, reduce_safe,
    trick_cards,
    replay, replay_safe, spec_apply, spec_legal_moves, spec_play_events, spec_score_deal,
    spec_take_events, step, trick_taken_event,
};
use crate::state::{GameModel, GameState, Phase, Seat};

verus! {

/// Les cartes posees au fil d'un journal, dans l'ordre.
pub open spec fn played_in(evs: Seq<EventModel>) -> Seq<Card>
    decreases evs.len(),
{
    if evs.len() == 0 {
        Seq::empty()
    } else {
        let rest = played_in(evs.drop_last());
        match evs.last() {
            EventModel::Played { card, .. } => rest.push(card),
            _ => rest,
        }
    }
}

/// Le nombre de cartes posees par le siege `s` au fil d'un journal.
pub open spec fn plays_of(evs: Seq<EventModel>, s: Seat) -> int
    decreases evs.len(),
{
    if evs.len() == 0 {
        0
    } else {
        plays_of(evs.drop_last(), s) + match evs.last() {
            EventModel::Played { seat, .. } => if seat == s {
                1int
            } else {
                0int
            },
            _ => 0int,
        }
    }
}

/// Chaque siege a pose autant de cartes qu'il en manque a sa main de huit,
/// une fois le jeu de la carte commence ; aucune avant.
pub open spec fn counts_ok(m: GameModel, evs: Seq<EventModel>) -> bool {
    forall|k: int|
        0 <= k < 4 ==> #[trigger] plays_of(evs, Seat(k as u8)) == if m.phase == Phase::Playing
            || m.phase == Phase::Finished {
            8 - m.hands[k].len()
        } else {
            0
        }
}

/// Une donne bien formee, a n'importe quel moment entre deux actions.
pub open spec fn deal_inv(m: GameModel, played: Seq<Card>) -> bool {
    ||| bidding_inv(m, played)
    ||| playing_inv(m, played)
    ||| finished_inv(m, played)
    ||| m.phase == Phase::Redeal && played.len() == 0
}

/// Ce qui reste a faire avant la fin de la donne ; chaque action le fait
/// baisser.
pub open spec fn deal_measure(m: GameModel) -> int {
    match m.phase {
        Phase::Bidding1 => 200 - m.passes,
        Phase::Bidding2 => 100 - m.passes,
        Phase::Playing => cards_in_hands(m),
        _ => 0,
    }
}

/// Rejouer un evenement de plus.
pub proof fn lemma_replay_push(m: GameModel, evs: Seq<EventModel>, e: EventModel)
    ensures
        replay(m, evs.push(e)) == step(replay(m, evs), e),
        replay_safe(m, evs.push(e)) == (replay_safe(m, evs) && reduce_safe(replay(m, evs), e)),
        played_in(evs.push(e)) == match e {
            EventModel::Played { card, .. } => played_in(evs).push(card),
            _ => played_in(evs),
        },
        forall|s: Seat|
            #[trigger] plays_of(evs.push(e), s) == plays_of(evs, s) + match e {
                EventModel::Played { seat, .. } => if seat == s {
                    1int
                } else {
                    0int
                },
                _ => 0int,
            },
{
    assert(evs.push(e).drop_last() =~= evs);
}

/// Un siege ne pose pas plus de cartes qu'il n'en est pose en tout.
pub proof fn lemma_plays_of_bounded(evs: Seq<EventModel>, s: Seat)
    ensures
        0 <= plays_of(evs, s) <= played_in(evs).len(),
    decreases evs.len(),
{
    if evs.len() > 0 {
        lemma_plays_of_bounded(evs.drop_last(), s);
        lemma_replay_push(replay_origin(), evs.drop_last(), evs.last());
        assert(evs.drop_last().push(evs.last()) =~= evs);
    }
}

/// Un etat quelconque, d'ou rejouer quand seul le journal importe.
pub open spec fn replay_origin() -> GameModel {
    crate::state::fresh_model(Seat(0), 0)
}

/// Rejouer la suite d'un journal deja rejoue en partie.
pub proof fn lemma_replay_append(m: GameModel, a: Seq<EventModel>, b: Seq<EventModel>)
    ensures
        replay(m, a + b) == replay(replay(m, a), b),
        replay_safe(m, a + b) == (replay_safe(m, a) && replay_safe(replay(m, a), b)),
        played_in(a + b) == played_in(a) + played_in(b),
        forall|s: Seat| #[trigger] plays_of(a + b, s) == plays_of(a, s) + plays_of(b, s),
    decreases b.len(),
{
    if b.len() == 0 {
        assert(a + b =~= a);
        assert(played_in(a) + played_in(b) =~= played_in(a));
    } else {
        lemma_replay_append(m, a, b.drop_last());
        assert((a + b).drop_last() =~= a + b.drop_last());
        lemma_replay_push(m, a + b.drop_last(), b.last());
        lemma_replay_push(replay(m, a), b.drop_last(), b.last());
        assert(b.drop_last().push(b.last()) =~= b);
        assert((a + b.drop_last()).push(b.last()) =~= a + b);
        assert(played_in(a) + played_in(b.drop_last()).push(b.last()->card) =~= (played_in(a)
            + played_in(b.drop_last())).push(b.last()->card));
    }
}

/// Chaque prefixe d'un journal rejouable sans incident se rejoue sans
/// incident, et l'evenement suivant s'applique sans incident.
pub proof fn lemma_replay_safe_prefix(m: GameModel, evs: Seq<EventModel>, i: int)
    requires
        replay_safe(m, evs),
        0 <= i < evs.len(),
    ensures
        replay_safe(m, evs.subrange(0, i)),
        reduce_safe(replay(m, evs.subrange(0, i)), evs[i]),
    decreases evs.len(),
{
    if i == evs.len() - 1 {
        assert(evs.subrange(0, i) =~= evs.drop_last());
    } else {
        lemma_replay_safe_prefix(m, evs.drop_last(), i);
        assert(evs.drop_last().subrange(0, i) =~= evs.subrange(0, i));
    }
}

/// Poser une carte legale : la donne reste bien formee, une carte de moins
/// reste en main, et la carte rejoint les cartes posees.
#[verifier::spinoff_prover]
pub proof fn lemma_play_action(m: GameModel, played: Seq<Card>, card: Card)
    requires
        playing_inv(m, played),
        spec_legal_moves(m, m.turn).contains(card),
    ensures
        play_prepared(m, m.turn, card),
        m.carry_in <= carry_limit() ==> play_safe(m, m.turn, card),
        replay_safe(m, spec_play_events(m, m.turn, card)),
        deal_inv(replay(m, spec_play_events(m, m.turn, card)), played.push(card)),
        played_in(spec_play_events(m, m.turn, card)) == seq![card],
        deal_measure(replay(m, spec_play_events(m, m.turn, card))) < deal_measure(m),
        replay(m, spec_play_events(m, m.turn, card)).dealer == m.dealer,
        replay(m, spec_play_events(m, m.turn, card)).carry_in == m.carry_in,
        forall|k: int|
            0 <= k < 4 ==> #[trigger] replay(m, spec_play_events(m, m.turn, card)).hands[k].len()
                == m.hands[k].len() - if k == m.turn.0 {
                1int
            } else {
                0int
            },
        forall|s: Seat|
            #[trigger] plays_of(spec_play_events(m, m.turn, card), s) == if s == m.turn {
                1int
            } else {
                0int
            },
{
    let seat = m.turn;
    lemma_legal_moves_in_hand(m, seat, card);
    lemma_play_card(m, played, seat, card);
    let b = EventModel::BeloteShown { seat, complete: m.belote_shown == 1 };
    let p = EventModel::Played { seat, card };
    let e1: Seq<EventModel> = if announces_belote(m, seat, card) {
        seq![b]
    } else {
        Seq::empty()
    };
    let w1 = if announces_belote(m, seat, card) {
        step(m, b)
    } else {
        m
    };
    let w2 = after_play(m, seat, card);
    let e2 = e1.push(p);
    lemma_replay_push(m, Seq::empty(), b);
    assert(Seq::<EventModel>::empty().push(b) =~= seq![b]);
    assert(replay(m, e1) == w1);
    assert(replay_safe(m, e1));
    assert(played_in(e1) =~= Seq::<Card>::empty());
    lemma_replay_push(m, e1, p);
    assert(replay(m, e2) == w2);
    assert(played_in(e2) =~= seq![card]);
    let evs = spec_play_events(m, seat, card);
    if w2.trick.len() == 4 {
        let tt = trick_taken_event(w2);
        lemma_trick_taken(w2, played.push(card));
        let w3 = step(w2, tt);
        lemma_replay_push(m, e2, tt);
        if w2.tricks_played == 7 {
            let sc = EventModel::Scored(spec_score_deal(w3));
            lemma_replay_push(m, e2.push(tt), sc);
            assert(evs == e2.push(tt).push(sc));
        } else {
            assert(evs == e2.push(tt));
        }
    } else {
        assert(evs == e2);
        assert(playing_inv(w2, played.push(card)));
    }
}

/// Prendre, au premier tour avec la couleur de la retournee ou au second avec
/// une autre : le jeu de la carte commence, avec tout le paquet en main.
pub proof fn lemma_take_action(m: GameModel, played: Seq<Card>, suit: crate::card::Suit, from_upcard: bool)
    requires
        bidding_inv(m, played),
    ensures
        replay_safe(m, spec_take_events(m, m.turn, suit, from_upcard)),
        deal_inv(replay(m, spec_take_events(m, m.turn, suit, from_upcard)), played),
        played_in(spec_take_events(m, m.turn, suit, from_upcard)).len() == 0,
        deal_measure(replay(m, spec_take_events(m, m.turn, suit, from_upcard))) < deal_measure(m),
        replay(m, spec_take_events(m, m.turn, suit, from_upcard)).dealer == m.dealer,
        replay(m, spec_take_events(m, m.turn, suit, from_upcard)).carry_in == m.carry_in,
{
    let seat = m.turn;
    let evs = spec_take_events(m, seat, suit, from_upcard);
    lemma_take(m, played, seat, suit, from_upcard);
    lemma_replay_push(m, Seq::empty(), evs[0]);
    assert(Seq::<EventModel>::empty().push(evs[0]) =~= seq![evs[0]]);
    lemma_replay_push(m, seq![evs[0]], evs[1]);
    assert(seq![evs[0]].push(evs[1]) =~= evs);
    assert(played.len() == 0);
    assert(played =~= Seq::<Card>::empty());
}

/// Passer : les encheres continuent, ou la donne est a redistribuer.
pub proof fn lemma_pass_action(m: GameModel, played: Seq<Card>)
    requires
        bidding_inv(m, played),
        spec_apply(m, m.turn, Action::Pass) is Ok,
    ensures
        replay_safe(m, spec_apply(m, m.turn, Action::Pass)->Ok_0),
        deal_inv(replay(m, spec_apply(m, m.turn, Action::Pass)->Ok_0), played),
        played_in(spec_apply(m, m.turn, Action::Pass)->Ok_0).len() == 0,
        deal_measure(replay(m, spec_apply(m, m.turn, Action::Pass)->Ok_0)) < deal_measure(m),
        replay(m, spec_apply(m, m.turn, Action::Pass)->Ok_0).dealer == m.dealer,
        replay(m, spec_apply(m, m.turn, Action::Pass)->Ok_0).carry_in == m.carry_in,
{
    let seat = m.turn;
    lemma_pass(m, played, seat);
    let evs = spec_apply(m, seat, Action::Pass)->Ok_0;
    let p = EventModel::Passed { seat };
    lemma_replay_push(m, Seq::empty(), p);
    assert(Seq::<EventModel>::empty().push(p) =~= seq![p]);
    if evs.len() == 2 {
        lemma_replay_push(m, seq![p], EventModel::Redeal);
        assert(seq![p].push(EventModel::Redeal) =~= evs);
    } else {
        assert(evs =~= seq![p]);
    }
}

/// Toute action acceptee sur une donne bien formee se traite sans incident,
/// garde la donne bien formee, et la rapproche de sa fin.
pub proof fn lemma_action(m: GameModel, played: Seq<Card>, action: Action)
    requires
        deal_inv(m, played),
        !m.is_over(),
        spec_apply(m, m.turn, action) is Ok,
    ensures
        m.carry_in <= carry_limit() ==> apply_safe(m, m.turn, action),
        replay_safe(m, spec_apply(m, m.turn, action)->Ok_0),
        deal_inv(
            replay(m, spec_apply(m, m.turn, action)->Ok_0),
            played + played_in(spec_apply(m, m.turn, action)->Ok_0),
        ),
        deal_measure(replay(m, spec_apply(m, m.turn, action)->Ok_0)) < deal_measure(m),
        replay(m, spec_apply(m, m.turn, action)->Ok_0).dealer == m.dealer,
        replay(m, spec_apply(m, m.turn, action)->Ok_0).carry_in == m.carry_in,
{
    let seat = m.turn;
    let evs = spec_apply(m, seat, action)->Ok_0;
    match action {
        Action::Pass => {
            lemma_pass_action(m, played);
            assert(played + played_in(evs) =~= played);
        },
        Action::Take => {
            lemma_take_action(m, played, m.upcard->0.suit, true);
            assert(played + played_in(evs) =~= played);
            lemma_take(m, played, seat, m.upcard->0.suit, true);
        },
        Action::ChooseTrump { suit } => {
            lemma_take_action(m, played, suit, false);
            assert(played + played_in(evs) =~= played);
            lemma_take(m, played, seat, suit, false);
        },
        Action::Play { card } => {
            lemma_play_action(m, played, card);
            assert(played + seq![card] =~= played.push(card));
        },
    }
}

/// Pendant le jeu de la carte, le siege a qui c'est le tour a toujours au
/// moins un coup legal.
pub proof fn lemma_player_to_move_has_a_legal_card(m: GameModel, played: Seq<Card>)
    requires
        playing_inv(m, played),
    ensures
        spec_legal_moves(m, m.turn).len() > 0,
{
    assert(!in_trick(m, m.turn));
    lemma_legal_moves_nonempty(m, m.turn);
}

/// Une carte n'apporte jamais plus de 25 a l'estimation d'une main.
pub proof fn lemma_value_sum_bounded(hand: Seq<Card>, trump: Suit)
    ensures
        0 <= value_sum(hand, trump) <= 25 * hand.len(),
    decreases hand.len(),
{
    if hand.len() > 0 {
        lemma_value_sum_bounded(hand.drop_last(), trump);
    }
}

/// Dans une donne bien formee qui n'est pas finie, le bot a qui c'est le
/// tour calcule sans depassement, propose toujours une action, et le moteur
/// l'accepte.
pub proof fn lemma_bot_turn(m: GameModel, played: Seq<Card>, v: PlayerView)
    requires
        deal_inv(m, played),
        !m.is_over(),
        projected(m, m.turn, v),
    ensures
        m.turn.valid(),
        bot_safe(v),
        spec_choose_action(v) is Some,
        spec_apply(m, m.turn, spec_choose_action(v)->0) is Ok,
{
    let seat = m.turn;
    lemma_bot_plays_by_the_rules(v);
    if bidding_inv(m, played) {
        let u = m.upcard->0;
        let h = v.hand@.push(u);
        assert(h.len() == 6);
        assert forall|s: Suit| #[trigger] spec_evaluate(h, s) <= u16::MAX by {
            lemma_value_sum_bounded(h, s);
        }
    } else {
        assert(playing_inv(m, played));
        let t = m.trump->0;
        lemma_points_sum_bounded(trick_cards(m.trick), t);
        assert(!in_trick(m, seat));
        assert(m.hands[seat.0 as int].len() > 0);
        lemma_legal_moves_nonempty(m, seat);
        if let Some(Action::Play { card }) = spec_choose_action(v) {
            lemma_legal_moves_in_hand(m, seat, card);
        }
    }
}

/// Sur une donne bien formee, toute action de tout siege se traite sans
/// incident : acceptee ou refusee, jamais de depassement ni d'indice hors
/// bornes. La seule reserve est le decompte de la donne apres la derniere
/// carte, qui tient sur 16 bits des que la cagnotte recue ne depasse pas
/// `carry_limit()` ; au-dela, tout se passe sans incident jusqu'au
/// ramassage du dernier pli.
pub proof fn lemma_apply_safe(m: GameModel, played: Seq<Card>, seat: Seat, action: Action)
    requires
        deal_inv(m, played),
    ensures
        (m.carry_in <= carry_limit() || !(action is Play)) ==> apply_safe(m, seat, action),
        (!m.is_over() && m.turn == seat && m.phase == Phase::Playing) ==> seat.valid(),
        (!m.is_over() && m.turn == seat && m.phase == Phase::Playing) ==> (action matches Action::Play {
            card,
        } ==> (spec_legal_moves(m, seat).contains(card) ==> play_prepared(m, seat, card))),
{
    if !m.is_over() && m.turn == seat && m.phase == Phase::Playing {
        assert(playing_inv(m, played));
    }
    if !m.is_over() && m.turn == seat {
        match action {
            Action::Play { card } => {
                if m.phase == Phase::Playing && spec_legal_moves(m, seat).contains(card) {
                    lemma_play_action(m, played, card);
                }
            },
            Action::Take => {
                if m.phase == Phase::Bidding1 {
                    lemma_take(m, played, seat, m.upcard->0.suit, true);
                }
            },
            Action::ChooseTrump { suit } => {
                if m.phase == Phase::Bidding2 {
                    lemma_take(m, played, seat, suit, false);
                }
            },
            Action::Pass => {},
        }
    }
}

/// L'action de `seat` se traite-t-elle sans depassement ? Sur une donne bien
/// formee, seule la derniere carte peut echouer : quand le decompte de la
/// donne ne tient pas sur 16 bits. Une action qui echoue ainsi est une
/// action que les regles acceptent.
pub fn action_fits(state: &GameState, seat: Seat, action: Action) -> (b: bool)
    requires
        exists|p: Seq<Card>| deal_inv(state@, p),
    ensures
        b == apply_safe(state@, seat, action),
        !b ==> spec_apply(state@, seat, action) is Ok,
{
    let ghost m0 = state@;
    let ghost p0 = choose|p: Seq<Card>| deal_inv(m0, p);
    proof {
        lemma_apply_safe(m0, p0, seat, action);
    }
    match action {
        Action::Play { card } => {
            if !state.is_over() && state.turn == seat && state.phase == Phase::Playing {
                let legal = legal_moves(state, seat);
                if contains_card(legal.as_slice(), card) {
                    proof {
                        lemma_legal_moves_in_hand(m0, seat, card);
                    }
                    return play_fits(state, seat, card);
                }
            }
            true
        },
        _ => true,
    }
}

/// Poser une carte la compte au siege qui la pose, et a lui seul.
#[verifier::spinoff_prover]
proof fn lemma_counts_play(m: GameModel, played: Seq<Card>, card: Card, before: Seq<EventModel>)
    requires
        playing_inv(m, played),
        spec_legal_moves(m, m.turn).contains(card),
        counts_ok(m, before),
    ensures
        counts_ok(
            replay(m, spec_play_events(m, m.turn, card)),
            before + spec_play_events(m, m.turn, card),
        ),
{
    let evs = spec_play_events(m, m.turn, card);
    let w = replay(m, evs);
    lemma_replay_append(m, before, evs);
    lemma_play_action(m, played, card);
    assert forall|k: int| 0 <= k < 4 implies #[trigger] plays_of(before + evs, Seat(k as u8))
        == if w.phase == Phase::Playing || w.phase == Phase::Finished {
        8 - w.hands[k].len()
    } else {
        0
    } by {
        assert(plays_of(before, Seat(k as u8)) == 8 - m.hands[k].len());
        if k == m.turn.0 {
            assert(Seat(k as u8) == m.turn);
        } else {
            assert(Seat(k as u8) != m.turn);
        }
    }
}

/// Passer ne pose aucune carte.
#[verifier::spinoff_prover]
proof fn lemma_counts_pass(m: GameModel, played: Seq<Card>, before: Seq<EventModel>)
    requires
        bidding_inv(m, played),
        spec_apply(m, m.turn, Action::Pass) is Ok,
        counts_ok(m, before),
    ensures
        counts_ok(
            replay(m, spec_apply(m, m.turn, Action::Pass)->Ok_0),
            before + spec_apply(m, m.turn, Action::Pass)->Ok_0,
        ),
{
    let evs = spec_apply(m, m.turn, Action::Pass)->Ok_0;
    lemma_replay_append(m, before, evs);
    lemma_pass_action(m, played);
    let p = EventModel::Passed { seat: m.turn };
    lemma_replay_push(m, Seq::empty(), p);
    assert(Seq::<EventModel>::empty().push(p) =~= seq![p]);
    if evs.len() == 2 {
        lemma_replay_push(m, seq![p], EventModel::Redeal);
        assert(seq![p].push(EventModel::Redeal) =~= evs);
    } else {
        assert(evs =~= seq![p]);
    }
    assert forall|k: int| 0 <= k < 4 implies #[trigger] plays_of(before + evs, Seat(k as u8))
        == 0 by {
        assert(plays_of(before, Seat(k as u8)) == 0);
    }
}

/// Prendre ne pose aucune carte, et chacun a ses huit cartes en main.
#[verifier::spinoff_prover]
proof fn lemma_counts_take(
    m: GameModel,
    played: Seq<Card>,
    suit: crate::card::Suit,
    from_upcard: bool,
    before: Seq<EventModel>,
)
    requires
        bidding_inv(m, played),
        counts_ok(m, before),
    ensures
        counts_ok(
            replay(m, spec_take_events(m, m.turn, suit, from_upcard)),
            before + spec_take_events(m, m.turn, suit, from_upcard),
        ),
{
    let evs = spec_take_events(m, m.turn, suit, from_upcard);
    let w = replay(m, evs);
    lemma_replay_append(m, before, evs);
    lemma_take_action(m, played, suit, from_upcard);
    lemma_take(m, played, m.turn, suit, from_upcard);
    lemma_replay_push(m, Seq::empty(), evs[0]);
    assert(Seq::<EventModel>::empty().push(evs[0]) =~= seq![evs[0]]);
    lemma_replay_push(m, seq![evs[0]], evs[1]);
    assert(seq![evs[0]].push(evs[1]) =~= evs);
    assert forall|k: int| 0 <= k < 4 implies #[trigger] plays_of(before + evs, Seat(k as u8))
        == 8 - w.hands[k].len() by {
        assert(plays_of(before, Seat(k as u8)) == 0);
        assert(!in_trick(w, Seat(k as u8)));
    }
}

/// Le compte des cartes posees par chaque siege suit les mains : une action
/// acceptee le garde juste.
pub proof fn lemma_counts_action(m: GameModel, played: Seq<Card>, action: Action, before: Seq<EventModel>)
    requires
        deal_inv(m, played),
        !m.is_over(),
        spec_apply(m, m.turn, action) is Ok,
        counts_ok(m, before),
    ensures
        counts_ok(
            replay(m, spec_apply(m, m.turn, action)->Ok_0),
            before + spec_apply(m, m.turn, action)->Ok_0,
        ),
{
    match action {
        Action::Play { card } => {
            lemma_counts_play(m, played, card, before);
        },
        Action::Pass => {
            lemma_counts_pass(m, played, before);
        },
        Action::Take => {
            lemma_counts_take(m, played, m.upcard->0.suit, true, before);
        },
        Action::ChooseTrump { suit } => {
            lemma_counts_take(m, played, suit, false, before);
        },
    }
}

/// Applique un journal d'evenements a l'etat, dans l'ordre.
pub fn reduce_all(state: &mut GameState, evs: &Vec<Event>)
    requires
        replay_safe(old(state)@, events_view(evs@)),
    ensures
        final(state)@ == replay(old(state)@, events_view(evs@)),
{
    let ghost m0 = state@;
    let ghost models = events_view(evs@);
    let mut j: usize = 0;
    while j < evs.len()
        invariant
            j <= evs@.len(),
            models == events_view(evs@),
            models.len() == evs@.len(),
            replay_safe(m0, models),
            state@ == replay(m0, models.subrange(0, j as int)),
        decreases evs@.len() - j,
    {
        proof {
            lemma_replay_safe_prefix(m0, models, j as int);
            lemma_replay_push(m0, models.subrange(0, j as int), models[j as int]);
            assert(models.subrange(0, j as int).push(models[j as int]) =~= models.subrange(
                0,
                j as int + 1,
            ));
        }
        reduce(state, &evs[j]);
        j += 1;
    }
    assert(models.subrange(0, models.len() as int) =~= models);
}

} // verus!
