//! Deroulement complet d'une donne jouee par quatre bots.
//!
//! Sert de harnais : cela permet de valider le moteur sur des dizaines de
//! milliers de parties sans reseau, sans base et sans interface.

use rand_chacha::ChaCha8Rng;
use vstd::prelude::*;
use vstd::string::StringExecFns;

use crate::action::{rule_error_message, phase_label, phase_name, Action, RuleError};
use crate::bot::{choose_action, spec_choose_action};
use crate::card::{lemma_deck_complete, spec_deck, Card};
use crate::deal_laws::{carry_limit, deck_ms, finished_inv, lemma_deal};
use crate::event::{events_view, Event, EventModel};
use crate::rules::{
    apply, apply_safe, reduce, replay, replay_safe, spec_apply, spec_deal, start_deal, step,
};
use crate::state::{fresh_model, GameModel, GameState, Phase, Seat};
use crate::text::{decimal, push_decimal};
use crate::turns::{
    action_fits, counts_ok, deal_inv, deal_measure, lemma_action, lemma_bot_turn, lemma_counts_action,
    lemma_plays_of_bounded, lemma_replay_append, lemma_replay_push, plays_of,
    played_in, reduce_all,
};
use crate::view::{project, projected, PlayerView};

verus! {

/// Nombre maximal de redistributions avant d'abandonner (garde-fou : quatre
/// passes aux deux tours peuvent theoriquement se repeter).
pub const MAX_REDEALS: usize = 100;

#[derive(Debug)]
pub struct DealOutcome {
    pub state: GameState,
    pub events: Vec<Event>,
    pub redeals: usize,
}

#[derive(Debug, Clone, Copy, PartialEq, Eq, Structural)]
pub enum SimError {
    /// Le bot n'a propose aucune action.
    BotStuck(Phase),
    /// Le moteur a refuse l'action du bot.
    Rejected(RuleError),
    /// Personne ne prend jamais.
    TooManyRedeals,
    /// Le decompte de la donne ne tient pas sur 16 bits.
    ScoreOverflow,
}

/// Texte d'une erreur de simulation.
pub open spec fn sim_error_message(e: SimError) -> Seq<char> {
    match e {
        SimError::BotStuck(p) => "le bot n'a propose aucune action en phase "@ + phase_name(p),
        SimError::Rejected(r) => "action refusee par le moteur: "@ + rule_error_message(r),
        SimError::TooManyRedeals => "trop de redistributions consecutives : personne ne prend jamais"@,
        SimError::ScoreOverflow => "le decompte de la donne depasse 16 bits"@,
    }
}

impl SimError {
    /// Texte de l'erreur.
    pub fn message(&self) -> (s: String)
        ensures
            s@ == sim_error_message(*self),
    {
        match self {
            SimError::BotStuck(p) => {
                let mut s = String::from_str("le bot n'a propose aucune action en phase ");
                s.append(phase_label(*p));
                s
            },
            SimError::Rejected(r) => {
                let s = String::from_str("action refusee par le moteur: ");
                let m = r.message();
                s.concat(m.as_str())
            },
            SimError::TooManyRedeals => String::from_str(
                "trop de redistributions consecutives : personne ne prend jamais",
            ),
            SimError::ScoreOverflow => String::from_str("le decompte de la donne depasse 16 bits"),
        }
    }
}

impl From<RuleError> for SimError {
    fn from(e: RuleError) -> (r: SimError) {
        SimError::Rejected(e)
    }
}

impl vstd::std_specs::convert::FromSpecImpl<RuleError> for SimError {
    open spec fn obeys_from_spec() -> bool {
        true
    }

    open spec fn from_spec(e: RuleError) -> SimError {
        SimError::Rejected(e)
    }
}

/// Les evenements d'un tour de bot : le bot a qui c'est le tour, voyant la
/// donne par sa vue, choisit une action, et ce sont les evenements que le
/// moteur en tire.
pub open spec fn bot_move(m: GameModel, seg: Seq<EventModel>) -> bool {
    &&& !m.is_over()
    &&& exists|v: PlayerView|
        projected(m, m.turn, v) && (#[trigger] spec_choose_action(v) matches Some(a) && spec_apply(
            m,
            m.turn,
            a,
        ) == Ok::<Seq<EventModel>, RuleError>(seg))
}

/// Le journal n'est fait que de tours de bots, joues a partir de `m`.
pub open spec fn bot_path(m: GameModel, evs: Seq<EventModel>) -> bool
    decreases evs.len(),
{
    if evs.len() == 0 {
        true
    } else {
        exists|k: int|
            0 <= k < evs.len() && bot_path(m, evs.subrange(0, k)) && #[trigger] bot_move(
                replay(m, evs.subrange(0, k)),
                evs.subrange(k, evs.len() as int),
            )
    }
}

/// La donne jouee : a la position `j` du journal, la distribution d'un
/// paquet complet, puis uniquement des tours de bots.
pub open spec fn played_from(dealer: Seat, carry_in: u16, evs: Seq<EventModel>, j: int) -> bool {
    &&& 0 <= j < evs.len()
    &&& exists|deck: Seq<Card>|
        deck.to_multiset() == spec_deck().to_multiset() && #[trigger] spec_deal(
            dealer,
            carry_in,
            deck,
        ) == evs[j]
    &&& bot_path(step(fresh_model(dealer, carry_in), evs[j]), evs.subrange(j + 1, evs.len() as int))
}

/// Une donne menee a son terme depuis `dealer` avec la cagnotte `carry_in` :
/// le journal, rejoue depuis un etat vierge, redonne exactement l'etat final ;
/// la derniere distribution est suivie des seuls coups des bots ; la donne
/// est finie et comptee, ses 32 cartes posees une fois chacune, huit par
/// siege.
pub open spec fn completed_deal(dealer: Seat, carry_in: u16, o: DealOutcome) -> bool {
    let evs = events_view(o.events@);
    &&& exists|j: int| #[trigger] played_from(dealer, carry_in, evs, j)
    &&& replay_safe(fresh_model(dealer, carry_in), evs)
    &&& o.state@ == replay(fresh_model(dealer, carry_in), evs)
    &&& finished_inv(o.state@, played_in(evs))
    &&& o.state@.dealer == dealer
    &&& o.state@.carry_in == carry_in
    &&& o.redeals <= MAX_REDEALS
    &&& forall|k: int| 0 <= k < 4 ==> #[trigger] plays_of(evs, Seat(k as u8)) == 8
}

proof fn lemma_events_view_append(a: Seq<Event>, b: Seq<Event>)
    ensures
        events_view(a + b) == events_view(a) + events_view(b),
        events_view(a).len() == a.len(),
{
    assert(events_view(a + b) =~= events_view(a) + events_view(b));
}

proof fn lemma_events_view_push(a: Seq<Event>, e: Event)
    ensures
        events_view(a.push(e)) == events_view(a).push(e@),
{
    assert(events_view(a.push(e)) =~= events_view(a).push(e@));
}

/// L'evenement `e` distribue un paquet complet, depuis `dealer`, avec la
/// cagnotte `carry_in`.
pub open spec fn dealt_from_deck(dealer: Seat, carry_in: u16, e: EventModel) -> bool {
    exists|deck: Seq<Card>|
        deck.to_multiset() == spec_deck().to_multiset() && #[trigger] spec_deal(
            dealer,
            carry_in,
            deck,
        ) == e
}

/// Le bot a qui c'est le tour propose une action dont le traitement deborde :
/// la derniere carte d'une donne dont le decompte ne tient pas sur 16 bits.
#[verifier::opaque]
pub open spec fn bot_overflows(m: GameModel) -> bool {
    &&& !m.is_over()
    &&& exists|v: PlayerView|
        projected(m, m.turn, v) && (#[trigger] spec_choose_action(v) matches Some(a) && !apply_safe(
            m,
            m.turn,
            a,
        ))
}

/// Les bots, jouant la main distribuee par `dealt`, arrivent a une action
/// dont le decompte deborde.
pub open spec fn hand_overflows(dealer: Seat, carry_in: u16, dealt: EventModel) -> bool {
    exists|evs: Seq<EventModel>|
        #![trigger replay(fresh_model(dealer, carry_in), evs)]
        evs.len() >= 1 && evs[0] == dealt && bot_path(
            step(fresh_model(dealer, carry_in), dealt),
            evs.subrange(1, evs.len() as int),
        ) && bot_overflows(replay(fresh_model(dealer, carry_in), evs))
}

/// Une main jouee jusqu'au bout : le journal `evs` commence par la
/// distribution `dealt`, ne contient ensuite que des tours de bots, se rejoue
/// sans incident en l'etat `m`, et la donne est finie (comptee, ses 32
/// cartes posees une fois chacune, huit par siege) ou a redistribuer (sans
/// carte posee).
pub open spec fn hand_played(
    dealer: Seat,
    carry_in: u16,
    dealt: EventModel,
    m: GameModel,
    evs: Seq<EventModel>,
) -> bool {
    let fresh = fresh_model(dealer, carry_in);
    &&& evs.len() >= 1
    &&& evs[0] == dealt
    &&& bot_path(step(fresh, dealt), evs.subrange(1, evs.len() as int))
    &&& replay_safe(fresh, evs)
    &&& m == replay(fresh, evs)
    &&& m.dealer == dealer
    &&& m.carry_in == carry_in
    &&& (m.phase == Phase::Finished || m.phase == Phase::Redeal)
    &&& m.phase == Phase::Finished ==> finished_inv(m, played_in(evs)) && forall|k: int|
        0 <= k < 4 ==> #[trigger] plays_of(evs, Seat(k as u8)) == 8
    &&& m.phase == Phase::Redeal ==> played_in(evs).len() == 0
}

/// Apres une distribution, le rejeu ne depend plus de l'etat de depart.
proof fn lemma_replay_from_deal(x: GameModel, y: GameModel, evs: Seq<EventModel>)
    requires
        evs.len() >= 1,
        evs[0] is Dealt,
    ensures
        replay(x, evs) == replay(y, evs),
        replay_safe(x, evs) == replay_safe(y, evs),
{
    let head = evs.subrange(0, 1);
    let tail = evs.subrange(1, evs.len() as int);
    assert(evs =~= head + tail);
    assert(head =~= Seq::<EventModel>::empty().push(evs[0]));
    lemma_replay_push(x, Seq::empty(), evs[0]);
    lemma_replay_push(y, Seq::empty(), evs[0]);
    lemma_replay_append(x, head, tail);
    lemma_replay_append(y, head, tail);
}

/// Une main jouee, mise a la suite d'un journal sans carte posee : le
/// journal entier se rejoue en l'etat de la main, et la distribution de
/// la main y est suivie des seuls tours de bots.
proof fn lemma_hand_appended(
    dealer: Seat,
    carry_in: u16,
    dealt: EventModel,
    m: GameModel,
    before: Seq<EventModel>,
    hand: Seq<EventModel>,
)
    requires
        replay_safe(fresh_model(dealer, carry_in), before),
        played_in(before).len() == 0,
        hand_played(dealer, carry_in, dealt, m, hand),
        dealt_from_deck(dealer, carry_in, dealt),
        dealt is Dealt,
    ensures
        replay_safe(fresh_model(dealer, carry_in), before + hand),
        m == replay(fresh_model(dealer, carry_in), before + hand),
        played_in(before + hand) == played_in(hand),
        forall|k: int| 0 <= k < 4 ==> #[trigger] plays_of(before + hand, Seat(k as u8)) == plays_of(hand, Seat(k as u8)),
        played_from(dealer, carry_in, before + hand, before.len() as int),
{
    let fresh = fresh_model(dealer, carry_in);
    let evs = before + hand;
    lemma_replay_append(fresh, before, hand);
    lemma_replay_from_deal(replay(fresh, before), fresh, hand);
    assert(played_in(before) =~= Seq::<Card>::empty());
    assert(Seq::<Card>::empty() + played_in(hand) =~= played_in(hand));
    assert forall|k: int| 0 <= k < 4 implies #[trigger] plays_of(evs, Seat(k as u8)) == plays_of(
        hand,
        Seat(k as u8),
    ) by {
        lemma_plays_of_bounded(before, Seat(k as u8));
    }
    let j = before.len() as int;
    assert(evs[j] == dealt);
    assert(evs.subrange(j + 1, evs.len() as int) =~= hand.subrange(1, hand.len() as int));
}

/// Les mains `log`, toutes distribuees depuis `dealer` avec la cagnotte
/// `carry_in`, jouees par les bots et terminees sans preneur.
pub open spec fn redealt_hands(dealer: Seat, carry_in: u16, log: Seq<Seq<EventModel>>) -> bool {
    forall|i: int|
        0 <= i < log.len() ==> {
            let h = #[trigger] log[i];
            let m = replay(fresh_model(dealer, carry_in), h);
            &&& dealt_from_deck(dealer, carry_in, h[0])
            &&& hand_played(dealer, carry_in, h[0], m, h)
            &&& m.phase == Phase::Redeal
        }
}

/// Pourquoi une donne a echoue : apres `MAX_REDEALS + 1` mains sans
/// preneur ; ou, la cagnotte depassant `carry_limit()`, parce que le
/// decompte d'une main distribuee deborde 16 bits.
pub open spec fn deal_failed(dealer: Seat, carry_in: u16, e: SimError) -> bool {
    ||| e == SimError::TooManyRedeals && exists|log: Seq<Seq<EventModel>>|
        log.len() == MAX_REDEALS + 1 && #[trigger] redealt_hands(dealer, carry_in, log)
    ||| e == SimError::ScoreOverflow && carry_in > carry_limit() && exists|dealt: EventModel|
        dealt_from_deck(dealer, carry_in, dealt) && #[trigger] hand_overflows(dealer, carry_in, dealt)
}

/// Une main de plus, terminee sans preneur, allonge le journal des mains
/// redistribuees.
proof fn lemma_redealt_push(dealer: Seat, carry_in: u16, log: Seq<Seq<EventModel>>, h: Seq<EventModel>)
    requires
        redealt_hands(dealer, carry_in, log),
        dealt_from_deck(dealer, carry_in, h[0]),
        hand_played(dealer, carry_in, h[0], replay(fresh_model(dealer, carry_in), h), h),
        replay(fresh_model(dealer, carry_in), h).phase == Phase::Redeal,
    ensures
        redealt_hands(dealer, carry_in, log.push(h)),
{
    let next = log.push(h);
    assert forall|i: int| 0 <= i < next.len() implies {
        let g = #[trigger] next[i];
        let m = replay(fresh_model(dealer, carry_in), g);
        &&& dealt_from_deck(dealer, carry_in, g[0])
        &&& hand_played(dealer, carry_in, g[0], m, g)
        &&& m.phase == Phase::Redeal
    } by {
        if i < log.len() {
            assert(next[i] == log[i]);
        }
    }
}

/// Apres `MAX_REDEALS + 1` mains sans preneur, la donne a echoue.
proof fn lemma_too_many_redeals(dealer: Seat, carry_in: u16, log: Seq<Seq<EventModel>>)
    requires
        log.len() == MAX_REDEALS + 1,
        redealt_hands(dealer, carry_in, log),
    ensures
        deal_failed(dealer, carry_in, SimError::TooManyRedeals),
{
}

/// Une main distribuee dont le decompte deborde fait echouer la donne.
proof fn lemma_score_overflow(dealer: Seat, carry_in: u16, dealt: EventModel)
    requires
        carry_in > carry_limit(),
        dealt_from_deck(dealer, carry_in, dealt),
        hand_overflows(dealer, carry_in, dealt),
    ensures
        deal_failed(dealer, carry_in, SimError::ScoreOverflow),
{
}

/// Un journal de la main `dealt` qui mene a une action qui deborde en est
/// un temoin.
proof fn lemma_hand_overflows(dealer: Seat, carry_in: u16, dealt: EventModel, evs: Seq<EventModel>)
    requires
        evs.len() >= 1,
        evs[0] == dealt,
        bot_path(step(fresh_model(dealer, carry_in), dealt), evs.subrange(1, evs.len() as int)),
        bot_overflows(replay(fresh_model(dealer, carry_in), evs)),
    ensures
        hand_overflows(dealer, carry_in, dealt),
{
}

/// Les bots jouent la main que distribue `dealt`, jusqu'a ce qu'elle soit
/// finie ou a redistribuer. Rend l'etat final et le journal de la main,
/// distribution comprise ; echoue si le decompte de la donne deborde.
#[verifier::spinoff_prover]
#[verifier::rlimit(60)]
pub fn play_hand(dealer: Seat, carry_in: u16, dealt: Event) -> (r: Result<
    (GameState, Vec<Event>),
    SimError,
>)
    requires
        dealer.valid(),
        dealt_from_deck(dealer, carry_in, dealt@),
    ensures
        match r {
            Ok((st, evs)) => hand_played(dealer, carry_in, dealt@, st@, events_view(evs@)),
            Err(e) => e == SimError::ScoreOverflow && carry_in > carry_limit() && hand_overflows(
                dealer,
                carry_in,
                dealt@,
            ),
        },
{
    let fresh = Ghost(fresh_model(dealer, carry_in));
    let mut events: Vec<Event> = Vec::new();
    let mut state = GameState::new(dealer, carry_in);
    proof {
        let deck = choose|deck: Seq<Card>|
            deck.to_multiset() == spec_deck().to_multiset() && #[trigger] spec_deal(
                dealer,
                carry_in,
                deck,
            ) == dealt@;
        lemma_deal(state@, dealer, carry_in, deck);
        lemma_replay_push(fresh@, events_view(events@), dealt@);
        lemma_events_view_push(events@, dealt);
        assert(events_view(events@) =~= Seq::<EventModel>::empty());
    }
    let ghost ms = step(fresh@, dealt@);
    reduce(&mut state, &dealt);
    events.push(dealt);
    proof {
        assert(events_view(events@).subrange(1, events@.len() as int) =~= Seq::<
            EventModel,
        >::empty());
        assert forall|k: int| 0 <= k < 4 implies #[trigger] plays_of(
            events_view(events@),
            Seat(k as u8),
        ) == 0 by {
            lemma_plays_of_bounded(events_view(events@), Seat(k as u8));
        }
    }
    while !state.is_over()
        invariant
            1 <= events@.len(),
            events_view(events@)[0] == dealt@,
            ms == step(fresh@, dealt@),
            bot_path(ms, events_view(events@).subrange(1, events@.len() as int)),
            state@ == replay(ms, events_view(events@).subrange(1, events@.len() as int)),
            dealer.valid(),
            fresh@ == fresh_model(dealer, carry_in),
            deal_inv(state@, played_in(events_view(events@))),
            state@ == replay(fresh@, events_view(events@)),
            replay_safe(fresh@, events_view(events@)),
            counts_ok(state@, events_view(events@)),
            state@.dealer == dealer,
            state@.carry_in == carry_in,
        decreases deal_measure(state@),
    {
        let ghost before = events_view(events@);
        match play_turn(&mut state, &mut events, fresh, Ghost(ms), Ghost(1int)) {
            Ok(()) => {},
            Err(e) => {
                proof {
                    lemma_hand_overflows(dealer, carry_in, dealt@, events_view(events@));
                }
                return Err(e);
            },
        }
        proof {
            assert(events_view(events@)[0] == events_view(events@).subrange(0, before.len() as int)[0]);
        }
    }
    Ok((state, events))
}

/// Joue une donne entiere. Redistribue tant que personne ne prend, et
/// abandonne apres `MAX_REDEALS` redistributions.
pub fn play_deal(dealer: Seat, carry_in: u16, rng: &mut ChaCha8Rng) -> (r: Result<
    DealOutcome,
    SimError,
>)
    requires
        dealer.valid(),
    ensures
        match r {
            Ok(o) => completed_deal(dealer, carry_in, o) && exists|log: Seq<Seq<EventModel>>|
                log.len() == o.redeals && #[trigger] redealt_hands(dealer, carry_in, log),
            Err(e) => deal_failed(dealer, carry_in, e),
        },
{
    let fresh = Ghost(fresh_model(dealer, carry_in));
    let mut events: Vec<Event> = Vec::new();
    let mut redeals: usize = 0;
    let ghost mut log: Seq<Seq<EventModel>> = Seq::empty();
    loop
        invariant
            dealer.valid(),
            redeals <= MAX_REDEALS,
            log.len() == redeals,
            redealt_hands(dealer, carry_in, log),
            fresh@ == fresh_model(dealer, carry_in),
            replay_safe(fresh@, events_view(events@)),
            played_in(events_view(events@)).len() == 0,
        decreases MAX_REDEALS - redeals,
    {
        let dealt = start_deal(dealer, carry_in, rng);
        let ghost d = dealt@;
        proof {
            let deck = choose|deck: Seq<Card>|
                {
                    &&& deck.len() == 32
                    &&& deck.to_multiset() == spec_deck().to_multiset()
                    &&& #[trigger] spec_deal(dealer, carry_in, deck) == dealt@
                };
            assert(dealt_from_deck(dealer, carry_in, dealt@));
        }
        let (state, hand) = match play_hand(dealer, carry_in, dealt) {
            Ok(sh) => sh,
            Err(e) => {
                proof {
                    lemma_score_overflow(dealer, carry_in, d);
                }
                return Err(e);
            },
        };
        let ghost before = events@;
        let ghost added = hand@;
        let mut hand = hand;
        events.append(&mut hand);
        proof {
            lemma_events_view_append(before, added);
            lemma_hand_appended(dealer, carry_in, d, state@, events_view(before), events_view(added));
        }
        if state.phase == Phase::Finished {
            return Ok(DealOutcome { state, events, redeals });
        }
        proof {
            let h = events_view(added);
            lemma_redealt_push(dealer, carry_in, log, h);
            log = log.push(h);
        }
        redeals += 1;
        if redeals > MAX_REDEALS {
            proof {
                lemma_too_many_redeals(dealer, carry_in, log);
            }
            return Err(SimError::TooManyRedeals);
        }
    }
}

/// Fait jouer le bot a qui c'est le tour, et consigne les evenements
/// produits.
fn play_turn(
    state: &mut GameState,
    events: &mut Vec<Event>,
    fresh: Ghost<GameModel>,
    ms: Ghost<GameModel>,
    start: Ghost<int>,
) -> (r: Result<(), SimError>)
    requires
        0 <= start@ <= old(events)@.len(),
        bot_path(ms@, events_view(old(events)@).subrange(start@, old(events)@.len() as int)),
        old(state)@ == replay(ms@, events_view(old(events)@).subrange(start@, old(events)@.len() as int)),
        deal_inv(old(state)@, played_in(events_view(old(events)@))),
        !old(state)@.is_over(),
        old(state)@ == replay(fresh@, events_view(old(events)@)),
        replay_safe(fresh@, events_view(old(events)@)),
        counts_ok(old(state)@, events_view(old(events)@)),
    ensures
        r is Ok || r == Err::<(), SimError>(SimError::ScoreOverflow),
        r is Err ==> final(state)@ == old(state)@ && final(events)@ == old(events)@ && bot_overflows(
            old(state)@,
        ) && old(state)@.carry_in > carry_limit(),
        r is Ok ==> old(events)@.len() <= final(events)@.len(),
        r is Ok ==> events_view(final(events)@).subrange(0, old(events)@.len() as int) == events_view(
            old(events)@,
        ),
        r is Ok ==> bot_path(ms@, events_view(final(events)@).subrange(start@, final(events)@.len() as int)),
        r is Ok ==> final(state)@ == replay(ms@, events_view(final(events)@).subrange(start@, final(events)@.len() as int)),
        r is Ok ==> counts_ok(final(state)@, events_view(final(events)@)),
        r is Ok ==> deal_inv(final(state)@, played_in(events_view(final(events)@))),
        r is Ok ==> final(state)@ == replay(fresh@, events_view(final(events)@)),
        r is Ok ==> replay_safe(fresh@, events_view(final(events)@)),
        r is Ok ==> final(state)@.dealer == old(state)@.dealer,
        r is Ok ==> final(state)@.carry_in == old(state)@.carry_in,
        r is Ok ==> deal_measure(final(state)@) < deal_measure(old(state)@),
{
    let seat = state.turn;
    let ghost m0 = state@;
    let ghost e0 = events_view(events@);
    proof {
        lemma_turn_is_a_seat(m0, played_in(e0));
    }
    let view = project(state, seat);
    proof {
        lemma_bot_turn(m0, played_in(e0), view);
    }
    let action = match choose_action(&view) {
        Some(a) => a,
        None => {
            return Err(SimError::BotStuck(state.phase));
        },
    };
    proof {
        lemma_action(m0, played_in(e0), action);
        lemma_counts_action(m0, played_in(e0), action, e0);
    }
    if !action_fits(state, seat, action) {
        proof {
            assert(spec_choose_action(view) == Some(action));
            reveal(bot_overflows);
        }
        return Err(SimError::ScoreOverflow);
    }
    let evs = match apply(state, seat, action) {
        Ok(evs) => evs,
        Err(e) => {
            return Err(SimError::Rejected(e));
        },
    };
    let ghost models = spec_apply(m0, seat, action)->Ok_0;
    proof {
        assert(events_view(evs@) =~= models);
    }
    reduce_all(state, &evs);
    let mut evs = evs;
    let ghost before = events@;
    let ghost added = evs@;
    events.append(&mut evs);
    proof {
        assert(models.subrange(0, models.len() as int) =~= models);
        lemma_events_view_append(before, added);
        lemma_replay_append(fresh@, e0, models);
        let x = e0.subrange(start@, e0.len() as int);
        let e1 = events_view(events@);
        assert(e1 == e0 + models);
        assert(e1.subrange(start@, e1.len() as int) =~= x + models);
        assert((x + models).subrange(0, x.len() as int) =~= x);
        assert((x + models).subrange(x.len() as int, (x + models).len() as int) =~= models);
        assert(bot_move(replay(ms@, x), models)) by {
            assert(spec_choose_action(view) == Some(action));
        }
        assert(bot_path(ms@, x + models));
        lemma_replay_append(ms@, x, models);
        assert(e1.subrange(0, e0.len() as int) =~= e0);
    }
    Ok(())
}

/// Le journal `evs`, rejoue depuis `m`, n'est fait que d'actions que le
/// moteur a acceptees, de quelque siege qu'elles viennent.
pub open spec fn accepted_path(m: GameModel, evs: Seq<EventModel>) -> bool
    decreases evs.len(),
{
    if evs.len() == 0 {
        true
    } else {
        exists|k: int, seat: Seat, action: Action|
            0 <= k < evs.len() && accepted_path(m, evs.subrange(0, k)) && #[trigger] spec_apply(
                replay(m, evs.subrange(0, k)),
                seat,
                action,
            ) == Ok::<Seq<EventModel>, RuleError>(evs.subrange(k, evs.len() as int))
    }
}

/// Un etat atteint en cours de jeu : un paquet complet distribue depuis
/// `dealer` avec la cagnotte `carry_in`, puis des actions acceptees.
pub open spec fn reached(dealer: Seat, carry_in: u16, m: GameModel) -> bool {
    exists|dealt: EventModel, evs: Seq<EventModel>|
        dealt_from_deck(dealer, carry_in, dealt) && accepted_path(
            step(fresh_model(dealer, carry_in), dealt),
            evs,
        ) && m == #[trigger] replay(step(fresh_model(dealer, carry_in), dealt), evs)
}

/// Le moteur n'accepte une action que de celui a qui c'est le tour, dans une
/// donne en cours.
proof fn lemma_accepted_turn(m: GameModel, seat: Seat, action: Action)
    requires
        spec_apply(m, seat, action) is Ok,
    ensures
        !m.is_over(),
        m.turn == seat,
{
}

/// Une action acceptee, a la suite d'un journal, garde la donne bien formee.
proof fn lemma_accepted_extend(
    m0: GameModel,
    pre: Seq<EventModel>,
    seg: Seq<EventModel>,
    seat: Seat,
    action: Action,
)
    requires
        deal_inv(replay(m0, pre), played_in(pre)),
        spec_apply(replay(m0, pre), seat, action) == Ok::<Seq<EventModel>, RuleError>(seg),
    ensures
        deal_inv(replay(m0, pre + seg), played_in(pre + seg)),
{
    let mk = replay(m0, pre);
    lemma_accepted_turn(mk, seat, action);
    lemma_action(mk, played_in(pre), action);
    lemma_replay_append(m0, pre, seg);
}

/// Le long d'actions acceptees, la donne reste bien formee.
#[verifier::spinoff_prover]
#[verifier::rlimit(40)]
proof fn lemma_accepted_path_inv(m0: GameModel, evs: Seq<EventModel>)
    requires
        deal_inv(m0, Seq::empty()),
        accepted_path(m0, evs),
    ensures
        deal_inv(replay(m0, evs), played_in(evs)),
    decreases evs.len(),
{
    if evs.len() == 0 {
        assert(played_in(evs) =~= Seq::<Card>::empty());
    } else {
        let (k, seat, action) = choose|k: int, seat: Seat, action: Action|
            0 <= k < evs.len() && accepted_path(m0, evs.subrange(0, k)) && #[trigger] spec_apply(
                replay(m0, evs.subrange(0, k)),
                seat,
                action,
            ) == Ok::<Seq<EventModel>, RuleError>(evs.subrange(k, evs.len() as int));
        let pre = evs.subrange(0, k);
        let seg = evs.subrange(k, evs.len() as int);
        lemma_accepted_path_inv(m0, pre);
        lemma_accepted_extend(m0, pre, seg, seat, action);
        assert(evs =~= pre + seg);
    }
}

/// Un etat atteint en cours de jeu est une donne bien formee.
proof fn lemma_reached_inv(dealer: Seat, carry_in: u16, m: GameModel) -> (played: Seq<Card>)
    requires
        dealer.valid(),
        reached(dealer, carry_in, m),
    ensures
        deal_inv(m, played),
{
    let (dealt, evs) = choose|dealt: EventModel, evs: Seq<EventModel>|
        dealt_from_deck(dealer, carry_in, dealt) && accepted_path(
            step(fresh_model(dealer, carry_in), dealt),
            evs,
        ) && m == #[trigger] replay(step(fresh_model(dealer, carry_in), dealt), evs);
    let deck = choose|deck: Seq<Card>|
        deck.to_multiset() == spec_deck().to_multiset() && #[trigger] spec_deal(
            dealer,
            carry_in,
            deck,
        ) == dealt;
    let m0 = step(fresh_model(dealer, carry_in), dealt);
    lemma_deal(fresh_model(dealer, carry_in), dealer, carry_in, deck);
    lemma_accepted_path_inv(m0, evs);
    played_in(evs)
}

/// Le bot ne se bloque jamais et ne propose rien que le moteur refuse : dans
/// tout etat atteint en cours de jeu, vu par un siege, il agit exactement
/// quand c'est a ce siege de jouer et que la donne n'est pas finie, et le
/// moteur accepte alors son action.
pub proof fn lemma_bot_never_stuck(dealer: Seat, carry_in: u16, m: GameModel, seat: Seat, v: PlayerView)
    requires
        dealer.valid(),
        seat.valid(),
        reached(dealer, carry_in, m),
        projected(m, seat, v),
    ensures
        (m.turn != seat || m.is_over()) ==> spec_choose_action(v) is None,
        (m.turn == seat && !m.is_over()) ==> (spec_choose_action(v) matches Some(a) && spec_apply(
            m,
            seat,
            a,
        ) is Ok),
{
    if m.turn == seat && !m.is_over() {
        let played = lemma_reached_inv(dealer, carry_in, m);
        lemma_bot_turn(m, played, v);
    }
}

/// Le siege a qui c'est le tour, dans une donne bien formee en cours, est
/// un vrai siege.
pub proof fn lemma_turn_is_a_seat(m: GameModel, played: Seq<Card>)
    requires
        deal_inv(m, played),
        !m.is_over(),
    ensures
        m.turn.valid(),
{
    if !crate::deal_laws::bidding_inv(m, played) {
        assert(crate::deal_laws::playing_inv(m, played));
    }
}

/// Un siege a encore des cartes en main.
pub open spec fn cards_left(m: GameModel) -> bool {
    exists|i: int| 0 <= i < 4 && #[trigger] m.hands[i].len() > 0
}

/// Le message, s'il y a lieu.
pub open spec fn problem_if(violated: bool, message: Seq<char>) -> Seq<Seq<char>> {
    if violated {
        seq![message]
    } else {
        Seq::empty()
    }
}

/// Les violations d'invariant d'une donne achevee, dans l'ordre ou on les
/// signale.
pub open spec fn deal_problems(m: GameModel, evs: Seq<EventModel>) -> Seq<Seq<char>> {
    let points = m.card_points[0] + m.card_points[1];
    let tricks = m.tricks_won[0] + m.tricks_won[1];
    let played = played_in(evs);
    problem_if(
        points != 162,
        "total des plis = "@ + decimal(points as nat) + " au lieu de 162"@,
    ) + problem_if(tricks != 8, decimal(tricks as nat) + " plis joues au lieu de 8"@)
        + problem_if(cards_left(m), "des cartes restent en main a la fin de la donne"@)
        + problem_if(
        played.len() != 32,
        decimal(played.len()) + " cartes posees au lieu de 32"@,
    ) + problem_if(!played.no_duplicates(), "une carte a ete posee deux fois"@) + problem_if(
        m.score is None,
        "la donne s'est terminee sans decompte"@,
    )
}

/// Ajoute le message a la liste si la condition est violee.
fn report(problems: &mut Vec<String>, violated: bool, message: String)
    ensures
        final(problems)@.map_values(|s: String| s@) == old(problems)@.map_values(|s: String| s@)
            + problem_if(violated, message@),
{
    let ghost before = problems@;
    if violated {
        problems.push(message);
        assert(problems@.map_values(|s: String| s@) =~= before.map_values(|s: String| s@)
            + seq![message@]);
    } else {
        assert(problems@.map_values(|s: String| s@) =~= before.map_values(|s: String| s@)
            + Seq::<Seq<char>>::empty());
    }
}

/// Les cartes posees dans un journal.
fn played_cards(events: &Vec<Event>) -> (played: Vec<Card>)
    ensures
        played@ == played_in(events_view(events@)),
{
    let mut played: Vec<Card> = Vec::new();
    let mut i: usize = 0;
    while i < events.len()
        invariant
            i <= events@.len(),
            played@ == played_in(events_view(events@.subrange(0, i as int))),
        decreases events@.len() - i,
    {
        proof {
            let pre = events@.subrange(0, i as int);
            assert(events@.subrange(0, i as int + 1) =~= pre.push(events@[i as int]));
            lemma_events_view_push(pre, events@[i as int]);
            lemma_replay_push(fresh_model(Seat(0), 0), events_view(pre), events@[i as int]@);
        }
        match &events[i] {
            Event::Played { card, .. } => {
                played.push(*card);
            },
            _ => {},
        }
        i += 1;
    }
    assert(events@.subrange(0, events@.len() as int) =~= events@);
    played
}

/// Deux cartes posees sont-elles identiques ?
fn has_duplicate(cards: &Vec<Card>) -> (b: bool)
    ensures
        b == !cards@.no_duplicates(),
{
    let mut i: usize = 0;
    while i < cards.len()
        invariant
            i <= cards@.len(),
            forall|a: int, b: int| 0 <= a < i && 0 <= b < cards@.len() && a != b ==> cards@[a] != cards@[b],
        decreases cards@.len() - i,
    {
        let mut j: usize = 0;
        while j < cards.len()
            invariant
                i < cards@.len(),
                j <= cards@.len(),
                forall|b: int| 0 <= b < j && b != i ==> cards@[i as int] != cards@[b],
            decreases cards@.len() - j,
        {
            if j != i && cards[i] == cards[j] {
                return true;
            }
            j += 1;
        }
        i += 1;
    }
    false
}

/// Verifie les invariants qui doivent tenir sur toute donne achevee.
/// Renvoie la liste des violations constatees (vide = tout va bien).
pub fn check_invariants(outcome: &DealOutcome) -> (problems: Vec<String>)
    requires
        outcome.state.card_points[0] + outcome.state.card_points[1] <= u16::MAX,
        outcome.state.tricks_won[0] + outcome.state.tricks_won[1] <= u8::MAX,
    ensures
        problems@.map_values(|s: String| s@) == deal_problems(
            outcome.state@,
            events_view(outcome.events@),
        ),
{
    let mut problems: Vec<String> = Vec::new();
    let state = &outcome.state;
    let ghost m = state@;

    let points = state.card_points[0] + state.card_points[1];
    let mut text = String::from_str("total des plis = ");
    push_decimal(&mut text, points as u64);
    text.append(" au lieu de 162");
    assert(problems@.map_values(|s: String| s@) =~= Seq::<Seq<char>>::empty());
    report(&mut problems, points != 162, text);

    let tricks = state.tricks_won[0] + state.tricks_won[1];
    let mut text = String::new();
    push_decimal(&mut text, tricks as u64);
    text.append(" plis joues au lieu de 8");
    report(&mut problems, tricks != 8, text);

    let left = state.hands[0].len() > 0 || state.hands[1].len() > 0 || state.hands[2].len() > 0
        || state.hands[3].len() > 0;
    assert(left == cards_left(m)) by {
        if cards_left(m) {
            let i = choose|i: int| 0 <= i < 4 && #[trigger] m.hands[i].len() > 0;
            assert(m.hands[i] == state.hands[i]@);
        }
        if left {
            if state.hands[0].len() > 0 {
                assert(m.hands[0].len() > 0);
            } else if state.hands[1].len() > 0 {
                assert(m.hands[1].len() > 0);
            } else if state.hands[2].len() > 0 {
                assert(m.hands[2].len() > 0);
            } else {
                assert(m.hands[3].len() > 0);
            }
        }
    }
    report(
        &mut problems,
        left,
        String::from_str("des cartes restent en main a la fin de la donne"),
    );

    let played = played_cards(&outcome.events);
    let mut text = String::new();
    push_decimal(&mut text, played.len() as u64);
    text.append(" cartes posees au lieu de 32");
    report(&mut problems, played.len() != 32, text);

    let twice = has_duplicate(&played);
    report(&mut problems, twice, String::from_str("une carte a ete posee deux fois"));

    let unscored = state.score.is_none();
    report(
        &mut problems,
        unscored,
        String::from_str("la donne s'est terminee sans decompte"),
    );
    assert(Seq::<Seq<char>>::empty() + problem_if(points != 162, "total des plis = "@ + decimal(
        points as nat,
    ) + " au lieu de 162"@) =~= problem_if(points != 162, "total des plis = "@ + decimal(
        points as nat,
    ) + " au lieu de 162"@));
    problems
}

/// Toute donne achevee par `play_deal` passe les verifications de
/// `check_invariants` : 162 points de plis, 8 plis, mains vides, 32 cartes
/// posees une fois chacune, et un decompte.
pub proof fn lemma_completed_deal_has_no_problem(dealer: Seat, carry_in: u16, o: DealOutcome)
    requires
        completed_deal(dealer, carry_in, o),
    ensures
        o.state.card_points[0] + o.state.card_points[1] <= u16::MAX,
        o.state.tricks_won[0] + o.state.tricks_won[1] <= u8::MAX,
        deal_problems(o.state@, events_view(o.events@)) == Seq::<Seq<char>>::empty(),
{
    broadcast use vstd::multiset::group_multiset_axioms;
    broadcast use vstd::seq_lib::group_to_multiset_ensures;

    let m = o.state@;
    let played = played_in(events_view(o.events@));
    assert(!cards_left(m));
    lemma_deck_complete();
    assert(played.len() == 32) by {
        assert(played.to_multiset().len() == played.len());
        assert(spec_deck().to_multiset().len() == spec_deck().len());
    }
    spec_deck().lemma_multiset_has_no_duplicates();
    played.lemma_multiset_has_no_duplicates_conv();
    assert(deal_problems(m, events_view(o.events@)) =~= Seq::<Seq<char>>::empty());
}

} // verus!
