//! Une table de jeu : qui est assis ou, qui est connecte, le score du match,
//! et l'enchainement des donnes.
//!
//! Cette partie ne fait que decider. La tache qui porte la table (reseau,
//! base, minuterie) lui transmet chaque commande et chaque echeance, et
//! execute ce qu'elle repond.

use rand_chacha::ChaCha8Rng;
use vstd::prelude::*;

use crate::action::{Action, RuleError};
use crate::error::ApiError;
use vstd::string::StringExecFns;
use crate::bot::{choose_action, spec_choose_action};
use crate::card::{spec_deck, Card};
use crate::deal_laws::{finished_inv, lemma_deal};
use crate::event::{events_view, Event};
use crate::rules::{
    apply, apply_safe, lemma_legal_moves_in_hand, reduce, replay,
    spec_apply, spec_deal, start_deal,
};
use crate::state::{DealScore, GameState, Phase, Seat};
use crate::turns::{
    deal_inv, lemma_action, lemma_apply_safe, lemma_bot_turn, played_in, reduce_all,
};
use crate::proto::{SeatInfo, ServerMsg};
use crate::seqs::copy_slice;
use crate::view::{project, PlayerView};

verus! {

/// Score a atteindre pour gagner le match.
pub const TARGET_POINTS: u16 = 1000;

/// Temps de reflexion feint d'un bot : un bot instantane rend la table
/// illisible.
pub const BOT_THINK_MS: u64 = 900;

/// Au-dela, un bot joue a la place du joueur absent.
pub const TURN_TIMEOUT_MS: u64 = 45_000;

/// Delai avant d'enchainer seul sur la donne suivante, si personne ne se
/// prononce.
pub const AUTO_CONTINUE_MS: u64 = 45_000;

/// Pause avant de redistribuer.
pub const REDEAL_PAUSE_MS: u64 = 2_000;

/// Le pli ramasse reste visible : sinon la quatrieme carte disparait avant
/// meme d'avoir ete vue.
pub const TRICK_PAUSE_MS: u64 = 1_600;

/// Une table sans personne finit par liberer sa tache.
pub const IDLE_SHUTDOWN_MS: u64 = 600_000;

/// Delai au-dela duquel une partie solo commence sans les joueurs qui ne se
/// connectent pas.
pub const WAIT_FOR_PLAYERS_MS: u64 = 60_000;

/// Un siege : un joueur inscrit, ou un bot.
#[derive(Debug)]
pub struct Occupant {
    pub user_id: Option<u128>,
    pub display_name: String,
    pub is_bot: bool,
}

/// Ce que la table attend apres l'arrivee d'une connexion.
#[derive(Debug, Clone, Copy, PartialEq, Eq, Structural)]
pub enum Arrival {
    /// L'utilisateur n'a pas de siege ici.
    NoSeat,
    /// Assis a `seat` ; la partie demarre maintenant.
    StartMatch { seat: Seat },
    /// Assis a `seat`, au salon d'attente.
    InLobby { seat: Seat },
    /// Assis a `seat`, partie en cours : son siege redevient humain.
    Rejoined { seat: Seat },
}

/// Suite d'une demande de donne suivante.
#[derive(Debug, Clone, Copy, PartialEq, Eq, Structural)]
pub enum ReadyOutcome {
    /// Hors de propos (pas de siege, ou donne non terminee).
    Ignored,
    /// Tout le monde est pret : on repart.
    Proceed,
    /// On attend les autres.
    Waiting,
}

/// Ce qu'il faut faire quand la table reprend apres une donne terminee.
#[derive(Debug, Clone, Copy, PartialEq, Eq, Structural)]
pub enum Resume {
    /// Le match precedent est alle a son terme : nouveau match.
    NewMatch,
    /// Donne suivante.
    NextDeal,
}

/// Ce que la minuterie declenche.
#[derive(Debug, Clone, Copy, PartialEq, Eq, Structural)]
pub enum TickOutcome {
    /// La table est vide depuis trop longtemps : on arrete sa tache.
    Shutdown,
    /// Rien a faire.
    Idle,
    /// Partie solo : on commence sans les absents.
    StartMatch,
    /// Donne terminee, personne ne s'est prononce : on reprend.
    Resume,
    /// Quatre passes : on redistribue.
    Deal,
    /// Le siege a qui c'est le tour joue automatiquement.
    Act { seat: Seat, action: Action },
    /// Plus rien n'est programme.
    ClearTimer,
}

/// Le resultat d'une donne ajoute au score du match, et le vainqueur s'il y
/// en a un.
#[derive(Debug, Clone, Copy, PartialEq, Eq)]
pub struct Settlement {
    pub totals: [u16; 2],
    pub winner: Option<u8>,
}

/// Pourquoi la table ne peut pas continuer.
#[derive(Debug, Clone, Copy, PartialEq, Eq, Structural)]
pub enum TableError {
    /// Le moteur refuse l'action.
    Rule(RuleError),
    /// Le score du match ou la cagnotte ne tient plus sur 16 bits.
    Overflow,
}

pub struct Table {
    owner_id: u128,
    /// Vrai pour une partie solo : elle demarre sans attendre.
    autostart: bool,
    /// La partie a commence (elle a un identifiant en base).
    started: bool,
    occupants: [Occupant; 4],
    /// Les connexions ouvertes, et le siege de chacune.
    conns: Vec<(u64, Seat)>,
    state: GameState,
    seq: u32,
    totals: [u16; 2],
    carry: u16,
    dealer: Seat,
    winner: Option<u8>,
    /// La donne courante a-t-elle deja ete comptabilisee au score du match ?
    settled: bool,
    /// Sieges ayant demande la donne suivante, entre deux donnes.
    ready: [bool; 4],
}

/// Les connexions, sans celle d'identifiant `conn_id`, dans leur ordre.
pub open spec fn without_conn(conns: Seq<(u64, Seat)>, conn_id: u64) -> Seq<(u64, Seat)>
    decreases conns.len(),
{
    if conns.len() == 0 {
        conns
    } else {
        let rest = without_conn(conns.drop_last(), conn_id);
        if conns.last().0 == conn_id {
            rest
        } else {
            rest.push(conns.last())
        }
    }
}

/// Le gagnant d'un match, s'il y en a un : la premiere equipe a 1000 points,
/// pourvu qu'il n'y ait pas egalite.
pub open spec fn match_winner(totals: [u16; 2]) -> Option<u8> {
    let high = if totals[0] >= totals[1] {
        totals[0]
    } else {
        totals[1]
    };
    if high >= TARGET_POINTS && totals[0] != totals[1] {
        Some(
            if totals[0] > totals[1] {
                0u8
            } else {
                1u8
            },
        )
    } else {
        None
    }
}

/// Ajouter les points de la donne `score` aux totaux `totals` depasse la
/// capacite d'un `u16` pour l'une des deux equipes.
pub open spec fn totals_overflow(totals: [u16; 2], score: Option<DealScore>) -> bool {
    score matches Some(sc) && (totals[0] + sc.points[0] > u16::MAX || totals[1] + sc.points[1]
        > u16::MAX)
}

/// Le delai avant la prochaine action automatique, en millisecondes.
pub open spec fn spec_delay(m: crate::state::GameModel, auto: bool, winner: Option<u8>) -> Option<
    u64,
> {
    match m.phase {
        Phase::Bidding1 | Phase::Bidding2 | Phase::Playing => {
            let base = if auto {
                BOT_THINK_MS
            } else {
                TURN_TIMEOUT_MS
            };
            Some(
                (base + if m.trick.len() == 0 && m.tricks_played > 0 {
                    TRICK_PAUSE_MS
                } else {
                    0
                }) as u64,
            )
        },
        Phase::Finished => if winner is Some {
            None
        } else {
            Some(AUTO_CONTINUE_MS)
        },
        Phase::Redeal => Some(REDEAL_PAUSE_MS),
        Phase::Dealing => None,
    }
}

impl Table {
    /// La table est coherente : la donne en cours est bien formee, le donneur
    /// et les connexions designent de vrais sieges.
    #[verifier::type_invariant]
    spec fn wf(self) -> bool {
        &&& (exists|p: Seq<Card>| deal_inv(self.state@, p)) || self.state@.phase == Phase::Dealing
        &&& self.dealer.valid()
        &&& forall|i: int| 0 <= i < self.conns@.len() ==> (#[trigger] self.conns@[i]).1.valid()
    }

    pub closed spec fn is_started(&self) -> bool {
        self.started
    }

    pub closed spec fn spec_state(&self) -> crate::state::GameModel {
        self.state@
    }

    pub closed spec fn spec_totals(&self) -> [u16; 2] {
        self.totals
    }

    pub closed spec fn spec_winner(&self) -> Option<u8> {
        self.winner
    }

    pub closed spec fn spec_settled(&self) -> bool {
        self.settled
    }

    pub closed spec fn spec_connected(&self, seat: Seat) -> bool {
        exists|i: int| 0 <= i < self.conns@.len() && (#[trigger] self.conns@[i]).1 == seat
    }

    pub closed spec fn spec_is_bot(&self, seat: Seat) -> bool {
        self.occupants[seat.0 as int].is_bot
    }

    pub closed spec fn spec_user(&self, seat: Seat) -> Option<u128> {
        self.occupants[seat.0 as int].user_id
    }

    pub closed spec fn spec_ready(&self, seat: Seat) -> bool {
        self.ready[seat.0 as int]
    }

    /// Les connexions ouvertes : identifiant et siege.
    pub closed spec fn spec_conns(&self) -> Seq<(u64, Seat)> {
        self.conns@
    }

    pub closed spec fn spec_dealer(&self) -> Seat {
        self.dealer
    }

    pub closed spec fn spec_carry(&self) -> u16 {
        self.carry
    }

    pub closed spec fn spec_seq(&self) -> u32 {
        self.seq
    }

    pub closed spec fn spec_name(&self, seat: Seat) -> Seq<char> {
        self.occupants[seat.0 as int].display_name@
    }

    pub closed spec fn spec_owner(&self) -> u128 {
        self.owner_id
    }

    /// `infos` decrit les quatre sieges, dans l'ordre : nom, bot ou non,
    /// connecte ou non.
    pub open spec fn seats_described(&self, infos: Seq<SeatInfo>) -> bool {
        &&& infos.len() == 4
        &&& forall|k: int|
            0 <= k < 4 ==> {
                let i = #[trigger] infos[k];
                &&& i.seat == Seat(k as u8)
                &&& i.display_name@ == self.spec_name(Seat(k as u8))
                &&& i.is_bot == self.spec_is_bot(Seat(k as u8))
                &&& i.connected == self.spec_connected(Seat(k as u8))
            }
    }

    /// Tous les sieges tenus par des humains ont une connexion.
    pub open spec fn spec_all_humans_connected(&self) -> bool {
        forall|k: u8| k < 4 ==> self.spec_is_bot(Seat(k)) || self.spec_connected(Seat(k))
    }

    /// Il y a au moins un joueur present, et tous les joueurs presents ont
    /// demande la suite.
    pub open spec fn spec_everyone_ready(&self) -> bool {
        &&& exists|k: u8| k < 4 && !self.spec_is_bot(Seat(k)) && self.spec_connected(Seat(k))
        &&& forall|k: u8|
            k < 4 && !self.spec_is_bot(Seat(k)) && self.spec_connected(Seat(k)) ==> self.spec_ready(
                Seat(k),
            )
    }

    pub closed spec fn spec_autostart(&self) -> bool {
        self.autostart
    }

    /// Un siege joue tout seul s'il est tenu par un bot, ou si son occupant a
    /// perdu la connexion.
    pub open spec fn spec_is_auto(&self, seat: Seat) -> bool {
        self.spec_is_bot(seat) || !self.spec_connected(seat)
    }

    /// Une table ouverte, au salon d'attente.
    pub fn new(owner_id: u128, autostart: bool, occupants: [Occupant; 4]) -> (t: Table)
        ensures
            !t.is_started(),
            t.spec_owner() == owner_id,
            t.spec_autostart() == autostart,
            t.spec_totals() == [0u16, 0u16],
            t.spec_winner() is None,
            t.spec_settled(),
            forall|s: Seat| s.valid() ==> !#[trigger] t.spec_connected(s),
            forall|s: Seat| s.valid() ==> t.spec_is_bot(s) == occupants[s.0 as int].is_bot
                && t.spec_user(s) == occupants[s.0 as int].user_id,
    {
        Table {
            owner_id,
            autostart,
            started: false,
            occupants,
            conns: Vec::new(),
            state: GameState::new(Seat(0), 0),
            seq: 0,
            totals: [0, 0],
            carry: 0,
            dealer: Seat(0),
            winner: None,
            settled: true,
            ready: [false, false, false, false],
        }
    }

    /// L'etat de la donne en cours.
    pub fn state(&self) -> (s: &GameState)
        ensures
            s@ == self.spec_state(),
    {
        &self.state
    }

    pub fn totals(&self) -> (t: [u16; 2])
        ensures
            t == self.spec_totals(),
    {
        self.totals
    }

    pub fn carry(&self) -> (c: u16)
        ensures
            c == self.spec_carry(),
    {
        self.carry
    }

    pub fn winner(&self) -> (w: Option<u8>)
        ensures
            w == self.spec_winner(),
    {
        self.winner
    }

    pub fn seq(&self) -> (n: u32)
        ensures
            n == self.spec_seq(),
    {
        self.seq
    }

    pub fn started(&self) -> (b: bool)
        ensures
            b == self.is_started(),
    {
        self.started
    }

    /// Le numero du prochain evenement du journal.
    pub fn next_seq(&mut self) -> (n: u32)
        ensures
            n == old(self).spec_seq().wrapping_add(1),
            final(self).spec_seq() == n,
            final(self).spec_state() == old(self).spec_state(),
    {
        proof {
            use_type_invariant(&*self);
        }
        self.seq = self.seq.wrapping_add(1);
        self.seq
    }

    /// Le siege de cet utilisateur a cette table.
    pub fn seat_of(&self, user_id: u128) -> (s: Option<Seat>)
        ensures
            s == self.seat_of_spec(user_id),
            s matches Some(seat) ==> seat.valid(),
    {
        let mut i: u8 = 0;
        while i < 4
            invariant
                i <= 4,
                forall|k: u8| k < i ==> self.spec_user(Seat(k)) != Some(user_id),
            decreases 4 - i,
        {
            if self.occupants[i as usize].user_id == Some(user_id) {
                return Some(Seat(i));
            }
            i += 1;
        }
        None
    }

    /// L'utilisateur assis au siege `seat`, s'il y en a un.
    pub fn user_at(&self, seat: Seat) -> (u: Option<u128>)
        requires
            seat.valid(),
        ensures
            u == self.spec_user(seat),
    {
        self.occupants[seat.index()].user_id
    }

    /// Le siege a-t-il une connexion ouverte ?
    pub fn is_connected(&self, seat: Seat) -> (b: bool)
        ensures
            b == self.spec_connected(seat),
    {
        let mut i: usize = 0;
        while i < self.conns.len()
            invariant
                i <= self.conns@.len(),
                forall|k: int| 0 <= k < i ==> (#[trigger] self.conns@[k]).1 != seat,
            decreases self.conns@.len() - i,
        {
            if self.conns[i].1 == seat {
                return true;
            }
            i += 1;
        }
        false
    }

    /// Le siege joue-t-il tout seul ?
    pub fn is_auto(&self, seat: Seat) -> (b: bool)
        requires
            seat.valid(),
        ensures
            b == self.spec_is_auto(seat),
    {
        self.occupants[seat.index()].is_bot || !self.is_connected(seat)
    }

    /// Vrai quand tous les sieges tenus par des humains ont une connexion.
    pub fn all_humans_connected(&self) -> (b: bool)
        ensures
            b == self.spec_all_humans_connected(),
    {
        let mut k: u8 = 0;
        while k < 4
            invariant
                k <= 4,
                forall|j: u8| j < k ==> self.spec_is_bot(Seat(j)) || self.spec_connected(Seat(j)),
            decreases 4 - k,
        {
            if !(self.occupants[k as usize].is_bot || self.is_connected(Seat(k))) {
                return false;
            }
            k += 1;
        }
        true
    }

    /// Tous les joueurs presents ont demande la suite. Les bots ne votent
    /// pas, et un joueur deconnecte ne bloque pas la table ; il faut quand
    /// meme au moins un joueur present.
    pub fn everyone_ready(&self) -> (b: bool)
        ensures
            b == self.spec_everyone_ready(),
    {
        let mut any = false;
        let mut k: u8 = 0;
        while k < 4
            invariant
                k <= 4,
                any == exists|j: u8| j < k && !self.spec_is_bot(Seat(j)) && self.spec_connected(Seat(j)),
                forall|j: u8|
                    j < k && !self.spec_is_bot(Seat(j)) && self.spec_connected(Seat(j))
                        ==> self.spec_ready(Seat(j)),
            decreases 4 - k,
        {
            let present = !self.occupants[k as usize].is_bot && self.is_connected(Seat(k));
            if present {
                if !self.ready[k as usize] {
                    return false;
                }
                any = true;
            }
            proof {
                if present {
                    assert(k < k + 1 && !self.spec_is_bot(Seat(k)) && self.spec_connected(Seat(k)));
                }
            }
            k += 1;
        }
        any
    }

    /// Les sieges, tels que les joueurs les voient.
    pub fn seat_infos(&self) -> (infos: Vec<SeatInfo>)
        ensures
            self.seats_described(infos@),
    {
        let mut infos: Vec<SeatInfo> = Vec::new();
        let mut k: u8 = 0;
        while k < 4
            invariant
                k <= 4,
                infos@.len() == k,
                forall|j: int|
                    0 <= j < k ==> {
                        let i = #[trigger] infos@[j];
                        &&& i.seat == Seat(j as u8)
                        &&& i.display_name@ == self.spec_name(Seat(j as u8))
                        &&& i.is_bot == self.spec_is_bot(Seat(j as u8))
                        &&& i.connected == self.spec_connected(Seat(j as u8))
                    },
            decreases 4 - k,
        {
            let occ = &self.occupants[k as usize];
            infos.push(
                SeatInfo {
                    seat: Seat(k),
                    display_name: occ.display_name.clone(),
                    is_bot: occ.is_bot,
                    connected: self.is_connected(Seat(k)),
                },
            );
            k += 1;
        }
        infos
    }

    /// Les sieges parmi les `k` premiers qui ont demande la suite, dans
    /// l'ordre.
    pub closed spec fn ready_upto(&self, k: int) -> Seq<Seat>
        decreases k,
    {
        if k <= 0 {
            Seq::empty()
        } else {
            let r = self.ready_upto(k - 1);
            if self.ready[k - 1] {
                r.push(Seat((k - 1) as u8))
            } else {
                r
            }
        }
    }

    /// Les sieges ayant demande la suite, dans l'ordre.
    pub fn ready_seats(&self) -> (seats: Vec<Seat>)
        ensures
            seats@ == self.ready_upto(4),
    {
        let mut seats: Vec<Seat> = Vec::new();
        let mut k: u8 = 0;
        while k < 4
            invariant
                k <= 4,
                seats@ == self.ready_upto(k as int),
            decreases 4 - k,
        {
            if self.ready[k as usize] {
                seats.push(Seat(k));
            }
            k += 1;
        }
        seats
    }

    /// Ce joueur peut-il lancer la partie ? Seul le proprietaire, au salon.
    pub fn can_start(&self, user_id: u128) -> (b: bool)
        ensures
            b == (user_id == self.spec_owner() && !self.is_started()),
    {
        user_id == self.owner_id && !self.started
    }

    /// Le siege `seat` peut-il lancer la partie depuis le salon ?
    pub fn seat_can_start(&self, seat: Seat) -> (b: bool)
        requires
            seat.valid(),
        ensures
            b == (!self.is_started() && self.spec_user(seat) == Some(self.spec_owner())),
    {
        !self.started && self.occupants[seat.index()].user_id == Some(self.owner_id)
    }

    /// La vue du siege `seat`.
    pub fn view_for(&self, seat: Seat) -> (v: PlayerView)
        requires
            seat.valid(),
        ensures
            crate::view::projected(self.spec_state(), seat, v),
    {
        project(&self.state, seat)
    }

    /// Une connexion arrive pour `user_id`.
    pub fn connect(&mut self, user_id: u128, conn_id: u64) -> (a: Arrival)
        ensures
            final(self).spec_state() == old(self).spec_state(),
            final(self).is_started() == old(self).is_started(),
            match a {
                Arrival::NoSeat => old(self).seat_of_spec(user_id) is None,
                Arrival::StartMatch { seat } => old(self).seat_of_spec(user_id) == Some(seat)
                    && !old(self).is_started() && old(self).spec_autostart()
                    && final(self).spec_all_humans_connected(),
                Arrival::InLobby { seat } => old(self).seat_of_spec(user_id) == Some(seat)
                    && !old(self).is_started() && !(old(self).spec_autostart()
                    && final(self).spec_all_humans_connected()),
                Arrival::Rejoined { seat } => old(self).seat_of_spec(user_id) == Some(seat)
                    && old(self).is_started(),
            },
            a !is NoSeat ==> final(self).spec_conns() == old(self).spec_conns().push(
                (conn_id, old(self).seat_of_spec(user_id)->0),
            ),
            a is NoSeat ==> final(self).spec_conns() == old(self).spec_conns(),
            a !is NoSeat ==> final(self).spec_connected(old(self).seat_of_spec(user_id)->0),
    {
        proof {
            use_type_invariant(&*self);
        }
        let seat = match self.seat_of(user_id) {
            Some(s) => s,
            None => {
                return Arrival::NoSeat;
            },
        };
        let ghost before = self.conns@;
        let mut conns = copy_slice(self.conns.as_slice());
        conns.push((conn_id, seat));
        assert(conns@[before.len() as int] == (conn_id, seat));
        self.conns = conns;
        assert(self.conns@ == before.push((conn_id, seat)));
        if !self.started {
            if self.autostart && self.all_humans_connected() {
                Arrival::StartMatch { seat }
            } else {
                Arrival::InLobby { seat }
            }
        } else {
            Arrival::Rejoined { seat }
        }
    }

    /// Le siege de l'utilisateur, comme le rend `seat_of`.
    pub open spec fn seat_of_spec(&self, user_id: u128) -> Option<Seat> {
        if self.spec_user(Seat(0)) == Some(user_id) {
            Some(Seat(0))
        } else if self.spec_user(Seat(1)) == Some(user_id) {
            Some(Seat(1))
        } else if self.spec_user(Seat(2)) == Some(user_id) {
            Some(Seat(2))
        } else if self.spec_user(Seat(3)) == Some(user_id) {
            Some(Seat(3))
        } else {
            None
        }
    }

    /// Une connexion se ferme ; vrai si plus personne n'est connecte.
    pub fn disconnect(&mut self, conn_id: u64) -> (empty: bool)
        ensures
            final(self).spec_state() == old(self).spec_state(),
            empty == (final(self).spec_conns().len() == 0),
            final(self).spec_conns() == without_conn(old(self).spec_conns(), conn_id),
    {
        proof {
            use_type_invariant(&*self);
        }
        let mut kept: Vec<(u64, Seat)> = Vec::new();
        let mut i: usize = 0;
        while i < self.conns.len()
            invariant
                i <= self.conns@.len(),
                forall|k: int| 0 <= k < self.conns@.len() ==> (#[trigger] self.conns@[k]).1.valid(),
                forall|k: int| 0 <= k < kept@.len() ==> (#[trigger] kept@[k]).1.valid(),
                kept@ == without_conn(self.conns@.subrange(0, i as int), conn_id),
            decreases self.conns@.len() - i,
        {
            let c = self.conns[i];
            proof {
                assert(self.conns@.subrange(0, i as int + 1).drop_last() =~= self.conns@.subrange(0, i as int));
                assert(self.conns@.subrange(0, i as int + 1).last() == c);
            }
            if c.0 != conn_id {
                kept.push(c);
            }
            i += 1;
        }
        assert(self.conns@.subrange(0, self.conns@.len() as int) =~= self.conns@);
        self.conns = kept;
        self.conns.len() == 0
    }

    /// Un joueur demande la donne suivante.
    pub fn mark_ready(&mut self, user_id: u128) -> (r: ReadyOutcome)
        ensures
            final(self).spec_state() == old(self).spec_state(),
            r is Ignored <==> (old(self).seat_of_spec(user_id) is None || old(self).spec_state().phase
                != Phase::Finished),
            r !is Ignored ==> final(self).spec_ready(old(self).seat_of_spec(user_id)->0),
            r !is Ignored ==> forall|s: Seat|
                s.valid() && s != old(self).seat_of_spec(user_id)->0 ==> #[trigger] final(self).spec_ready(s)
                    == old(self).spec_ready(s),
            r is Ignored ==> forall|s: Seat| s.valid() ==> #[trigger] final(self).spec_ready(s)
                == old(self).spec_ready(s),
            forall|s: Seat| s.valid() ==> #[trigger] final(self).spec_is_bot(s) == old(self).spec_is_bot(s),
            final(self).spec_conns() == old(self).spec_conns(),
            r is Proceed <==> (r !is Ignored && final(self).spec_everyone_ready()),
    {
        proof {
            use_type_invariant(&*self);
        }
        let seat = match self.seat_of(user_id) {
            Some(s) => s,
            None => {
                return ReadyOutcome::Ignored;
            },
        };
        if self.state.phase != Phase::Finished {
            return ReadyOutcome::Ignored;
        }
        let mut ready = self.ready;
        ready[seat.index()] = true;
        self.ready = ready;
        if self.everyone_ready() {
            ReadyOutcome::Proceed
        } else {
            ReadyOutcome::Waiting
        }
    }

    /// Reprend apres une donne terminee : les demandes de suite sont
    /// effacees ; nouveau match si le precedent est alle a son terme.
    pub fn resume(&mut self) -> (r: Resume)
        ensures
            final(self).spec_state() == old(self).spec_state(),
            r == (if old(self).spec_winner() is Some {
                Resume::NewMatch
            } else {
                Resume::NextDeal
            }),
            forall|s: Seat| s.valid() ==> !#[trigger] final(self).spec_ready(s),
    {
        proof {
            use_type_invariant(&*self);
        }
        self.ready = [false, false, false, false];
        if self.winner.is_some() {
            Resume::NewMatch
        } else {
            Resume::NextDeal
        }
    }

    /// Un nouveau match commence : scores, cagnotte et donneur a zero.
    pub fn begin_match(&mut self)
        ensures
            final(self).is_started(),
            final(self).spec_totals() == [0u16, 0u16],
            final(self).spec_winner() is None,
            final(self).spec_carry() == 0,
            final(self).spec_dealer() == Seat(0),
            final(self).spec_seq() == 0,
            final(self).spec_state() == old(self).spec_state(),
    {
        proof {
            use_type_invariant(&*self);
        }
        self.started = true;
        self.totals = [0, 0];
        self.carry = 0;
        self.winner = None;
        self.seq = 0;
        self.dealer = Seat(0);
    }

    /// Distribue une nouvelle donne et renvoie l'evenement de distribution.
    pub fn deal(&mut self, rng: &mut ChaCha8Rng) -> (e: Event)
        ensures
            final(self).spec_state().phase == Phase::Bidding1,
            final(self).spec_state() == crate::rules::step(old(self).spec_state(), e@),
            !final(self).spec_settled(),
            final(self).spec_carry() == old(self).spec_carry(),
            final(self).spec_dealer() == old(self).spec_dealer(),
            final(self).spec_totals() == old(self).spec_totals(),
            exists|deck: Seq<Card>|
                {
                    &&& deck.len() == 32
                    &&& deck.to_multiset() == spec_deck().to_multiset()
                    &&& #[trigger] spec_deal(old(self).spec_dealer(), old(self).spec_carry(), deck)
                        == e@
                },
    {
        proof {
            use_type_invariant(&*self);
        }
        self.settled = false;
        self.ready = [false, false, false, false];
        let ev = start_deal(self.dealer, self.carry, rng);
        let mut st = GameState::new(self.dealer, self.carry);
        proof {
            let deck = choose|deck: Seq<Card>|
                {
                    &&& deck.len() == 32
                    &&& deck.to_multiset() == spec_deck().to_multiset()
                    &&& #[trigger] spec_deal(self.dealer, self.carry, deck) == ev@
                };
            lemma_deal(st@, self.dealer, self.carry, deck);
            lemma_deal(self.state@, self.dealer, self.carry, deck);
            assert(spec_deal(old(self).spec_dealer(), old(self).spec_carry(), deck) == ev@);
            assert(deal_inv(crate::rules::step(st@, ev@), Seq::empty()));
        }
        reduce(&mut st, &ev);
        self.state = st;
        ev
    }

    /// L'action que le bot jouerait pour le siege a qui c'est le tour.
    pub fn bot_action(&self) -> (a: Option<(Seat, Action)>)
        ensures
            match a {
                Some((seat, action)) => {
                    &&& seat == self.spec_state().turn
                    &&& spec_apply(self.spec_state(), seat, action) is Ok
                    &&& exists|v: PlayerView|
                        crate::view::projected(self.spec_state(), seat, v)
                            && #[trigger] spec_choose_action(v) == Some(action)
                },
                None => self.spec_state().is_over() || self.spec_state().phase == Phase::Dealing,
            },
    {
        if self.state.is_over() || self.state.phase == Phase::Dealing {
            return None;
        }
        let seat = self.state.turn;
        proof {
            use_type_invariant(self);
            let p = choose|p: Seq<Card>| deal_inv(self.state@, p);
            crate::sim::lemma_turn_is_a_seat(self.state@, p);
        }
        let view = project(&self.state, seat);
        proof {
            let p = choose|p: Seq<Card>| deal_inv(self.state@, p);
            lemma_bot_turn(self.state@, p, view);
        }
        match choose_action(&view) {
            Some(action) => {
                assert(spec_choose_action(view) == Some(action));
                Some((seat, action))
            },
            None => None,
        }
    }

    /// Fait jouer `action` au siege `seat` et applique les evenements a la
    /// donne.
    fn play(&mut self, seat: Seat, action: Action) -> (r: Result<Vec<Event>, RuleError>)
        requires
            apply_safe(old(self).spec_state(), seat, action),
        ensures
            final(self).spec_totals() == old(self).spec_totals(),
            final(self).spec_settled() == old(self).spec_settled(),
            final(self).spec_winner() == old(self).spec_winner(),
            final(self).spec_carry() == old(self).spec_carry(),
            final(self).spec_dealer() == old(self).spec_dealer(),
            match r {
                Ok(evs) => spec_apply(old(self).spec_state(), seat, action) matches Ok(models)
                    && events_view(evs@) == models && final(self).spec_state() == replay(
                    old(self).spec_state(),
                    models,
                ),
                Err(e) => spec_apply(old(self).spec_state(), seat, action) == Err::<
                    Seq<crate::event::EventModel>,
                    RuleError,
                >(e) && final(self).spec_state() == old(self).spec_state(),
            },
    {
        proof {
            use_type_invariant(&*self);
        }
        let ghost m0 = self.state@;
        let ghost p0 = choose|p: Seq<Card>| deal_inv(m0, p);
        let evs = match apply(&self.state, seat, action) {
            Ok(evs) => evs,
            Err(e) => {
                return Err(e);
            },
        };
        let ghost models = spec_apply(m0, seat, action)->Ok_0;
        proof {
            if m0.phase == Phase::Dealing {
                lemma_dealing_refuses(m0, seat, action);
            }
            lemma_action(m0, p0, action);
            assert(events_view(evs@) =~= models);
        }
        let mut st = self.state.duplicate();
        reduce_all(&mut st, &evs);
        proof {
            assert(deal_inv(st@, p0 + played_in(models)));
        }
        self.state = st;
        Ok(evs)
    }

    /// L'action se traite-t-elle sans depassement ? Seule la derniere carte
    /// d'une donne peut echouer : quand son decompte ne tient pas sur 16 bits.
    fn action_fits(&self, seat: Seat, action: Action) -> (b: bool)
        ensures
            b == apply_safe(self.spec_state(), seat, action),
            !b ==> spec_apply(self.spec_state(), seat, action) is Ok,
    {
        proof {
            use_type_invariant(self);
        }
        if self.state.phase == Phase::Dealing {
            return true;
        }
        crate::turns::action_fits(&self.state, seat, action)
    }

    /// Le siege `seat` joue `action`. Les evenements produits sont appliques
    /// a la donne ; si elle vient de se terminer, elle est ajoutee au score
    /// du match.
    pub fn act(&mut self, seat: Seat, action: Action) -> (r: Result<
        (Vec<Event>, Option<Settlement>),
        TableError,
    >)
        ensures
            match r {
                Ok((evs, settlement)) => apply_safe(old(self).spec_state(), seat, action) && (spec_apply(
                    old(self).spec_state(),
                    seat,
                    action,
                ) matches Ok(models) && events_view(evs@) == models && final(self).spec_state() == replay(
                    old(self).spec_state(),
                    models,
                ) && match settlement {
                    Some(s) => {
                        &&& !old(self).spec_settled()
                        &&& final(self).spec_state().phase == Phase::Finished
                        &&& final(self).spec_settled()
                        &&& s.totals == final(self).spec_totals()
                        &&& s.winner == final(self).spec_winner()
                        &&& final(self).spec_state().score matches Some(sc) && s.totals[0]
                            == old(self).spec_totals()[0] + sc.points[0] && s.totals[1]
                            == old(self).spec_totals()[1] + sc.points[1] && final(self).spec_carry()
                            == sc.carry_out
                        &&& final(self).spec_dealer() == old(self).spec_dealer().spec_next()
                        &&& final(self).spec_winner() == if match_winner(s.totals) is Some {
                            match_winner(s.totals)
                        } else {
                            old(self).spec_winner()
                        }
                    },
                    None => final(self).spec_totals() == old(self).spec_totals()
                        && final(self).spec_carry() == old(self).spec_carry()
                        && final(self).spec_dealer() == old(self).spec_dealer() && (
                    final(self).spec_state().phase == Phase::Finished ==> old(self).spec_settled()),
                }),
                Err(TableError::Rule(e)) => apply_safe(old(self).spec_state(), seat, action)
                    && spec_apply(old(self).spec_state(), seat, action) == Err::<
                    Seq<crate::event::EventModel>,
                    RuleError,
                >(e) && final(self).spec_state() == old(self).spec_state(),
                Err(TableError::Overflow) => (!apply_safe(old(self).spec_state(), seat, action)
                    && spec_apply(old(self).spec_state(), seat, action) is Ok && final(self).spec_state() == old(self).spec_state() && final(self).spec_totals()
                    == old(self).spec_totals() && final(self).spec_carry() == old(self).spec_carry()
                    && final(self).spec_dealer() == old(self).spec_dealer()) || (apply_safe(
                    old(self).spec_state(),
                    seat,
                    action,
                ) && (spec_apply(old(self).spec_state(), seat, action) matches Ok(
                    models,
                ) && final(self).spec_state() == replay(old(self).spec_state(), models)
                    && final(self).spec_state().phase == Phase::Finished && !old(self).spec_settled()
                    && final(self).spec_totals() == old(self).spec_totals()
                    && final(self).spec_carry() == old(self).spec_carry()
                    && final(self).spec_dealer() == old(self).spec_dealer()
                    && totals_overflow(old(self).spec_totals(), final(self).spec_state().score))),
            },
    {
        proof {
            use_type_invariant(&*self);
        }
        if !self.action_fits(seat, action) {
            return Err(TableError::Overflow);
        }
        let evs = match self.play(seat, action) {
            Ok(evs) => evs,
            Err(e) => {
                return Err(TableError::Rule(e));
            },
        };
        if self.state.phase == Phase::Finished && !self.settled {
            match self.settle() {
                Some(s) => Ok((evs, Some(s))),
                None => Err(TableError::Overflow),
            }
        } else {
            Ok((evs, None))
        }
    }

    /// Ajoute la donne terminee au score du match et regarde si quelqu'un a
    /// gagne. `None` si le score ne tient plus sur 16 bits.
    fn settle(&mut self) -> (r: Option<Settlement>)
        requires
            old(self).spec_state().phase == Phase::Finished,
        ensures
            final(self).spec_state() == old(self).spec_state(),
            match r {
                Some(s) => {
                    &&& final(self).spec_settled()
                    &&& s.totals == final(self).spec_totals()
                    &&& s.winner == final(self).spec_winner()
                    &&& old(self).spec_state().score matches Some(sc) && s.totals[0]
                        == old(self).spec_totals()[0] + sc.points[0] && s.totals[1]
                        == old(self).spec_totals()[1] + sc.points[1] && final(self).spec_carry()
                        == sc.carry_out
                    &&& final(self).spec_dealer() == old(self).spec_dealer().spec_next()
                    &&& final(self).spec_winner() == if match_winner(s.totals) is Some {
                        match_winner(s.totals)
                    } else {
                        old(self).spec_winner()
                    }
                },
                None => {
                    &&& final(self).spec_totals() == old(self).spec_totals()
                    &&& final(self).spec_carry() == old(self).spec_carry()
                    &&& final(self).spec_dealer() == old(self).spec_dealer()
                    &&& final(self).spec_settled() == old(self).spec_settled()
                    &&& totals_overflow(old(self).spec_totals(), old(self).spec_state().score)
                },
            },
    {
        proof {
            use_type_invariant(&*self);
        }
        let score: DealScore = match self.state.score {
            Some(s) => s,
            None => {
                proof {
                    use_type_invariant(&*self);
                    let p = choose|p: Seq<Card>| deal_inv(self.state@, p);
                    assert(finished_inv(self.state@, p));
                }
                return None;
            },
        };
        let t0 = match self.totals[0].checked_add(score.points[0]) {
            Some(t) => t,
            None => {
                return None;
            },
        };
        let t1 = match self.totals[1].checked_add(score.points[1]) {
            Some(t) => t,
            None => {
                return None;
            },
        };
        self.settled = true;
        self.totals = [t0, t1];
        self.carry = score.carry_out;
        self.dealer = self.dealer.next();
        let high = if t0 >= t1 {
            t0
        } else {
            t1
        };
        if high >= TARGET_POINTS && t0 != t1 {
            self.winner = Some(
                if t0 > t1 {
                    0
                } else {
                    1
                },
            );
        }
        Some(Settlement { totals: self.totals, winner: self.winner })
    }

    /// Delai avant la prochaine action automatique, en millisecondes ;
    /// `None` si rien ne doit se declencher seul.
    pub fn schedule_delay(&self) -> (d: Option<u64>)
        ensures
            d == spec_delay(
                self.spec_state(),
                self.spec_is_auto(self.spec_state().turn),
                self.spec_winner(),
            ),
    {
        match self.state.phase {
            Phase::Bidding1 | Phase::Bidding2 | Phase::Playing => {
                proof {
                    use_type_invariant(self);
                    let p = choose|p: Seq<Card>| deal_inv(self.state@, p);
                    crate::sim::lemma_turn_is_a_seat(self.state@, p);
                }
                let seat = self.state.turn;
                let mut delay = if self.is_auto(seat) {
                    BOT_THINK_MS
                } else {
                    TURN_TIMEOUT_MS
                };
                if self.state.trick.len() == 0 && self.state.tricks_played > 0 {
                    delay = delay + TRICK_PAUSE_MS;
                }
                Some(delay)
            },
            Phase::Finished => if self.winner.is_some() {
                None
            } else {
                Some(AUTO_CONTINUE_MS)
            },
            Phase::Redeal => Some(REDEAL_PAUSE_MS),
            Phase::Dealing => None,
        }
    }

    /// L'instantane complet de la table pour le siege `seat`.
    pub fn snapshot_for(&self, seat: Seat, join_code: &String) -> (msg: ServerMsg)
        requires
            seat.valid(),
        ensures
            msg matches ServerMsg::Snapshot {
                seq,
                view,
                totals,
                carry,
                seats,
                winner,
                ready,
                awaiting_continue,
                in_lobby,
                can_start,
                join_code: code,
            } && seq == self.spec_seq() && crate::view::projected(self.spec_state(), seat, *view)
                && totals == self.spec_totals() && carry == self.spec_carry() && self.seats_described(
                seats@,
            )
                && winner == self.spec_winner() && ready@ == self.ready_upto(4) && awaiting_continue
                == (self.spec_state().phase == Phase::Finished) && in_lobby == !self.is_started()
                && can_start == (!self.is_started() && self.spec_user(seat) == Some(
                self.spec_owner(),
            )) && code@ == join_code@,
    {
        ServerMsg::Snapshot {
            seq: self.seq,
            view: Box::new(project(&self.state, seat)),
            totals: self.totals,
            carry: self.carry,
            seats: self.seat_infos(),
            winner: self.winner,
            ready: self.ready_seats(),
            awaiting_continue: self.state.phase == Phase::Finished,
            in_lobby: !self.started,
            can_start: self.seat_can_start(seat),
            join_code: join_code.clone(),
        }
    }

    /// Ce que declenche un battement de la minuterie. `idle_for` : depuis
    /// combien de temps plus personne n'est connecte (`None` si quelqu'un
    /// l'est) ; `waiting_for` : depuis combien de temps on attend les joueurs
    /// au salon ; `due` : l'action programmee est-elle echue ?
    pub fn on_tick(&self, idle_for: Option<u64>, waiting_for: Option<u64>, due: bool) -> (t: TickOutcome)
        ensures
            match idle_for {
                Some(ms) => t == if ms > IDLE_SHUTDOWN_MS {
                    TickOutcome::Shutdown
                } else {
                    TickOutcome::Idle
                },
                None => if !self.is_started() {
                    t == if self.spec_autostart() && (waiting_for matches Some(w) && w
                        > WAIT_FOR_PLAYERS_MS) {
                        TickOutcome::StartMatch
                    } else {
                        TickOutcome::Idle
                    }
                } else if !due {
                    t == TickOutcome::Idle
                } else {
                    match self.spec_state().phase {
                        Phase::Finished => t == TickOutcome::Resume,
                        Phase::Redeal => t == TickOutcome::Deal,
                        Phase::Dealing => t == TickOutcome::ClearTimer,
                        _ => match t {
                            TickOutcome::Act { seat, action } => seat == self.spec_state().turn
                                && spec_apply(self.spec_state(), seat, action) is Ok && exists|
                                v: PlayerView,
                            |
                                crate::view::projected(self.spec_state(), seat, v)
                                    && #[trigger] spec_choose_action(v) == Some(action),
                            _ => false,
                        },
                    }
                },
            },
    {
        if let Some(ms) = idle_for {
            // Personne ne regarde : on ne fait pas jouer les bots dans le vide.
            return if ms > IDLE_SHUTDOWN_MS {
                TickOutcome::Shutdown
            } else {
                TickOutcome::Idle
            };
        }
        if !self.started {
            if self.autostart {
                if let Some(w) = waiting_for {
                    if w > WAIT_FOR_PLAYERS_MS {
                        return TickOutcome::StartMatch;
                    }
                }
            }
            return TickOutcome::Idle;
        }
        if !due {
            return TickOutcome::Idle;
        }
        match self.state.phase {
            Phase::Finished => TickOutcome::Resume,
            Phase::Redeal => TickOutcome::Deal,
            Phase::Dealing => TickOutcome::ClearTimer,
            _ => match self.bot_action() {
                Some((seat, action)) => TickOutcome::Act { seat, action },
                None => TickOutcome::ClearTimer,
            },
        }
    }
}

/// Aucune action n'est acceptee avant la premiere distribution.
proof fn lemma_dealing_refuses(m: crate::state::GameModel, seat: Seat, action: Action)
    requires
        m.phase == Phase::Dealing,
    ensures
        spec_apply(m, seat, action) is Err,
{
}

/// Un siege tel que la base le decrit.
pub struct SeatRecord {
    pub seat: i16,
    pub user_id: Option<u128>,
    pub display_name: Option<String>,
    pub is_bot: bool,
}

/// Le modele d'un siege lu en base.
pub type SeatRecordModel = (i16, Option<u128>, Option<Seq<char>>, bool);

pub open spec fn record_model(r: SeatRecord) -> SeatRecordModel {
    (
        r.seat,
        r.user_id,
        match r.display_name {
            Some(n) => Some(n@),
            None => None,
        },
        r.is_bot,
    )
}

/// Le nom d'un bot assis au siege `k`.
pub open spec fn bot_name(k: int) -> Seq<char> {
    if k == 0 {
        "Robot Sud"@
    } else if k == 1 {
        "Robot Ouest"@
    } else if k == 2 {
        "Robot Nord"@
    } else {
        "Robot Est"@
    }
}

/// La derniere ligne decrivant le siege `k`.
pub open spec fn last_record(rows: Seq<SeatRecordModel>, k: int) -> Option<SeatRecordModel>
    decreases rows.len(),
{
    if rows.len() == 0 {
        None
    } else if rows.last().0 == k {
        Some(rows.last())
    } else {
        last_record(rows.drop_last(), k)
    }
}

/// L'occupant du siege `k` decrit par ces lignes : par defaut un bot.
pub open spec fn occupant_described(rows: Seq<SeatRecordModel>, k: int, o: Occupant) -> bool {
    match last_record(rows, k) {
        Some(r) => o.user_id == r.1 && o.is_bot == r.3 && o.display_name@ == match r.2 {
            Some(n) => n,
            None => bot_name(k),
        },
        None => o.user_id is None && o.is_bot && o.display_name@ == bot_name(k),
    }
}

fn bot_label(k: usize) -> (s: String)
    requires
        k < 4,
    ensures
        s@ == bot_name(k as int),
{
    if k == 0 {
        String::from_str("Robot Sud")
    } else if k == 1 {
        String::from_str("Robot Ouest")
    } else if k == 2 {
        String::from_str("Robot Nord")
    } else {
        String::from_str("Robot Est")
    }
}

/// Les quatre occupants d'une table, d'apres les sieges lus en base. Une
/// table qui n'a pas exactement quatre sieges est une panne interne.
pub fn load_occupants(join_code: &str, rows: Vec<SeatRecord>) -> (r: Result<[Occupant; 4], ApiError>)
    requires
        rows@.len() == 4 ==> forall|i: int| 0 <= i < rows@.len() ==> 0 <= (#[trigger] rows@[i]).seat < 4,
    ensures
        match r {
            Ok(occ) => rows@.len() == 4 && forall|k: int|
                0 <= k < 4 ==> occupant_described(
                    rows@.map_values(|x: SeatRecord| record_model(x)),
                    k,
                    #[trigger] occ[k],
                ),
            Err(e) => rows@.len() != 4 && (e matches ApiError::Internal(m) && m@ == "la table "@
                + join_code@ + " n'a pas 4 sieges"@),
        },
{
    if rows.len() != 4 {
        let mut m = String::from_str("la table ");
        m.append(join_code);
        m.append(" n'a pas 4 sieges");
        return Err(ApiError::Internal(m));
    }
    let ghost model = rows@.map_values(|x: SeatRecord| record_model(x));
    let mut occ: [Occupant; 4] = [
        Occupant { user_id: None, display_name: bot_label(0), is_bot: true },
        Occupant { user_id: None, display_name: bot_label(1), is_bot: true },
        Occupant { user_id: None, display_name: bot_label(2), is_bot: true },
        Occupant { user_id: None, display_name: bot_label(3), is_bot: true },
    ];
    let mut i: usize = 0;
    while i < rows.len()
        invariant
            rows@.len() == 4,
            i <= 4,
            model == rows@.map_values(|x: SeatRecord| record_model(x)),
            forall|j: int| 0 <= j < rows@.len() ==> 0 <= (#[trigger] rows@[j]).seat < 4,
            forall|k: int| 0 <= k < 4 ==> occupant_described(model.subrange(0, i as int), k, #[trigger] occ[k]),
        decreases 4 - i,
    {
        let row = &rows[i];
        let k = row.seat as usize;
        let name = match &row.display_name {
            Some(n) => n.clone(),
            None => bot_label(k),
        };
        let ghost before = occ;
        occ[k] = Occupant { user_id: row.user_id, display_name: name, is_bot: row.is_bot };
        proof {
            let sub = model.subrange(0, i as int + 1);
            assert(sub.drop_last() =~= model.subrange(0, i as int));
            assert(sub.last() == record_model(rows@[i as int]));
            assert forall|j: int| 0 <= j < 4 implies occupant_described(sub, j, #[trigger] occ[j]) by {
                if j != k as int {
                    assert(occ[j] == before[j]);
                }
            }
        }
        i += 1;
    }
    assert(model.subrange(0, 4) =~= model);
    Ok(occ)
}

} // verus!
