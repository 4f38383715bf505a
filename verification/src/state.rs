//! Etat d'une donne. Structure pure : aucune I/O, aucun async.
//!
//! L'etat n'est jamais mute directement par l'exterieur : il est reconstruit en
//! rejouant des `Event` via `rules::reduce`.

use vstd::prelude::*;

use crate::card::{Card, Suit};

verus! {

/// Siege a la table. 0 = Sud, 1 = Ouest, 2 = Nord, 3 = Est.
/// Equipes : {0, 2} contre {1, 3}.
#[derive(Debug, Clone, Copy, PartialEq, Eq, Structural, Hash, PartialOrd, Ord)]
pub struct Seat(pub u8);

/// Une equipe : 0 pour {Sud, Nord}, 1 pour {Ouest, Est}.
#[derive(Debug, Clone, Copy, PartialEq, Eq, Structural, Hash)]
pub struct Team(pub u8);

impl Seat {
    /// Les quatre sieges, dans l'ordre de jeu a partir du sud.
    pub fn all() -> (seats: [Seat; 4])
        ensures
            forall|i: int| 0 <= i < 4 ==> #[trigger] seats[i] == Seat(i as u8),
    {
        [Seat(0), Seat(1), Seat(2), Seat(3)]
    }

    /// Le siege designe bien l'une des quatre places.
    pub open spec fn valid(self) -> bool {
        self.0 < 4
    }

    pub open spec fn spec_next(self) -> Seat {
        Seat(((self.0 + 1) % 4) as u8)
    }

    pub open spec fn spec_partner(self) -> Seat {
        Seat(((self.0 + 2) % 4) as u8)
    }

    pub open spec fn spec_team(self) -> Team {
        Team((self.0 % 2) as u8)
    }

    pub fn index(self) -> (i: usize)
        ensures
            i == self.0,
    {
        self.0 as usize
    }

    /// Le joueur suivant dans le sens du jeu.
    pub fn next(self) -> (s: Seat)
        ensures
            s == self.spec_next(),
    {
        Seat((self.0 % 4 + 1) % 4)
    }

    pub fn partner(self) -> (s: Seat)
        ensures
            s == self.spec_partner(),
    {
        Seat((self.0 % 4 + 2) % 4)
    }

    pub fn team(self) -> (t: Team)
        ensures
            t == self.spec_team(),
    {
        Team(self.0 % 2)
    }
}

impl Team {
    pub open spec fn spec_other(self) -> Team {
        Team((1 - self.0) as u8)
    }

    pub fn index(self) -> (i: usize)
        ensures
            i == self.0,
    {
        self.0 as usize
    }

    pub fn other(self) -> (t: Team)
        requires
            self.0 <= 1,
        ensures
            t == self.spec_other(),
            t.0 == 1 - self.0,
    {
        Team(1 - self.0)
    }
}

/// Quatre pas dans le sens du jeu ramenent au meme siege, le partenaire est
/// a deux pas, le partenaire du partenaire est soi-meme, et les sieges
/// alternent d'equipe.
pub proof fn lemma_seat_rotation(s: Seat)
    requires
        s.valid(),
    ensures
        s.spec_next().valid(),
        s.spec_next().spec_next().spec_next().spec_next() == s,
        s.spec_partner() == s.spec_next().spec_next(),
        s.spec_partner().spec_partner() == s,
        s.spec_partner() != s,
        s.spec_partner().spec_team() == s.spec_team(),
        s.spec_next().spec_team() != s.spec_team(),
        s.spec_team().0 <= 1,
        s.spec_team().spec_other().spec_other() == s.spec_team(),
        s.spec_team().spec_other() != s.spec_team(),
{
}

#[derive(Debug, Clone, Copy, PartialEq, Eq, Structural)]
pub enum Phase {
    /// Avant la distribution.
    Dealing,
    /// Premier tour d'encheres : prendre la carte retournee, ou passer.
    Bidding1,
    /// Second tour : choisir une autre couleur, ou passer.
    Bidding2,
    /// Les 8 plis.
    Playing,
    /// Donne terminee et comptee.
    Finished,
    /// Quatre passes aux deux tours : il faut redistribuer.
    Redeal,
}

#[derive(Debug, Clone, Copy, PartialEq, Eq, Structural)]
pub struct PlayedCard {
    pub seat: Seat,
    pub card: Card,
}

/// Detail du decompte d'une donne.
#[derive(Debug, Clone, Copy, PartialEq, Eq)]
pub struct DealScore {
    /// Points finalement attribues a chaque equipe.
    pub points: [u16; 2],
    /// Points bruts des plis, dix de der inclus, avant contrat et belote.
    pub raw: [u16; 2],
    pub taker: Seat,
    pub trump: Suit,
    /// Siege detenant roi + dame d'atout, le cas echeant.
    pub belote: Option<Seat>,
    pub capot: Option<Team>,
    /// Le preneur a-t-il rempli son contrat ?
    pub contract_made: bool,
    /// Egalite parfaite (81/81) : les points du preneur partent en cagnotte.
    pub litige: bool,
    /// Cagnotte reportee sur la donne suivante.
    pub carry_out: u16,
}

#[derive(Debug, Clone, PartialEq, Eq)]
pub struct GameState {
    pub phase: Phase,
    pub dealer: Seat,
    /// A qui d'agir.
    pub turn: Seat,
    pub hands: [Vec<Card>; 4],
    /// Carte retournee pendant les encheres.
    pub upcard: Option<Card>,
    /// Cartes non encore distribuees.
    pub stock: Vec<Card>,
    pub trump: Option<Suit>,
    pub taker: Option<Seat>,
    /// Nombre de passes consecutives dans le tour d'encheres courant.
    pub passes: u8,
    pub trick: Vec<PlayedCard>,
    pub trick_leader: Seat,
    pub tricks_played: u8,
    pub tricks_won: [u8; 2],
    /// Points des plis ramasses, dix de der inclus une fois le 8e pli joue.
    pub card_points: [u16; 2],
    /// Siege detenant roi + dame d'atout apres distribution complete.
    pub belote_seat: Option<Seat>,
    /// Combien des deux cartes de belote ont deja ete jouees (0, 1 ou 2).
    pub belote_shown: u8,
    /// Cagnotte heritee d'un litige precedent.
    pub carry_in: u16,
    pub score: Option<DealScore>,
}

/// Modele mathematique d'un `GameState` : les vecteurs y deviennent des suites.
#[verifier::ext_equal]
pub struct GameModel {
    pub phase: Phase,
    pub dealer: Seat,
    pub turn: Seat,
    pub hands: Seq<Seq<Card>>,
    pub upcard: Option<Card>,
    pub stock: Seq<Card>,
    pub trump: Option<Suit>,
    pub taker: Option<Seat>,
    pub passes: u8,
    pub trick: Seq<PlayedCard>,
    pub trick_leader: Seat,
    pub tricks_played: u8,
    pub tricks_won: Seq<u8>,
    pub card_points: Seq<u16>,
    pub belote_seat: Option<Seat>,
    pub belote_shown: u8,
    pub carry_in: u16,
    pub score: Option<DealScore>,
}

impl View for GameState {
    type V = GameModel;

    open spec fn view(&self) -> GameModel {
        GameModel {
            phase: self.phase,
            dealer: self.dealer,
            turn: self.turn,
            hands: seq![self.hands[0]@, self.hands[1]@, self.hands[2]@, self.hands[3]@],
            upcard: self.upcard,
            stock: self.stock@,
            trump: self.trump,
            taker: self.taker,
            passes: self.passes,
            trick: self.trick@,
            trick_leader: self.trick_leader,
            tricks_played: self.tricks_played,
            tricks_won: self.tricks_won@,
            card_points: self.card_points@,
            belote_seat: self.belote_seat,
            belote_shown: self.belote_shown,
            carry_in: self.carry_in,
            score: self.score,
        }
    }
}

/// Un etat vierge, avant toute distribution.
pub open spec fn fresh_model(dealer: Seat, carry_in: u16) -> GameModel {
    GameModel {
        phase: Phase::Dealing,
        dealer,
        turn: dealer.spec_next(),
        hands: seq![Seq::empty(), Seq::empty(), Seq::empty(), Seq::empty()],
        upcard: None,
        stock: Seq::empty(),
        trump: None,
        taker: None,
        passes: 0,
        trick: Seq::empty(),
        trick_leader: dealer.spec_next(),
        tricks_played: 0,
        tricks_won: seq![0u8, 0u8],
        card_points: seq![0u16, 0u16],
        belote_seat: None,
        belote_shown: 0,
        carry_in,
        score: None,
    }
}

impl GameModel {
    /// Couleur demandee au pli en cours.
    pub open spec fn led_suit(self) -> Option<Suit> {
        if self.trick.len() > 0 {
            Some(self.trick[0].card.suit)
        } else {
            None
        }
    }

    pub open spec fn is_over(self) -> bool {
        self.phase == Phase::Finished || self.phase == Phase::Redeal
    }
}

impl GameState {
    /// Etat vierge, avant toute distribution.
    pub fn new(dealer: Seat, carry_in: u16) -> (s: GameState)
        ensures
            s@ == fresh_model(dealer, carry_in),
    {
        let s = GameState {
            phase: Phase::Dealing,
            dealer,
            turn: dealer.next(),
            hands: [Vec::new(), Vec::new(), Vec::new(), Vec::new()],
            upcard: None,
            stock: Vec::new(),
            trump: None,
            taker: None,
            passes: 0,
            trick: Vec::new(),
            trick_leader: dealer.next(),
            tricks_played: 0,
            tricks_won: [0, 0],
            card_points: [0, 0],
            belote_seat: None,
            belote_shown: 0,
            carry_in,
            score: None,
        };
        assert(s@.hands =~= fresh_model(dealer, carry_in).hands);
        assert(s@.tricks_won =~= seq![0u8, 0u8]);
        assert(s@.card_points =~= seq![0u16, 0u16]);
        s
    }

    pub fn hand(&self, seat: Seat) -> (h: &[Card])
        requires
            seat.valid(),
        ensures
            h@ == self@.hands[seat.0 as int],
    {
        self.hands[seat.index()].as_slice()
    }

    /// Couleur demandee au pli en cours.
    pub fn led_suit(&self) -> (s: Option<Suit>)
        ensures
            s == self@.led_suit(),
    {
        if self.trick.len() > 0 {
            Some(self.trick[0].card.suit)
        } else {
            None
        }
    }

    pub fn is_over(&self) -> (b: bool)
        ensures
            b == self@.is_over(),
    {
        match self.phase {
            Phase::Finished | Phase::Redeal => true,
            _ => false,
        }
    }
}

} // verus!
