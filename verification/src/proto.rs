//! Protocole temps reel, et les petites reponses de l'API.
//!
//! Choix structurant : apres chaque changement, le serveur renvoie un
//! `Snapshot` complet de la vue du joueur, en plus de l'evenement. Le client
//! n'a donc aucune regle de belote a reimplementer : il affiche l'instantane,
//! et n'utilise les evenements que pour animer.

use vstd::prelude::*;

use crate::action::Action;
use crate::event::PublicEvent;
use crate::state::Seat;
use crate::view::PlayerView;

verus! {

/// Ce que le client envoie.
#[derive(Debug, Clone, Copy, PartialEq, Eq, Structural)]
pub enum ClientMsg {
    /// Une action de jeu : prendre, passer, choisir l'atout, poser une carte.
    Act { action: Action },
    /// « Je veux la donne suivante. » Rien ne repart tant que les joueurs
    /// presents ne l'ont pas demande.
    Ready,
    /// Le proprietaire lance la table depuis le salon d'attente.
    Start,
    /// Redemande l'etat complet, apres une coupure reseau par exemple.
    Resync,
    Ping,
}

/// Ce qu'un joueur voit d'un siege.
#[derive(Debug)]
pub struct SeatInfo {
    pub seat: Seat,
    pub display_name: String,
    pub is_bot: bool,
    /// Faux si le joueur humain a perdu la connexion : un bot le remplace.
    pub connected: bool,
}

/// Ce que le serveur envoie.
#[derive(Debug)]
pub enum ServerMsg {
    /// Premier message : qui je suis a cette table.
    Welcome { seat: Seat, join_code: String, target: u16 },
    /// Etat de reference. Fait autorite sur tout le reste.
    Snapshot {
        seq: u32,
        view: Box<PlayerView>,
        /// Score du match, cumule sur les donnes precedentes.
        totals: [u16; 2],
        /// Cagnotte en attente, issue d'un litige.
        carry: u16,
        /// Qui occupe les sieges, et qui est connecte.
        seats: Vec<SeatInfo>,
        /// Renseigne quand le match est fini.
        winner: Option<u8>,
        /// Les sieges ayant demande la suite, entre deux donnes.
        ready: Vec<Seat>,
        /// Vrai si la table attend l'accord des joueurs pour continuer.
        awaiting_continue: bool,
        /// Vrai tant que la partie n'a pas commence : salon d'attente.
        in_lobby: bool,
        /// Vrai si ce joueur peut lancer la partie (il a cree la table).
        can_start: bool,
        /// Le code a partager.
        join_code: String,
    },
    /// Ce qui vient de se passer, deja projete pour ce destinataire.
    Event { seq: u32, event: PublicEvent },
    /// Un joueur arrive ou part.
    Seats { seats: Vec<SeatInfo> },
    /// Action refusee. N'est envoye qu'a son auteur.
    Error { message: String },
    Pong,
}

/// Statistiques d'un joueur, deduites du journal.
#[derive(Debug, Clone, Copy, PartialEq, Eq, Structural)]
pub struct Stats {
    /// Parties menees a leur terme, victoire ou defaite.
    pub games_finished: i64,
    pub games_won: i64,
    /// Donnes jouees, toutes parties confondues.
    pub deals_played: i64,
    /// Donnes ou ce joueur a pris.
    pub deals_taken: i64,
    /// Parmi celles-la, contrats reussis.
    pub deals_taken_made: i64,
    /// Meilleur score de son camp sur une seule donne.
    pub best_deal: i64,
    /// Belotes annoncees par ce joueur.
    pub belotes: i64,
    /// Capots realises par son camp.
    pub capots: i64,
}

/// Un ticket d'ouverture de WebSocket et sa duree de validite en secondes.
#[derive(Debug)]
pub struct TicketResponse {
    pub ticket: String,
    pub expires_in: u64,
}

/// Parametres d'ouverture du WebSocket.
#[derive(Debug)]
pub struct WsParams {
    pub ticket: String,
    pub code: String,
}

} // verus!
