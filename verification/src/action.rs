//! Ce qu'un joueur peut demander, et les raisons d'un refus.

use vstd::prelude::*;

use crate::card::{Card, Suit};
use crate::state::{Phase, Seat};
use crate::text::{decimal, push_decimal};
use vstd::string::StringExecFns;

verus! {

#[derive(Debug, Clone, Copy, PartialEq, Eq, Structural)]
pub enum Action {
    /// Premier tour : prendre la couleur de la carte retournee.
    Take,
    /// Second tour : nommer une autre couleur comme atout.
    ChooseTrump { suit: Suit },
    Pass,
    Play { card: Card },
}

#[derive(Debug, Clone, Copy, PartialEq, Eq, Structural)]
pub enum RuleError {
    /// Ce n'est pas a ce joueur d'agir.
    NotYourTurn,
    /// Action impossible dans cette phase.
    WrongPhase { phase: Phase },
    /// Carte absente de la main du joueur.
    CardNotInHand,
    /// Coup interdit par les regles de la belote.
    IllegalCard,
    /// Au second tour, l'atout ne peut pas etre la couleur retournee.
    TrumpMustDiffer,
    /// La donne est terminee.
    DealOver,
    /// Siege inconnu.
    UnknownSeat { seat: Seat },
}

/// Nom d'une phase, tel que l'affiche un message d'erreur.
pub open spec fn phase_name(p: Phase) -> Seq<char> {
    match p {
        Phase::Dealing => "Dealing"@,
        Phase::Bidding1 => "Bidding1"@,
        Phase::Bidding2 => "Bidding2"@,
        Phase::Playing => "Playing"@,
        Phase::Finished => "Finished"@,
        Phase::Redeal => "Redeal"@,
    }
}

/// Texte d'un refus, montre au joueur fautif.
pub open spec fn rule_error_message(e: RuleError) -> Seq<char> {
    match e {
        RuleError::NotYourTurn => "ce n'est pas a ce joueur d'agir"@,
        RuleError::WrongPhase { phase } => "action impossible dans la phase "@ + phase_name(
            phase,
        ),
        RuleError::CardNotInHand => "carte absente de la main du joueur"@,
        RuleError::IllegalCard => "coup interdit par les regles de la belote"@,
        RuleError::TrumpMustDiffer => "au second tour, l'atout ne peut pas etre la couleur retournee"@,
        RuleError::DealOver => "la donne est terminee"@,
        RuleError::UnknownSeat { seat } => "siege inconnu: Seat("@ + decimal(seat.0 as nat) + ")"@,
    }
}

/// Nom d'une phase, tel que l'affiche un message d'erreur.
pub fn phase_label(p: Phase) -> (s: &'static str)
    ensures
        s@ == phase_name(p),
{
    match p {
        Phase::Dealing => "Dealing",
        Phase::Bidding1 => "Bidding1",
        Phase::Bidding2 => "Bidding2",
        Phase::Playing => "Playing",
        Phase::Finished => "Finished",
        Phase::Redeal => "Redeal",
    }
}

impl RuleError {
    /// Texte du refus, montre au joueur fautif.
    pub fn message(&self) -> (s: String)
        ensures
            s@ == rule_error_message(*self),
    {
        match self {
            RuleError::NotYourTurn => String::from_str("ce n'est pas a ce joueur d'agir"),
            RuleError::WrongPhase { phase } => {
                let mut s = String::from_str("action impossible dans la phase ");
                s.append(phase_label(*phase));
                s
            },
            RuleError::CardNotInHand => String::from_str("carte absente de la main du joueur"),
            RuleError::IllegalCard => String::from_str("coup interdit par les regles de la belote"),
            RuleError::TrumpMustDiffer => String::from_str(
                "au second tour, l'atout ne peut pas etre la couleur retournee",
            ),
            RuleError::DealOver => String::from_str("la donne est terminee"),
            RuleError::UnknownSeat { seat } => {
                let mut s = String::from_str("siege inconnu: Seat(");
                push_decimal(&mut s, seat.0 as u64);
                s.append(")");
                s
            },
        }
    }
}

} // verus!
