//! Erreurs HTTP.
//!
//! Regle : un message precis dans les journaux, un message neutre au client.
//! On ne laisse jamais fuir la structure de la base ni l'existence d'un compte.

use vstd::prelude::*;
use vstd::string::StringExecFns;

verus! {

#[derive(Debug, Clone)]
pub enum ApiError {
    NotFound,
    Unauthorized,
    Forbidden,
    BadRequest(String),
    Conflict(String),
    /// Le detail d'une panne interne, pour les journaux seulement.
    Internal(String),
}

/// Texte complet de l'erreur, tel qu'il part dans les journaux.
pub open spec fn api_error_message(e: ApiError) -> Seq<char> {
    match e {
        ApiError::NotFound => "ressource introuvable"@,
        ApiError::Unauthorized => "authentification requise"@,
        ApiError::Forbidden => "acces refuse"@,
        ApiError::BadRequest(m) => m@,
        ApiError::Conflict(m) => m@,
        ApiError::Internal(m) => m@,
    }
}

/// Code de statut HTTP de l'erreur.
pub open spec fn api_status(e: ApiError) -> u16 {
    match e {
        ApiError::NotFound => 404,
        ApiError::Unauthorized => 401,
        ApiError::Forbidden => 403,
        ApiError::BadRequest(_) => 400,
        ApiError::Conflict(_) => 409,
        ApiError::Internal(_) => 500,
    }
}

/// Ce que le client recoit : le detail d'une panne interne reste cache.
pub open spec fn api_client_message(e: ApiError) -> Seq<char> {
    match e {
        ApiError::Internal(_) => "erreur interne"@,
        _ => api_error_message(e),
    }
}

impl ApiError {
    /// Texte complet de l'erreur.
    pub fn message(&self) -> (s: String)
        ensures
            s@ == api_error_message(*self),
    {
        match self {
            ApiError::NotFound => String::from_str("ressource introuvable"),
            ApiError::Unauthorized => String::from_str("authentification requise"),
            ApiError::Forbidden => String::from_str("acces refuse"),
            ApiError::BadRequest(m) => m.clone(),
            ApiError::Conflict(m) => m.clone(),
            ApiError::Internal(m) => m.clone(),
        }
    }

    /// Code de statut HTTP.
    pub fn status(&self) -> (code: u16)
        ensures
            code == api_status(*self),
    {
        match self {
            ApiError::NotFound => 404,
            ApiError::Unauthorized => 401,
            ApiError::Forbidden => 403,
            ApiError::BadRequest(_) => 400,
            ApiError::Conflict(_) => 409,
            ApiError::Internal(_) => 500,
        }
    }

    /// Le message montre au client.
    pub fn client_message(&self) -> (s: String)
        ensures
            s@ == api_client_message(*self),
    {
        match self {
            ApiError::Internal(_) => String::from_str("erreur interne"),
            _ => self.message(),
        }
    }
}

} // verus!
