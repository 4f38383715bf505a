//! Comptes : les formulaires d'inscription et de connexion, et leur
//! validation.

use vstd::prelude::*;
use vstd::string::{StrSliceExecFns, StringExecFns, StringSliceAdditionalSpecFns};
use vstd::utf8::encode_utf8;

use crate::error::ApiError;

verus! {

pub struct RegisterBody {
    pub email: String,
    pub password: String,
    pub display_name: String,
}

pub struct LoginBody {
    pub email: String,
    pub password: String,
}

/// Le texte prive de ses blancs (au sens d'Unicode) de tete et de queue, tel
/// que le rend `str::trim`.
pub uninterp spec fn trimmed(s: Seq<char>) -> Seq<char>;

/// Le texte en minuscules, tel que le rend `str::to_lowercase`.
pub uninterp spec fn lowercased(s: Seq<char>) -> Seq<char>;

/// `str::trim` : le texte sans ses blancs de tete et de queue.
#[verifier::external_body]
fn trim_text(s: &str) -> (r: &str)
    ensures
        r@ == trimmed(s@),
{
    s.trim()
}

/// `str::to_lowercase` : le texte en minuscules.
#[verifier::external_body]
fn lowercase_text(s: &str) -> (r: String)
    ensures
        r@ == lowercased(s@),
{
    s.to_lowercase()
}

/// Le texte contient-il ce caractere ?
fn contains_char(s: &str, c: char) -> (b: bool)
    ensures
        b == s@.contains(c),
{
    let n = s.unicode_len();
    let mut i: usize = 0;
    while i < n
        invariant
            n == s@.len(),
            i <= n,
            forall|k: int| 0 <= k < i ==> s@[k] != c,
        decreases n - i,
    {
        if s.get_char(i) == c {
            return true;
        }
        i += 1;
    }
    false
}

/// L'adresse normalisee : sans blancs autour, en minuscules.
pub open spec fn normalized_email(raw: Seq<char>) -> Seq<char> {
    lowercased(trimmed(raw))
}

/// Une adresse normalisee est acceptable : de 3 a 254 octets, avec un `@`.
pub open spec fn email_acceptable(email: Seq<char>) -> bool {
    3 <= encode_utf8(email).len() <= 254 && email.contains('@')
}

/// Verifie qu'une adresse deja normalisee est plausible, et la rend telle
/// quelle.
pub fn check_email(email: String) -> (r: Result<String, ApiError>)
    ensures
        match r {
            Ok(e) => email_acceptable(email@) && e@ == email@,
            Err(e) => !email_acceptable(email@) && (e matches ApiError::BadRequest(m) && m@
                == "adresse email invalide"@),
        },
{
    let text = email.as_str();
    let n = text.as_bytes().len();
    assert(text.spec_bytes() == encode_utf8(email@));
    if n < 3 || n > 254 || !contains_char(email.as_str(), '@') {
        return Err(ApiError::BadRequest(String::from_str("adresse email invalide")));
    }
    Ok(email)
}

/// Normalise une adresse email et verifie qu'elle est plausible.
pub fn normalize_email(raw: &str) -> (r: Result<String, ApiError>)
    ensures
        match r {
            Ok(email) => email_acceptable(normalized_email(raw@)) && email@ == normalized_email(
                raw@,
            ),
            Err(e) => !email_acceptable(normalized_email(raw@)) && (e matches ApiError::BadRequest(m)
                && m@ == "adresse email invalide"@),
        },
{
    check_email(lowercase_text(trim_text(raw)))
}

/// Pourquoi un mot de passe est refuse, le cas echeant.
pub open spec fn password_problem(password: Seq<char>) -> Option<Seq<char>> {
    if password.len() < 8 {
        Some("le mot de passe doit faire au moins 8 caracteres"@)
    } else if encode_utf8(password).len() > 512 {
        Some("mot de passe trop long"@)
    } else {
        None
    }
}

/// Un mot de passe fait au moins 8 caracteres et au plus 512 octets.
pub fn validate_password(password: &str) -> (r: Result<(), ApiError>)
    ensures
        match password_problem(password@) {
            None => r is Ok,
            Some(m) => r matches Err(ApiError::BadRequest(t)) && t@ == m,
        },
{
    if password.unicode_len() < 8 {
        return Err(
            ApiError::BadRequest(
                String::from_str("le mot de passe doit faire au moins 8 caracteres"),
            ),
        );
    }
    assert(password.spec_bytes() == encode_utf8(password@));
    if password.as_bytes().len() > 512 {
        return Err(ApiError::BadRequest(String::from_str("mot de passe trop long")));
    }
    Ok(())
}

/// Un pseudo, une fois les blancs retires, fait de 1 a 32 caracteres.
pub fn validate_display_name(raw: &str) -> (r: Result<String, ApiError>)
    ensures
        match r {
            Ok(name) => name@ == trimmed(raw@) && 1 <= trimmed(raw@).len() <= 32,
            Err(e) => !(1 <= trimmed(raw@).len() <= 32) && (e matches ApiError::BadRequest(m)
                && m@ == "le pseudo doit faire entre 1 et 32 caracteres"@),
        },
{
    check_display_name(trim_text(raw))
}

/// Verifie qu'un pseudo deja prive de ses blancs fait de 1 a 32 caracteres,
/// et le rend tel quel.
pub fn check_display_name(name: &str) -> (r: Result<String, ApiError>)
    ensures
        match r {
            Ok(n) => n@ == name@ && 1 <= name@.len() <= 32,
            Err(e) => !(1 <= name@.len() <= 32) && (e matches ApiError::BadRequest(m) && m@
                == "le pseudo doit faire entre 1 et 32 caracteres"@),
        },
{
    let count = name.unicode_len();
    if count == 0 || count > 32 {
        return Err(
            ApiError::BadRequest(
                String::from_str("le pseudo doit faire entre 1 et 32 caracteres"),
            ),
        );
    }
    Ok(String::from_str(name))
}

} // verus!
