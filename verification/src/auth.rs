//! Authentification : mots de passe et jetons de rafraichissement.
//!
//! - Mot de passe : Argon2id, sel aleatoire par utilisateur.
//! - Rafraichissement : jeton opaque aleatoire, stocke *hache* en base, avec
//!   rotation a chaque usage.

use argon2::password_hash::{
    rand_core::OsRng, PasswordHash, PasswordHasher, PasswordVerifier, SaltString,
};
use argon2::Argon2;
use base64::engine::general_purpose::URL_SAFE_NO_PAD;
use base64::Engine;
use rand::RngCore;
use sha2::{Digest, Sha256};
use vstd::prelude::*;
use vstd::string::{StrSliceExecFns, StringExecFns, StringSliceAdditionalSpecFns};
use vstd::utf8::encode_utf8;

verus! {

/// Duree de vie du jeton d'acces, en secondes.
pub const ACCESS_TTL_SECONDS: i64 = 900;

/// Duree de vie du jeton de rafraichissement, en jours.
pub const REFRESH_TTL_DAYS: i64 = 30;

/// Vrai quand la chaine PHC `hash` se lit et que le mot de passe `password`
/// (ses octets) la verifie avec Argon2.
pub uninterp spec fn argon2_accepts(password: Seq<u8>, hash: Seq<char>) -> bool;

/// L'empreinte SHA-256 d'une suite d'octets.
pub uninterp spec fn sha256(data: Seq<u8>) -> Seq<u8>;

/// L'alphabet base64 « URL » (RFC 4648, section 5).
pub open spec fn base64_url_alphabet() -> Seq<char> {
    "ABCDEFGHIJKLMNOPQRSTUVWXYZabcdefghijklmnopqrstuvwxyz0123456789-_"@
}

/// Le caractere qui code la valeur de six bits `v`.
pub open spec fn b64_char(v: int) -> char {
    base64_url_alphabet()[v]
}

/// L'encodage base64 « URL » sans bourrage d'une suite d'octets : chaque
/// groupe de trois octets donne quatre caracteres ; un reste d'un octet en
/// donne deux, un reste de deux octets en donne trois, les bits de
/// complement etant nuls.
pub open spec fn base64_url_nopad(data: Seq<u8>) -> Seq<char>
    decreases data.len(),
{
    if data.len() == 0 {
        Seq::empty()
    } else if data.len() == 1 {
        seq![b64_char(data[0] as int / 4), b64_char((data[0] % 4) * 16)]
    } else if data.len() == 2 {
        seq![
            b64_char(data[0] as int / 4),
            b64_char((data[0] % 4) * 16 + data[1] / 16),
            b64_char((data[1] % 16) * 4),
        ]
    } else {
        seq![
            b64_char(data[0] as int / 4),
            b64_char((data[0] % 4) * 16 + data[1] / 16),
            b64_char((data[1] % 16) * 4 + data[2] / 64),
            b64_char(data[2] as int % 64),
        ] + base64_url_nopad(data.subrange(3, data.len() as int))
    }
}

/// L'encodage de `n` octets fait `4n/3` caracteres, arrondi au-dessus.
pub proof fn lemma_base64_url_len(data: Seq<u8>)
    ensures
        base64_url_nopad(data).len() == (4 * data.len() + 2) / 3,
    decreases data.len(),
{
    if data.len() >= 3 {
        lemma_base64_url_len(data.subrange(3, data.len() as int));
    }
}

/// `SaltString::generate` sur `OsRng`, puis `Argon2::hash_password` avec les
/// parametres par defaut, rendu en chaine PHC. Le sel est aleatoire : deux
/// appels donnent deux chaines differentes, mais chacune se verifie avec le
/// mot de passe qui l'a produite (c'est ce que garantit la crate). Avec les
/// parametres par defaut et un sel de 16 octets, la seule entree refusee est
/// un mot de passe de plus de `MAX_PWD_LEN` (0xFFFF_FFFF) octets
/// (`Argon2::verify_inputs`). En cas d'echec, le texte de l'erreur de la
/// crate, dont rien n'est dit.
#[verifier::external_body]
fn argon2_hash(password: &[u8]) -> (r: Result<String, String>)
    ensures
        r is Ok <==> password@.len() <= 0xFFFF_FFFF,
        r matches Ok(h) ==> argon2_accepts(password@, h@),
{
    let salt = SaltString::generate(&mut OsRng);
    Argon2::default().hash_password(password, &salt).map(|h| h.to_string()).map_err(
        |e| e.to_string(),
    )
}

/// `PasswordHash::new` puis `Argon2::verify_password` : la chaine PHC se lit
/// et le mot de passe la verifie.
#[verifier::external_body]
fn argon2_verify(password: &[u8], hash: &str) -> (ok: bool)
    ensures
        ok == argon2_accepts(password@, hash@),
{
    match PasswordHash::new(hash) {
        Ok(parsed) => Argon2::default().verify_password(password, &parsed).is_ok(),
        Err(_) => false,
    }
}

/// `OsRng::fill_bytes` : 32 octets tires par le systeme.
#[verifier::external_body]
pub(crate) fn random_bytes() -> (b: [u8; 32]) {
    let mut bytes = [0u8; 32];
    rand::rngs::OsRng.fill_bytes(&mut bytes);
    bytes
}

/// `URL_SAFE_NO_PAD.encode` de base64.
#[verifier::external_body]
pub(crate) fn encode_base64_url(data: &[u8]) -> (s: String)
    ensures
        s@ == base64_url_nopad(data@),
{
    URL_SAFE_NO_PAD.encode(data)
}

/// `Sha256::digest` : une empreinte de 32 octets.
#[verifier::external_body]
fn sha256_digest(data: &[u8]) -> (d: Vec<u8>)
    ensures
        d@ == sha256(data@),
        d@.len() == 32,
{
    Sha256::digest(data).to_vec()
}

/// Hache un mot de passe pour le stockage. Reussit pour tout mot de passe
/// d'au plus 0xFFFF_FFFF octets, et le mot de passe verifie alors
/// l'empreinte obtenue ; sinon, un message qui commence par
/// `hachage du mot de passe: `.
pub fn hash_password(password: &str) -> (r: Result<String, String>)
    ensures
        r is Ok <==> encode_utf8(password@).len() <= 0xFFFF_FFFF,
        r matches Ok(h) ==> argon2_accepts(encode_utf8(password@), h@),
        r matches Err(m) ==> "hachage du mot de passe: "@.is_prefix_of(m@),
{
    assert(password.spec_bytes() == encode_utf8(password@));
    match argon2_hash(password.as_bytes()) {
        Ok(h) => Ok(h),
        Err(e) => {
            let mut msg = String::from_str("hachage du mot de passe: ");
            let ghost prefix = msg@;
            msg.append(e.as_str());
            assert(msg@.subrange(0, prefix.len() as int) =~= prefix);
            Err(msg)
        },
    }
}

/// Le mot de passe correspond-il a l'empreinte stockee ? Une empreinte
/// illisible ne valide jamais rien.
pub fn verify_password(password: &str, hash: &str) -> (ok: bool)
    ensures
        ok == argon2_accepts(encode_utf8(password@), hash@),
{
    assert(password.spec_bytes() == encode_utf8(password@));
    argon2_verify(password.as_bytes(), hash)
}

/// SHA-256 suffit ici : le jeton est deja aleatoire sur 256 bits, il n'y a
/// rien a deviner par force brute (contrairement a un mot de passe).
pub fn hash_refresh_token(token: &str) -> (d: Vec<u8>)
    ensures
        d@ == sha256(encode_utf8(token@)),
        d@.len() == 32,
{
    assert(token.spec_bytes() == encode_utf8(token@));
    sha256_digest(token.as_bytes())
}

/// Un jeton aleatoire de 32 octets, sous forme lisible (pour le cookie), et
/// son empreinte (seule chose stockee en base).
pub fn generate_refresh_token() -> (r: (String, Vec<u8>))
    ensures
        exists|bytes: Seq<u8>| bytes.len() == 32 && r.0@ == #[trigger] base64_url_nopad(bytes),
        r.0@.len() == 43,
        r.1@ == sha256(encode_utf8(r.0@)),
{
    let bytes = random_bytes();
    let token = encode_base64_url(&bytes);
    let text = token.as_str();
    assert(text.spec_bytes() == encode_utf8(token@));
    let hash = hash_refresh_token(text);
    assert(bytes@.len() == 32);
    proof {
        lemma_base64_url_len(bytes@);
    }
    (token, hash)
}

/// Le jeton porte par un en-tete `Authorization: Bearer <jeton>`.
pub fn bearer_token(header: &str) -> (token: Option<&str>)
    ensures
        match token {
            Some(t) => header@.len() >= 7 && header@.subrange(0, 7) == "Bearer "@ && t@
                == header@.subrange(7, header@.len() as int),
            None => !(header@.len() >= 7 && header@.subrange(0, 7) == "Bearer "@),
        },
{
    let prefix = "Bearer ";
    proof {
        reveal_strlit("Bearer ");
    }
    let n = header.unicode_len();
    if n < 7 {
        return None;
    }
    let mut i: usize = 0;
    while i < 7
        invariant
            n == header@.len(),
            n >= 7,
            prefix@ == "Bearer "@,
            prefix@.len() == 7,
            i <= 7,
            forall|k: int| 0 <= k < i ==> header@[k] == prefix@[k],
        decreases 7 - i,
    {
        if header.get_char(i) != prefix.get_char(i) {
            assert(header@.subrange(0, 7)[i as int] != prefix@[i as int]);
            return None;
        }
        i += 1;
    }
    assert(header@.subrange(0, 7) =~= prefix@);
    Some(header.substring_char(7, n))
}

} // verus!
