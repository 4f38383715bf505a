//! Configuration du serveur, a partir des variables d'environnement.

use vstd::prelude::*;
use vstd::string::{StrSliceExecFns, StringExecFns, StringSliceAdditionalSpecFns};
use vstd::utf8::encode_utf8;

verus! {

#[derive(Debug, Clone)]
pub struct Config {
    pub database_url: String,
    pub jwt_secret: String,
    /// Origine autorisee pour CORS. Jamais `*` : on envoie des cookies.
    pub allowed_origin: String,
    pub port: u16,
    /// Domaine pose sur le cookie de refresh. Vide = cookie propre a l'hote.
    pub cookie_domain: Option<String>,
    /// En local (http) le cookie ne peut pas etre `Secure`.
    pub secure_cookies: bool,
}

#[derive(Debug, Clone, Copy, PartialEq, Eq, Structural)]
pub enum ConfigError {
    MissingDatabaseUrl,
    MissingJwtSecret,
    ShortJwtSecret,
}

/// Texte d'une erreur de configuration.
pub open spec fn config_error_message(e: ConfigError) -> Seq<char> {
    match e {
        ConfigError::MissingDatabaseUrl => "DATABASE_URL manquante (voir .env.example)"@,
        ConfigError::MissingJwtSecret => "JWT_SECRET manquante (voir .env.example)"@,
        ConfigError::ShortJwtSecret => "JWT_SECRET doit faire au moins 32 caracteres"@,
    }
}

impl ConfigError {
    pub fn message(&self) -> (s: String)
        ensures
            s@ == config_error_message(*self),
    {
        match self {
            ConfigError::MissingDatabaseUrl => String::from_str(
                "DATABASE_URL manquante (voir .env.example)",
            ),
            ConfigError::MissingJwtSecret => String::from_str(
                "JWT_SECRET manquante (voir .env.example)",
            ),
            ConfigError::ShortJwtSecret => String::from_str(
                "JWT_SECRET doit faire au moins 32 caracteres",
            ),
        }
    }
}

/// Un chiffre decimal ASCII.
pub open spec fn is_digit(c: char) -> bool {
    '0' <= c <= '9'
}

/// La valeur d'une suite de chiffres decimaux.
pub open spec fn digits_value(d: Seq<char>) -> int
    decreases d.len(),
{
    if d.len() == 0 {
        0
    } else {
        digits_value(d.drop_last()) * 10 + (d.last() as int - '0' as int)
    }
}

/// Les chiffres d'un entier non signe, apres un eventuel `+`.
pub open spec fn unsigned_digits(s: Seq<char>) -> Seq<char> {
    if s.len() > 0 && s[0] == '+' {
        s.subrange(1, s.len() as int)
    } else {
        s
    }
}

/// Lecture d'un `u16` comme `str::parse::<u16>` : un `+` facultatif, au
/// moins un chiffre, que des chiffres, et une valeur qui tient sur 16 bits.
pub open spec fn spec_parse_u16(s: Seq<char>) -> Option<u16> {
    let d = unsigned_digits(s);
    if d.len() > 0 && (forall|i: int| 0 <= i < d.len() ==> is_digit(#[trigger] d[i]))
        && digits_value(d) <= 65535 {
        Some(digits_value(d) as u16)
    } else {
        None
    }
}

/// Une suite de chiffres vaut au moins autant que chacun de ses prefixes.
proof fn lemma_digits_value_prefix(d: Seq<char>, k: int)
    requires
        0 <= k <= d.len(),
        forall|i: int| 0 <= i < d.len() ==> is_digit(#[trigger] d[i]),
    ensures
        0 <= digits_value(d.subrange(0, k)) <= digits_value(d),
    decreases d.len(),
{
    if k < d.len() {
        lemma_digits_value_prefix(d.drop_last(), k);
        assert(d.drop_last().subrange(0, k) =~= d.subrange(0, k));
    } else {
        assert(d.subrange(0, k) =~= d);
        if d.len() > 0 {
            lemma_digits_value_prefix(d.drop_last(), d.len() - 1);
            assert(d.drop_last().subrange(0, d.len() - 1) =~= d.drop_last());
        }
    }
}

/// Lit un `u16` ecrit en decimal.
pub fn parse_u16(s: &str) -> (r: Option<u16>)
    ensures
        r == spec_parse_u16(s@),
{
    let n = s.unicode_len();
    let mut start: usize = 0;
    if n > 0 && s.get_char(0) == '+' {
        start = 1;
    }
    let ghost d = unsigned_digits(s@);
    assert(d =~= s@.subrange(start as int, n as int));
    if start == n {
        return None;
    }
    let mut value: u32 = 0;
    let mut i: usize = start;
    while i < n
        invariant
            n == s@.len(),
            d == unsigned_digits(s@),
            d == s@.subrange(start as int, n as int),
            start <= i <= n,
            value == digits_value(d.subrange(0, i - start)),
            value <= 65535,
            forall|k: int| 0 <= k < i - start ==> is_digit(#[trigger] d[k]),
        decreases n - i,
    {
        let c = s.get_char(i);
        if !('0' <= c && c <= '9') {
            assert(!is_digit(d[i - start]));
            return None;
        }
        let ghost pre = d.subrange(0, i - start);
        assert(d.subrange(0, i - start + 1).drop_last() =~= pre);
        value = value * 10 + (c as u32 - '0' as u32);
        assert(value == digits_value(d.subrange(0, i - start + 1)));
        if value > 65535 {
            proof {
                if forall|k: int| 0 <= k < d.len() ==> is_digit(#[trigger] d[k]) {
                    lemma_digits_value_prefix(d, i - start + 1);
                }
            }
            return None;
        }
        i += 1;
    }
    assert(d.subrange(0, n - start) =~= d);
    Some(value as u16)
}

/// Le texte commence-t-il par ce prefixe ?
fn starts_with(s: &str, prefix: &str) -> (b: bool)
    ensures
        b == (prefix@.len() <= s@.len() && s@.subrange(0, prefix@.len() as int) == prefix@),
{
    let n = s.unicode_len();
    let p = prefix.unicode_len();
    if p > n {
        return false;
    }
    let mut i: usize = 0;
    while i < p
        invariant
            n == s@.len(),
            p == prefix@.len(),
            p <= n,
            i <= p,
            forall|k: int| 0 <= k < i ==> s@[k] == prefix@[k],
        decreases p - i,
    {
        if s.get_char(i) != prefix.get_char(i) {
            assert(s@.subrange(0, p as int)[i as int] != prefix@[i as int]);
            return false;
        }
        i += 1;
    }
    assert(s@.subrange(0, p as int) =~= prefix@);
    true
}

/// Le texte vaut-il exactement cette chaine ?
fn same_text(s: &String, t: &str) -> (b: bool)
    ensures
        b == (s@ == t@),
{
    *s == String::from_str(t)
}

/// L'origine autorisee par defaut, en developpement local.
pub open spec fn default_origin() -> Seq<char> {
    "http://localhost:3000"@
}

/// Cookies `Secure` : explicitement sauf "false" ou "0", sinon des que
/// l'origine est en https.
pub open spec fn spec_secure_cookies(secure: Option<Seq<char>>, origin: Seq<char>) -> bool {
    match secure {
        Some(v) => v != "false"@ && v != "0"@,
        None => 8 <= origin.len() && origin.subrange(0, 8) == "https://"@,
    }
}

/// La configuration lue dans ces variables, ou ce qui manque.
pub open spec fn config_outcome(
    database_url: Option<String>,
    jwt_secret: Option<String>,
) -> Option<ConfigError> {
    match database_url {
        None => Some(ConfigError::MissingDatabaseUrl),
        Some(_) => match jwt_secret {
            None => Some(ConfigError::MissingJwtSecret),
            Some(j) => if encode_utf8(j@).len() < 32 {
                Some(ConfigError::ShortJwtSecret)
            } else {
                None
            },
        },
    }
}

impl Config {
    /// Construit la configuration a partir des variables lues (absentes :
    /// `None`). Le secret des jetons doit faire au moins 32 octets ; le port
    /// vaut 8080 s'il manque ou ne se lit pas.
    pub fn from_vars(
        database_url: Option<String>,
        jwt_secret: Option<String>,
        allowed_origin: Option<String>,
        port: Option<String>,
        cookie_domain: Option<String>,
        secure_cookies: Option<String>,
    ) -> (r: Result<Config, ConfigError>)
        ensures
            match config_outcome(database_url, jwt_secret) {
                Some(e) => r == Err::<Config, ConfigError>(e),
                None => r matches Ok(c) && {
                    let origin = match allowed_origin {
                        Some(o) => o@,
                        None => default_origin(),
                    };
                    &&& c.database_url@ == database_url->0@
                    &&& c.jwt_secret@ == jwt_secret->0@
                    &&& c.allowed_origin@ == origin
                    &&& c.port == match port {
                        Some(p) => match spec_parse_u16(p@) {
                            Some(v) => v,
                            None => 8080u16,
                        },
                        None => 8080u16,
                    }
                    &&& match cookie_domain {
                        Some(d) => if d@.len() == 0 {
                            c.cookie_domain is None
                        } else {
                            c.cookie_domain matches Some(x) && x@ == d@
                        },
                        None => c.cookie_domain is None,
                    }
                    &&& c.secure_cookies == spec_secure_cookies(
                        match secure_cookies {
                            Some(v) => Some(v@),
                            None => None,
                        },
                        origin,
                    )
                },
            },
    {
        let database_url = match database_url {
            Some(d) => d,
            None => {
                return Err(ConfigError::MissingDatabaseUrl);
            },
        };
        let jwt_secret = match jwt_secret {
            Some(j) => j,
            None => {
                return Err(ConfigError::MissingJwtSecret);
            },
        };
        let secret_text = jwt_secret.as_str();
        assert(secret_text.spec_bytes() == encode_utf8(jwt_secret@));
        if secret_text.as_bytes().len() < 32 {
            return Err(ConfigError::ShortJwtSecret);
        }
        let allowed_origin = match allowed_origin {
            Some(o) => o,
            None => String::from_str("http://localhost:3000"),
        };
        let port = match port {
            Some(p) => match parse_u16(p.as_str()) {
                Some(v) => v,
                None => 8080,
            },
            None => 8080,
        };
        let cookie_domain = match cookie_domain {
            Some(d) => if d.as_str().unicode_len() == 0 {
                None
            } else {
                Some(d)
            },
            None => None,
        };
        let secure_cookies = match secure_cookies {
            Some(v) => !same_text(&v, "false") && !same_text(&v, "0"),
            None => {
                proof {
                    reveal_strlit("https://");
                }
                starts_with(allowed_origin.as_str(), "https://")
            },
        };
        Ok(Config {
            database_url,
            jwt_secret,
            allowed_origin,
            port,
            cookie_domain,
            secure_cookies,
        })
    }
}

/// La politique `SameSite` d'un cookie.
#[derive(Debug, Clone, Copy, PartialEq, Eq, Structural)]
pub enum SameSitePolicy {
    Lax,
    NoRestriction,
}

/// Comment poser le cookie de rafraichissement : toujours `HttpOnly`, sur
/// tout le site, `Secure` selon la configuration.
#[derive(Debug, Clone)]
pub struct CookiePolicy {
    pub secure: bool,
    pub domain: Option<String>,
    pub same_site: SameSitePolicy,
}

impl Config {
    /// Avec un domaine parent commun au front et a l'API, `Lax` suffit et
    /// evite les blocages de cookies tiers. Sans domaine partage, il faut
    /// `None`, qui exige `Secure` ; en local (sans `Secure`), `Lax`.
    pub fn cookie_policy(&self) -> (p: CookiePolicy)
        ensures
            p.secure == self.secure_cookies,
            match self.cookie_domain {
                Some(d) => p.domain matches Some(x) && x@ == d@ && p.same_site
                    == SameSitePolicy::Lax,
                None => p.domain is None && p.same_site == if self.secure_cookies {
                    SameSitePolicy::NoRestriction
                } else {
                    SameSitePolicy::Lax
                },
            },
    {
        match &self.cookie_domain {
            Some(d) => CookiePolicy {
                secure: self.secure_cookies,
                domain: Some(d.clone()),
                same_site: SameSitePolicy::Lax,
            },
            None => CookiePolicy {
                secure: self.secure_cookies,
                domain: None,
                same_site: if self.secure_cookies {
                    SameSitePolicy::NoRestriction
                } else {
                    SameSitePolicy::Lax
                },
            },
        }
    }
}

} // verus!
