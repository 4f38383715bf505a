//! Salons : codes d'invitation, et les parametres des requetes sur les
//! parties.

use rand::Rng;
use vstd::prelude::*;
use vstd::string::{StrSliceExecFns, StringExecFns};

verus! {

/// Longueur d'un code de salon.
pub const CODE_LENGTH: usize = 6;

/// Alphabet des codes, sans caracteres ambigus (ni 0/O, ni 1/I/L) : le code
/// se dicte au telephone sans se tromper.
pub open spec fn code_alphabet() -> Seq<char> {
    "ABCDEFGHJKMNPQRSTUVWXYZ23456789"@
}

/// Les caracteres qu'on confond a l'oral ou a la lecture.
pub open spec fn ambiguous_chars() -> Seq<char> {
    "O0I1L"@
}

/// `rand::thread_rng().gen_range(0..n)` : un indice tire au hasard.
#[verifier::external_body]
fn random_index(n: usize) -> (i: usize)
    requires
        n > 0,
    ensures
        i < n,
{
    rand::thread_rng().gen_range(0..n)
}

/// Le code dont le caractere `k` est celui de rang `indices[k]` dans
/// l'alphabet des codes.
pub fn code_from_indices(indices: &[usize]) -> (code: String)
    requires
        forall|k: int| 0 <= k < indices@.len() ==> #[trigger] indices@[k] < code_alphabet().len(),
    ensures
        code@.len() == indices@.len(),
        forall|k: int|
            0 <= k < indices@.len() ==> #[trigger] code@[k] == code_alphabet()[indices@[k] as int],
{
    let alphabet = "ABCDEFGHJKMNPQRSTUVWXYZ23456789";
    proof {
        reveal_strlit("ABCDEFGHJKMNPQRSTUVWXYZ23456789");
    }
    let n = alphabet.unicode_len();
    let mut code = String::new();
    let mut k: usize = 0;
    while k < indices.len()
        invariant
            alphabet@ == code_alphabet(),
            n == code_alphabet().len(),
            k <= indices@.len(),
            code@.len() == k,
            forall|k: int| 0 <= k < indices@.len() ==> #[trigger] indices@[k] < code_alphabet().len(),
            forall|i: int| 0 <= i < k ==> #[trigger] code@[i] == code_alphabet()[indices@[i] as int],
        decreases indices@.len() - k,
    {
        let j = indices[k];
        let piece = alphabet.substring_char(j, j + 1);
        let ghost before = code@;
        code.append(piece);
        assert forall|i: int| 0 <= i < k + 1 implies #[trigger] code@[i] == code_alphabet()[indices@[i] as int] by {
            if i < k {
                assert(code@[i] == before[i]);
            }
        }
        k += 1;
    }
    code
}

/// Un code de salon : six caracteres tires au hasard dans l'alphabet sans
/// ambiguite.
pub fn generate_join_code() -> (code: String)
    ensures
        code@.len() == CODE_LENGTH,
        forall|i: int| 0 <= i < code@.len() ==> code_alphabet().contains(#[trigger] code@[i]),
{
    proof {
        reveal_strlit("ABCDEFGHJKMNPQRSTUVWXYZ23456789");
    }
    let mut indices: Vec<usize> = Vec::new();
    let mut k: usize = 0;
    while k < CODE_LENGTH
        invariant
            k <= CODE_LENGTH,
            indices@.len() == k,
            code_alphabet().len() == 31,
            forall|i: int| 0 <= i < k ==> #[trigger] indices@[i] < code_alphabet().len(),
        decreases CODE_LENGTH - k,
    {
        indices.push(random_index(31));
        k += 1;
    }
    let code = code_from_indices(indices.as_slice());
    assert forall|i: int| 0 <= i < code@.len() implies code_alphabet().contains(#[trigger] code@[i]) by {
        assert(code@[i] == code_alphabet()[indices@[i] as int]);
    }
    code
}

/// Nombre d'essais pour trouver un code de salon libre : un code court peut
/// deja etre pris.
pub const CODE_ATTEMPTS: u32 = 8;

/// Ce qui suit un essai d'enregistrement d'un code de salon.
#[derive(Debug, Clone, Copy, PartialEq, Eq, Structural)]
pub enum CodeAttempt {
    /// Le code etait libre : il est a la table.
    Taken,
    /// Le code etait pris : on en tire un autre.
    Retry,
    /// Tous les essais ont echoue : on abandonne.
    GiveUp,
}

/// Apres l'essai `attempt` (compte a partir de 0), selon que le code a pu
/// etre enregistre.
pub fn after_code_attempt(attempt: u32, inserted: bool) -> (r: CodeAttempt)
    ensures
        r == if inserted {
            CodeAttempt::Taken
        } else if attempt + 1 >= CODE_ATTEMPTS {
            CodeAttempt::GiveUp
        } else {
            CodeAttempt::Retry
        },
{
    if inserted {
        CodeAttempt::Taken
    } else if attempt >= CODE_ATTEMPTS - 1 {
        CodeAttempt::GiveUp
    } else {
        CodeAttempt::Retry
    }
}

/// Aucun caractere de l'alphabet des codes ne se confond avec un autre.
pub proof fn lemma_code_alphabet_unambiguous()
    ensures
        forall|c: char| code_alphabet().contains(c) ==> !ambiguous_chars().contains(c),
{
    reveal_strlit("ABCDEFGHJKMNPQRSTUVWXYZ23456789");
    reveal_strlit("O0I1L");
    assert forall|c: char| code_alphabet().contains(c) implies !ambiguous_chars().contains(c) by {
        let i = choose|i: int| 0 <= i < code_alphabet().len() && code_alphabet()[i] == c;
        assert(0 <= i < 31);
        if ambiguous_chars().contains(c) {
            let j = choose|j: int| 0 <= j < ambiguous_chars().len() && ambiguous_chars()[j] == c;
            assert(0 <= j < 5);
        }
    }
}

/// Nombre de parties listees si l'appelant ne dit rien.
pub const DEFAULT_LIMIT: i64 = 20;

/// Nombre maximal de parties listees.
pub const MAX_LIMIT: i64 = 100;

pub struct ListParams {
    pub limit: Option<i64>,
}

impl ListParams {
    /// Le nombre de parties a lister : celui demande, ramene entre 1 et 100,
    /// 20 par defaut.
    pub fn effective_limit(&self) -> (n: i64)
        ensures
            n == match self.limit {
                Some(l) => if l < 1 {
                    1
                } else if l > MAX_LIMIT {
                    MAX_LIMIT
                } else {
                    l
                },
                None => DEFAULT_LIMIT,
            },
    {
        let l = match self.limit {
            Some(l) => l,
            None => DEFAULT_LIMIT,
        };
        if l < 1 {
            1
        } else if l > MAX_LIMIT {
            MAX_LIMIT
        } else {
            l
        }
    }
}

} // verus!
