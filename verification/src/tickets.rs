//! Tickets d'ouverture de WebSocket.
//!
//! Le jeton d'acces ne doit pas transiter dans l'URL : une query string se
//! retrouve dans les journaux, dans l'en-tete Referer et dans l'historique du
//! navigateur. Le client demande donc un ticket a usage unique, valable 30
//! secondes, et c'est lui qu'il presente a la connexion.
//!
//! Les instants sont des millisecondes d'une horloge monotone, fournies par
//! l'appelant.

use vstd::prelude::*;

use crate::auth::{base64_url_nopad, encode_base64_url, random_bytes};
use vstd::string::StringExecFns;

verus! {

/// Duree de validite d'un ticket, en millisecondes.
pub const TICKET_TTL_MS: u64 = 30_000;

pub struct TicketEntry {
    pub ticket: String,
    pub user_id: u128,
    pub issued_ms: u64,
}

/// Les tickets en circulation, chacun au plus une fois.
pub struct TicketStore {
    entries: Vec<TicketEntry>,
}

/// Un ticket en circulation : son texte, son titulaire, l'instant d'emission.
pub type TicketModel = (Seq<char>, u128, u64);

pub open spec fn entry_model(e: TicketEntry) -> TicketModel {
    (e.ticket@, e.user_id, e.issued_ms)
}

/// Temps ecoule depuis `issued`, nul si l'horloge fournie est en retard.
pub open spec fn elapsed(now: u64, issued: u64) -> int {
    if now >= issued {
        now - issued
    } else {
        0
    }
}

/// Le ticket est encore valable a l'instant `now`.
pub open spec fn still_valid(e: TicketModel, now: u64) -> bool {
    elapsed(now, e.2) < TICKET_TTL_MS
}

/// Les tickets dont le texte n'est pas `t`, dans leur ordre.
pub open spec fn without(s: Seq<TicketModel>, t: Seq<char>) -> Seq<TicketModel>
    decreases s.len(),
{
    if s.len() == 0 {
        s
    } else {
        let rest = without(s.drop_last(), t);
        if s.last().0 == t {
            rest
        } else {
            rest.push(s.last())
        }
    }
}

/// Les tickets encore valables a l'instant `now`, dans leur ordre.
pub open spec fn still_valid_ones(s: Seq<TicketModel>, now: u64) -> Seq<TicketModel>
    decreases s.len(),
{
    if s.len() == 0 {
        s
    } else {
        let rest = still_valid_ones(s.drop_last(), now);
        if still_valid(s.last(), now) {
            rest.push(s.last())
        } else {
            rest
        }
    }
}

/// Le ticket de texte `t`, s'il circule (le plus recent s'il y en avait
/// plusieurs, ce que l'emission empeche).
pub open spec fn find_ticket(s: Seq<TicketModel>, t: Seq<char>) -> Option<TicketModel>
    decreases s.len(),
{
    if s.len() == 0 {
        None
    } else if s.last().0 == t {
        Some(s.last())
    } else {
        find_ticket(s.drop_last(), t)
    }
}

/// Ce que rend l'echange d'un ticket a l'instant `now`.
pub open spec fn spec_redeem(s: Seq<TicketModel>, t: Seq<char>, now: u64) -> Option<u128> {
    match find_ticket(s, t) {
        Some(e) => if still_valid(e, now) {
            Some(e.1)
        } else {
            None
        },
        None => None,
    }
}

/// Les tickets apres l'emission de `t` pour `user` a l'instant `now` : les
/// tickets perimes sont jetes au passage, un ticket de meme texte remplace.
pub open spec fn spec_issue(s: Seq<TicketModel>, t: Seq<char>, user: u128, now: u64) -> Seq<
    TicketModel,
> {
    without(still_valid_ones(s, now), t).push((t, user, now))
}

impl TicketStore {
    pub closed spec fn model(&self) -> Seq<TicketModel> {
        self.entries@.map_values(|e: TicketEntry| entry_model(e))
    }

    pub fn new() -> (s: TicketStore)
        ensures
            s.model() == Seq::<TicketModel>::empty(),
    {
        let s = TicketStore { entries: Vec::new() };
        assert(s.model() =~= Seq::<TicketModel>::empty());
        s
    }

    /// Emet un ticket aleatoire pour `user_id`.
    pub fn issue(&mut self, user_id: u128, now_ms: u64) -> (ticket: String)
        ensures
            exists|bytes: Seq<u8>| bytes.len() == 32 && ticket@ == #[trigger] base64_url_nopad(bytes),
            final(self).model() == spec_issue(old(self).model(), ticket@, user_id, now_ms),
    {
        let bytes = random_bytes();
        let ticket = encode_base64_url(&bytes);
        assert(bytes@.len() == 32);
        self.insert(ticket.clone(), user_id, now_ms);
        ticket
    }

    /// Enregistre le ticket `ticket` pour `user_id`, en jetant au passage les
    /// tickets perimes ; un ticket de meme texte est remplace.
    pub fn insert(&mut self, ticket: String, user_id: u128, now_ms: u64)
        ensures
            final(self).model() == spec_issue(old(self).model(), ticket@, user_id, now_ms),
    {
        let ghost s0 = self.model();
        let mut out: Vec<TicketEntry> = Vec::new();
        let mut i: usize = 0;
        while i < self.entries.len()
            invariant
                i <= self.entries@.len(),
                s0 == self.entries@.map_values(|e: TicketEntry| entry_model(e)),
                out@.map_values(|e: TicketEntry| entry_model(e)) == without(
                    still_valid_ones(s0.subrange(0, i as int), now_ms),
                    ticket@,
                ),
            decreases self.entries@.len() - i,
        {
            let ghost before = out@;
            let e = &self.entries[i];
            let fresh = if now_ms >= e.issued_ms {
                now_ms - e.issued_ms < TICKET_TTL_MS
            } else {
                true
            };
            let other = e.ticket != ticket;
            proof {
                let sub = s0.subrange(0, i as int);
                assert(s0.subrange(0, i as int + 1).drop_last() =~= sub);
                assert(s0.subrange(0, i as int + 1).last() == s0[i as int]);
                let v = still_valid_ones(sub, now_ms);
                if fresh {
                    assert(v.push(s0[i as int]).drop_last() =~= v);
                }
            }
            if fresh && other {
                out.push(
                    TicketEntry {
                        ticket: e.ticket.clone(),
                        user_id: e.user_id,
                        issued_ms: e.issued_ms,
                    },
                );
                assert(out@.map_values(|e: TicketEntry| entry_model(e)) =~= before.map_values(
                    |e: TicketEntry| entry_model(e),
                ).push(s0[i as int]));
            }
            i += 1;
        }
        let ghost mid = out@.map_values(|e: TicketEntry| entry_model(e));
        assert(s0.subrange(0, s0.len() as int) =~= s0);
        out.push(TicketEntry { ticket, user_id, issued_ms: now_ms });
        self.entries = out;
        assert(self.model() =~= mid.push((ticket@, user_id, now_ms)));
    }

    /// Consomme le ticket. Un meme ticket ne peut servir qu'une fois ; perime,
    /// il est jete sans rien ouvrir.
    pub fn redeem(&mut self, ticket: &str, now_ms: u64) -> (user: Option<u128>)
        ensures
            user == spec_redeem(old(self).model(), ticket@, now_ms),
            final(self).model() == without(old(self).model(), ticket@),
    {
        let ghost s0 = self.model();
        let mut found: Option<(u128, u64)> = None;
        let mut out: Vec<TicketEntry> = Vec::new();
        let mut i: usize = 0;
        while i < self.entries.len()
            invariant
                i <= self.entries@.len(),
                s0 == self.entries@.map_values(|e: TicketEntry| entry_model(e)),
                out@.map_values(|e: TicketEntry| entry_model(e)) == without(
                    s0.subrange(0, i as int),
                    ticket@,
                ),
                match found {
                    Some((u, t)) => find_ticket(s0.subrange(0, i as int), ticket@) == Some(
                        (ticket@, u, t),
                    ),
                    None => find_ticket(s0.subrange(0, i as int), ticket@) is None,
                },
            decreases self.entries@.len() - i,
        {
            let ghost before = out@;
            let e = &self.entries[i];
            let same = same_ticket(&e.ticket, ticket);
            proof {
                let sub = s0.subrange(0, i as int);
                assert(s0.subrange(0, i as int + 1).drop_last() =~= sub);
                assert(s0.subrange(0, i as int + 1).last() == s0[i as int]);
            }
            if same {
                found = Some((e.user_id, e.issued_ms));
            } else {
                out.push(
                    TicketEntry {
                        ticket: e.ticket.clone(),
                        user_id: e.user_id,
                        issued_ms: e.issued_ms,
                    },
                );
                assert(out@.map_values(|e: TicketEntry| entry_model(e)) =~= before.map_values(
                    |e: TicketEntry| entry_model(e),
                ).push(s0[i as int]));
            }
            i += 1;
        }
        assert(s0.subrange(0, s0.len() as int) =~= s0);
        self.entries = out;
        match found {
            None => None,
            Some((user_id, issued)) => {
                let valid = if now_ms >= issued {
                    now_ms - issued < TICKET_TTL_MS
                } else {
                    true
                };
                if valid {
                    Some(user_id)
                } else {
                    None
                }
            },
        }
    }
}

/// Le texte d'un ticket en circulation est-il celui presente ?
fn same_ticket(stored: &String, presented: &str) -> (b: bool)
    ensures
        b == (stored@ == presented@),
{
    *stored == String::from_str(presented)
}

/// Un ticket ne sert qu'une fois : apres un premier echange, un second
/// echange du meme texte ne rend rien, quel que soit l'instant.
pub proof fn lemma_ticket_works_once(s: Seq<TicketModel>, t: Seq<char>, now: u64)
    ensures
        find_ticket(without(s, t), t) is None,
        spec_redeem(without(s, t), t, now) is None,
    decreases s.len(),
{
    if s.len() > 0 {
        lemma_ticket_works_once(s.drop_last(), t, now);
        let rest = without(s.drop_last(), t);
        if s.last().0 != t {
            assert(rest.push(s.last()).drop_last() =~= rest);
        }
    }
}

/// Un ticket tout juste emis s'echange, dans son delai de validite, contre
/// l'identite de son titulaire.
pub proof fn lemma_fresh_ticket_redeems(
    s: Seq<TicketModel>,
    t: Seq<char>,
    user: u128,
    now: u64,
    later: u64,
)
    requires
        now <= later,
        later - now < TICKET_TTL_MS,
    ensures
        spec_redeem(spec_issue(s, t, user, now), t, later) == Some(user),
{
}

} // verus!
