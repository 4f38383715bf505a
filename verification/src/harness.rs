//! Harnais de simulation : des bots jouent des donnes a la suite, et l'on
//! verifie les invariants de chacune.

use rand_chacha::ChaCha8Rng;
use vstd::prelude::*;
use vstd::string::StringExecFns;

use crate::card::{Card, Suit};
use crate::event::events_view;
use crate::rules::{reduce, replay_safe, replay};
use crate::sim::{
    check_invariants, completed_deal, deal_failed, deal_problems,
    lemma_completed_deal_has_no_problem, play_deal, sim_error_message, DealOutcome, SimError,
};
use crate::state::{fresh_model, DealScore, GameState, PlayedCard, Seat};
use crate::text::{decimal, push_decimal};
use crate::turns::reduce_all;

verus! {

/// Les memes cartes, dans le meme ordre.
fn same_cards(a: &[Card], b: &[Card]) -> (r: bool)
    ensures
        r == (a@ == b@),
{
    if a.len() != b.len() {
        return false;
    }
    let mut i: usize = 0;
    while i < a.len()
        invariant
            a@.len() == b@.len(),
            i <= a@.len(),
            forall|k: int| 0 <= k < i ==> a@[k] == b@[k],
        decreases a@.len() - i,
    {
        if a[i] != b[i] {
            return false;
        }
        i += 1;
    }
    assert(a@ =~= b@);
    true
}

/// Les memes cartes posees, dans le meme ordre.
fn same_trick(a: &[PlayedCard], b: &[PlayedCard]) -> (r: bool)
    ensures
        r == (a@ == b@),
{
    if a.len() != b.len() {
        return false;
    }
    let mut i: usize = 0;
    while i < a.len()
        invariant
            a@.len() == b@.len(),
            i <= a@.len(),
            forall|k: int| 0 <= k < i ==> a@[k] == b@[k],
        decreases a@.len() - i,
    {
        if a[i] != b[i] {
            return false;
        }
        i += 1;
    }
    assert(a@ =~= b@);
    true
}

/// Le meme decompte.
fn same_score(a: Option<DealScore>, b: Option<DealScore>) -> (r: bool)
    ensures
        r == (a == b),
{
    match (a, b) {
        (None, None) => true,
        (Some(x), Some(y)) => {
            let r = x.points[0] == y.points[0] && x.points[1] == y.points[1] && x.raw[0]
                == y.raw[0] && x.raw[1] == y.raw[1] && x.taker == y.taker && x.trump == y.trump
                && x.belote == y.belote && x.capot == y.capot && x.contract_made
                == y.contract_made && x.litige == y.litige && x.carry_out == y.carry_out;
            proof {
                if r {
                    assert(x.points =~= y.points);
                    assert(x.raw =~= y.raw);
                }
            }
            r
        },
        _ => false,
    }
}

impl GameState {
    /// Les deux etats sont-ils identiques ?
    pub fn same_as(&self, other: &GameState) -> (r: bool)
        ensures
            r == (self@ == other@),
    {
        let r = self.phase == other.phase && self.dealer == other.dealer && self.turn
            == other.turn && same_cards(self.hands[0].as_slice(), other.hands[0].as_slice())
            && same_cards(self.hands[1].as_slice(), other.hands[1].as_slice()) && same_cards(
            self.hands[2].as_slice(),
            other.hands[2].as_slice(),
        ) && same_cards(self.hands[3].as_slice(), other.hands[3].as_slice()) && self.upcard
            == other.upcard && same_cards(self.stock.as_slice(), other.stock.as_slice())
            && self.trump == other.trump && self.taker == other.taker && self.passes
            == other.passes && same_trick(self.trick.as_slice(), other.trick.as_slice())
            && self.trick_leader == other.trick_leader && self.tricks_played
            == other.tricks_played && self.tricks_won[0] == other.tricks_won[0]
            && self.tricks_won[1] == other.tricks_won[1] && self.card_points[0]
            == other.card_points[0] && self.card_points[1] == other.card_points[1]
            && self.belote_seat == other.belote_seat && self.belote_shown == other.belote_shown
            && self.carry_in == other.carry_in && same_score(self.score, other.score);
        proof {
            if r {
                assert(self@.hands =~= other@.hands);
                assert(self@.tricks_won =~= other@.tricks_won);
                assert(self@.card_points =~= other@.card_points);
                assert(self@ =~= other@);
            } else if self@ == other@ {
                assert(self@.hands[0] == other@.hands[0]);
                assert(self@.hands[1] == other@.hands[1]);
                assert(self@.hands[2] == other@.hands[2]);
                assert(self@.hands[3] == other@.hands[3]);
                assert(self.tricks_won[0] == self@.tricks_won[0]);
                assert(self.tricks_won[1] == self@.tricks_won[1]);
                assert(self.card_points[0] == self@.card_points[0]);
                assert(self.card_points[1] == self@.card_points[1]);
            }
        }
        r
    }
}

/// Une donne vue par le harnais, pour l'affichage detaille.
#[derive(Debug, Clone, Copy, PartialEq, Eq)]
pub struct DealLine {
    pub game: usize,
    pub taker: Seat,
    pub trump: Suit,
    pub points: [u16; 2],
    pub contract_made: bool,
    pub litige: bool,
    pub capot: bool,
    pub belote: bool,
    /// Redistributions avant que quelqu'un prenne.
    pub redeals: usize,
}

/// La somme d'une quantite sur les donnes.
pub open spec fn lines_sum(lines: Seq<DealLine>, f: spec_fn(DealLine) -> int) -> int
    decreases lines.len(),
{
    if lines.len() == 0 {
        0
    } else {
        lines_sum(lines.drop_last(), f) + f(lines.last())
    }
}

/// Le nombre de donnes qui ont une propriete.
pub open spec fn lines_count(lines: Seq<DealLine>, p: spec_fn(DealLine) -> bool) -> int {
    lines_sum(lines, |l: DealLine| if p(l) { 1int } else { 0int })
}

/// Les cumuls du bilan sont ceux des donnes qu'il detaille.
pub open spec fn report_sums(r: SimReport) -> bool {
    let lines = r.lines@;
    &&& r.totals[0] == lines_sum(lines, |l: DealLine| l.points[0] as int)
    &&& r.totals[1] == lines_sum(lines, |l: DealLine| l.points[1] as int)
    &&& forall|k: int|
        0 <= k < 4 ==> #[trigger] r.takes[k] == lines_count(lines, |l: DealLine| l.taker.0 == k)
    &&& r.contracts_made == lines_count(lines, |l: DealLine| l.contract_made)
    &&& r.capots == lines_count(lines, |l: DealLine| l.capot)
    &&& r.belotes == lines_count(lines, |l: DealLine| l.belote)
    &&& r.litiges == lines_count(lines, |l: DealLine| l.litige)
    &&& r.redeals == lines_sum(lines, |l: DealLine| l.redeals as int)
}

proof fn lemma_lines_push(lines: Seq<DealLine>, x: DealLine, f: spec_fn(DealLine) -> int)
    ensures
        lines_sum(lines.push(x), f) == lines_sum(lines, f) + f(x),
{
    assert(lines.push(x).drop_last() =~= lines);
}

proof fn lemma_count_push(lines: Seq<DealLine>, x: DealLine, p: spec_fn(DealLine) -> bool)
    ensures
        lines_count(lines.push(x), p) == lines_count(lines, p) + if p(x) {
            1int
        } else {
            0int
        },
{
    lemma_lines_push(lines, x, |l: DealLine| if p(l) { 1int } else { 0int });
}

/// Le bilan d'une serie de donnes.
#[derive(Debug)]
pub struct SimReport {
    pub games: usize,
    /// Donnes en echec : erreur, invariant viole, ou journal qui diverge.
    pub failures: usize,
    pub totals: [u128; 2],
    pub takes: [usize; 4],
    pub contracts_made: usize,
    pub capots: usize,
    pub belotes: usize,
    pub litiges: usize,
    pub redeals: u128,
    /// Une ligne par donne reussie.
    pub lines: Vec<DealLine>,
    /// Les messages d'echec, dans l'ordre.
    pub messages: Vec<String>,
}

/// `donne {game} : ` suivi du texte.
fn game_message(game: usize, text: &str) -> (s: String)
    ensures
        s@ == "donne "@ + decimal(game as nat) + " : "@ + text@,
{
    let mut s = String::from_str("donne ");
    push_decimal(&mut s, game as u64);
    s.append(" : ");
    s.append(text);
    s
}

/// Le separateur des messages joints.
pub open spec fn problem_separator() -> Seq<char> {
    seq![' ', '|', ' ']
}

/// Les textes `parts` mis bout a bout, separes par ` | `.
pub open spec fn joined(parts: Seq<Seq<char>>) -> Seq<char>
    decreases parts.len(),
{
    if parts.len() == 0 {
        Seq::empty()
    } else if parts.len() == 1 {
        parts[0]
    } else {
        joined(parts.drop_last()) + problem_separator() + parts.last()
    }
}

/// Les messages, separes par ` | `.
fn join_problems(problems: &Vec<String>) -> (s: String)
    ensures
        s@ == joined(problems@.map_values(|p: String| p@)),
{
    let ghost parts = problems@.map_values(|p: String| p@);
    let mut s = String::new();
    let mut i: usize = 0;
    proof {
        reveal_strlit(" | ");
        assert(s@ =~= joined(parts.subrange(0, 0)));
    }
    while i < problems.len()
        invariant
            i <= problems@.len(),
            parts == problems@.map_values(|p: String| p@),
            " | "@ == problem_separator(),
            s@ == joined(parts.subrange(0, i as int)),
        decreases problems@.len() - i,
    {
        let ghost before = s@;
        if i > 0 {
            s.append(" | ");
        }
        s.append(problems[i].as_str());
        proof {
            let next = parts.subrange(0, i + 1);
            assert(next.drop_last() =~= parts.subrange(0, i as int));
            assert(next.last() == problems@[i as int]@);
            if i == 0 {
                assert(before =~= Seq::<char>::empty());
                assert(s@ =~= next[0]);
            } else {
                assert(s@ =~= before + problem_separator() + next.last());
            }
        }
        i += 1;
    }
    assert(parts.subrange(0, problems@.len() as int) =~= parts);
    s
}

/// Le message `donne {game} : {text}`.
pub open spec fn game_text(game: int, text: Seq<char>) -> Seq<char> {
    "donne "@ + decimal(game as nat) + " : "@ + text
}

/// Ce qui est arrive a une donne de la serie : son decompte et ses
/// redistributions, ou l'erreur de `play_deal`.
pub type DealResult = Result<(DealScore, usize), SimError>;

/// La ligne du bilan pour la donne `game`, de decompte `sc`.
pub open spec fn line_of(game: int, sc: DealScore, redeals: usize) -> DealLine {
    DealLine {
        game: game as usize,
        taker: sc.taker,
        trump: sc.trump,
        points: sc.points,
        contract_made: sc.contract_made,
        litige: sc.litige,
        capot: sc.capot is Some,
        belote: sc.belote is Some,
        redeals,
    }
}

/// Le donneur de la donne `k` : les sieges tournent, en commencant par le
/// siege 0.
pub open spec fn dealer_of(k: int) -> Seat {
    Seat((k % 4) as u8)
}

/// `r` est ce que `play_deal` peut rendre pour la donne `k` jouee avec la
/// cagnotte `carry` : une donne achevee, ou un echec.
pub open spec fn deal_result(k: int, carry: u16, r: DealResult) -> bool {
    match r {
        Ok((sc, n)) => exists|o: DealOutcome|
            #[trigger] completed_deal(dealer_of(k), carry, o) && o.state@.score == Some(sc)
                && o.redeals == n,
        Err(e) => deal_failed(dealer_of(k), carry, e),
    }
}

/// La cagnotte que la donne transmet a la suivante : celle qu'elle reporte,
/// ou rien si elle a echoue.
pub open spec fn carry_after(r: DealResult) -> u16 {
    match r {
        Ok((sc, _)) => sc.carry_out,
        Err(_) => 0,
    }
}

/// Une serie de donnes : chacune jouee par le donneur de son rang, avec la
/// cagnotte laissee par la precedente (aucune pour la premiere).
pub open spec fn series(h: Seq<(u16, DealResult)>) -> bool {
    &&& forall|k: int| 0 <= k < h.len() ==> #[trigger] deal_result(k, h[k].0, h[k].1)
    &&& h.len() > 0 ==> h[0].0 == 0
    &&& forall|k: int| 1 <= k < h.len() ==> #[trigger] h[k].0 == carry_after(h[k - 1].1)
}

/// Les lignes du bilan d'une serie : une par donne achevee, dans l'ordre.
pub open spec fn series_lines(h: Seq<(u16, DealResult)>) -> Seq<DealLine>
    decreases h.len(),
{
    if h.len() == 0 {
        Seq::empty()
    } else {
        series_lines(h.drop_last()) + match h.last().1 {
            Ok((sc, n)) => seq![line_of(h.len() - 1, sc, n)],
            Err(_) => Seq::empty(),
        }
    }
}

/// Les messages du bilan d'une serie : un par donne en echec, dans l'ordre.
pub open spec fn series_messages(h: Seq<(u16, DealResult)>) -> Seq<Seq<char>>
    decreases h.len(),
{
    if h.len() == 0 {
        Seq::empty()
    } else {
        series_messages(h.drop_last()) + match h.last().1 {
            Ok(_) => Seq::empty(),
            Err(e) => seq![game_text(h.len() - 1, sim_error_message(e))],
        }
    }
}

/// Une donne de plus prolonge la serie.
proof fn lemma_series_push(h: Seq<(u16, DealResult)>, carry: u16, r: DealResult)
    requires
        series(h),
        deal_result(h.len() as int, carry, r),
        carry == if h.len() == 0 {
            0
        } else {
            carry_after(h.last().1)
        },
    ensures
        series(h.push((carry, r))),
        series_lines(h.push((carry, r))) == series_lines(h) + match r {
            Ok((sc, n)) => seq![line_of(h.len() as int, sc, n)],
            Err(_) => Seq::<DealLine>::empty(),
        },
        series_messages(h.push((carry, r))) == series_messages(h) + match r {
            Ok(_) => Seq::<Seq<char>>::empty(),
            Err(e) => seq![game_text(h.len() as int, sim_error_message(e))],
        },
{
    let g = h.push((carry, r));
    assert(g.drop_last() =~= h);
    assert forall|k: int| 0 <= k < g.len() implies #[trigger] deal_result(k, g[k].0, g[k].1) by {
        if k < h.len() {
            assert(g[k] == h[k]);
        }
    }
    assert forall|k: int| 1 <= k < g.len() implies #[trigger] g[k].0 == carry_after(g[k - 1].1) by {
        if k < h.len() {
            assert(g[k] == h[k]);
            assert(g[k - 1] == h[k - 1]);
        } else {
            assert(g[k - 1] == h.last());
        }
    }
}

/// Fait jouer `games` donnes a la suite et verifie chacune : les invariants
/// de fin de donne, puis le rejeu du journal. La donne `k` est distribuee
/// par le siege `k % 4`, avec la cagnotte reportee par la precedente (rien
/// apres un echec). Chaque donne achevee donne sa ligne, chaque echec de
/// `play_deal` son message, dans l'ordre des donnes : aucune donne ne viole
/// un invariant ni ne diverge au rejeu.
pub fn simulate(games: usize, rng: &mut ChaCha8Rng) -> (report: SimReport)
    ensures
        report.games == games,
        report.failures == report.messages@.len(),
        report.lines@.len() + report.messages@.len() == games,
        report_sums(report),
        exists|h: Seq<(u16, DealResult)>|
            h.len() == games && #[trigger] series(h) && report.lines@ == series_lines(h)
                && report.messages@.map_values(|m: String| m@) == series_messages(h),
{
    let mut report = SimReport {
        games,
        failures: 0,
        totals: [0, 0],
        takes: [0, 0, 0, 0],
        contracts_made: 0,
        capots: 0,
        belotes: 0,
        litiges: 0,
        redeals: 0,
        lines: Vec::new(),
        messages: Vec::new(),
    };
    let mut carry: u16 = 0;
    let mut game: usize = 0;
    let ghost mut h: Seq<(u16, DealResult)> = Seq::empty();
    proof {
        assert(report.messages@.map_values(|m: String| m@) =~= Seq::<Seq<char>>::empty());
    }
    while game < games
        invariant
            game <= games,
            report.games == games,
            report.failures == report.messages@.len(),
            report.lines@.len() + report.messages@.len() == game,
            report.totals[0] <= game * 65535,
            report.totals[1] <= game * 65535,
            report.takes[0] <= game,
            report.takes[1] <= game,
            report.takes[2] <= game,
            report.takes[3] <= game,
            report.contracts_made <= game,
            report.capots <= game,
            report.belotes <= game,
            report.litiges <= game,
            report.redeals <= game * 100,
            report_sums(report),
            h.len() == game,
            series(h),
            report.lines@ == series_lines(h),
            report.messages@.map_values(|m: String| m@) == series_messages(h),
            carry == if game == 0 {
                0
            } else {
                carry_after(h.last().1)
            },
        decreases games - game,
    {
        let dealer = Seat((game % 4) as u8);
        let outcome = match play_deal(dealer, carry, rng) {
            Ok(o) => o,
            Err(e) => {
                let m = e.message();
                let ghost msgs = report.messages@;
                report.messages.push(game_message(game, m.as_str()));
                proof {
                    lemma_series_push(h, carry, Err(e));
                    h = h.push((carry, Err(e)));
                    assert(report.messages@ == msgs.push(report.messages@.last()));
                    assert(report.messages@.map_values(|m: String| m@) =~= msgs.map_values(
                        |m: String| m@,
                    ) + seq![game_text(game as int, sim_error_message(e))]);
                    assert(series_lines(h) =~= report.lines@);
                }
                report.failures += 1;
                carry = 0;
                game += 1;
                continue;
            },
        };
        proof {
            lemma_completed_deal_has_no_problem(dealer, carry, outcome);
        }
        let problems = check_invariants(&outcome);
        proof {
            assert(problems@.map_values(|p: String| p@).len() == problems@.len());
        }
        if problems.len() > 0 {
            let joined = join_problems(&problems);
            report.messages.push(game_message(game, joined.as_str()));
            report.failures += 1;
        }
        // Le journal doit reconstruire exactement le meme etat.
        let mut replayed = GameState::new(dealer, carry);
        reduce_all(&mut replayed, &outcome.events);
        if !replayed.same_as(&outcome.state) {
            report.messages.push(
                game_message(game, "le rejeu du journal diverge de l'etat courant"),
            );
            report.failures += 1;
        }
        let score = match outcome.state.score {
            Some(s) => s,
            None => {
                game += 1;
                continue;
            },
        };
        proof {
            assert(score.taker.valid());
            assert(score.points[0] <= 65535);
        }
        let line = DealLine {
            game,
            taker: score.taker,
            trump: score.trump,
            points: score.points,
            contract_made: score.contract_made,
            litige: score.litige,
            capot: score.capot.is_some(),
            belote: score.belote.is_some(),
            redeals: outcome.redeals,
        };
        let ghost before = report.lines@;
        let ghost old_takes = report.takes;
        report.totals = [
            report.totals[0] + score.points[0] as u128,
            report.totals[1] + score.points[1] as u128,
        ];
        let t = score.taker.index();
        report.takes[t] = report.takes[t] + 1;
        if line.contract_made {
            report.contracts_made += 1;
        }
        if line.capot {
            report.capots += 1;
        }
        if line.belote {
            report.belotes += 1;
        }
        if line.litige {
            report.litiges += 1;
        }
        report.redeals += line.redeals as u128;
        report.lines.push(line);
        proof {
            let r: DealResult = Ok((score, outcome.redeals));
            assert(deal_result(game as int, carry, r)) by {
                assert(completed_deal(dealer_of(game as int), carry, outcome));
            }
            lemma_series_push(h, carry, r);
            h = h.push((carry, r));
            assert(line == line_of(game as int, score, outcome.redeals));
            assert(report.lines@ =~= series_lines(h));
            assert(series_messages(h) =~= report.messages@.map_values(|m: String| m@));
            lemma_lines_push(before, line, |l: DealLine| l.points[0] as int);
            lemma_lines_push(before, line, |l: DealLine| l.points[1] as int);
            lemma_lines_push(before, line, |l: DealLine| l.redeals as int);
            lemma_count_push(before, line, |l: DealLine| l.contract_made);
            lemma_count_push(before, line, |l: DealLine| l.capot);
            lemma_count_push(before, line, |l: DealLine| l.belote);
            lemma_count_push(before, line, |l: DealLine| l.litige);
            assert forall|k: int| 0 <= k < 4 implies #[trigger] report.takes[k] == lines_count(
                report.lines@,
                |l: DealLine| l.taker.0 == k,
            ) by {
                lemma_count_push(before, line, |l: DealLine| l.taker.0 == k);
                assert(report.takes[k] == old_takes[k] + if k == t { 1int } else { 0int });
            }
        }
        carry = score.carry_out;
        game += 1;
    }
    report
}

} // verus!
