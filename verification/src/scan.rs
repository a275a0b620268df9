//! The scan pipeline's decisions for one board: stage 2 (baseline facts from
//! the double-dummy table), stage 3 (cash-out check and ladder level) and
//! stage 4 (probe verdicts), plus the per-collection tally.
//!
//! The double-dummy solves themselves are outside work: the caller solves
//! the deal (and the perturbed deals of `probe_request`) and hands the trick
//! counts in.

use vstd::prelude::*;
use crate::auction::Board;
use crate::cardplay::{immediate_top_winners, immediate_top_winners_spec};
use crate::cards::{deal_view, hand_of, partner_spec, pbn_deal, Card, Deal, Direction, Strain};
use crate::contract::{effective_contract, effective_contract_spec, EffectiveContractView};
use crate::model::{
    dd_get, tool_version, Baseline, Cardplay, ContractFacts, DdTable, DealRecord, Par, ProbeRecord,
};
use crate::probe::{
    causes_of, finesse_perturbations_spec, flips_spec, perturbation_views, probe_plans,
    ruff_perturbations_spec, run_probes, PerturbationView,
};
use crate::text::{copy_string, str_eq};

verus! {

broadcast use vstd::string::group_string_axioms;

/// Every hand holds 13 cards (double-dummy solving needs all four).
pub open spec fn complete_spec(d: &Deal) -> bool {
    forall|s: Direction| #[trigger] hand_of(d, s).len() == 13
}

/// True only for a complete 52-card deal.
pub fn is_complete(deal: &Deal) -> (r: bool)
    ensures
        r == complete_spec(deal),
{
    let r = deal.north.cards.len() == 13 && deal.east.cards.len() == 13 && deal.south.cards.len() == 13
        && deal.west.cards.len() == 13;
    assert(r ==> forall|s: Direction| #[trigger] hand_of(deal, s).len() == 13);
    assert(!r ==> !(hand_of(deal, Direction::North).len() == 13 && hand_of(deal, Direction::East).len() == 13
        && hand_of(deal, Direction::South).len() == 13 && hand_of(deal, Direction::West).len() == 13));
    r
}

/// The partner of a seat.
pub fn partner_of(d: Direction) -> (p: Direction)
    ensures
        p == partner_spec(d),
{
    d.partner()
}

/// Tricks the contract needs: level + 6.
pub open spec fn required_spec(ec: EffectiveContractView) -> int {
    ec.level + 6
}

/// The analyzed contract makes double-dummy.
pub open spec fn makes_spec(ec: EffectiveContractView, dd: DdTable) -> bool {
    dd_get(dd, ec.declarer, ec.strain) >= required_spec(ec)
}

/// Declarer's side has enough top winners to cash out.
pub open spec fn cashout_spec(board: &Board, ec: EffectiveContractView, dd: DdTable) -> bool {
    makes_spec(ec, dd) && immediate_top_winners_spec(
        hand_of(&board.deal, ec.declarer),
        hand_of(&board.deal, partner_spec(ec.declarer)),
    ) >= required_spec(ec)
}

/// The probes run: the deal is complete, a contract is analyzed, it makes
/// double-dummy and is not a cash-out.
pub open spec fn probes_run_spec(board: &Board, dd: DdTable) -> bool {
    complete_spec(&board.deal) && match effective_contract_spec(board) {
        Some(ec) => makes_spec(ec, dd) && !cashout_spec(board, ec, dd),
        None => false,
    }
}

/// The perturbations the probes need solved, when they run.
pub open spec fn probe_request_spec(board: &Board) -> Option<(Seq<PerturbationView>, Seq<PerturbationView>)> {
    match effective_contract_spec(board) {
        Some(ec) => Some((
            finesse_perturbations_spec(deal_view(&board.deal), ec.declarer),
            ruff_perturbations_spec(deal_view(&board.deal), ec.declarer, ec.strain),
        )),
        None => None,
    }
}

/// The finesse perturbations a board's probes need solved.
pub open spec fn finesse_request(board: &Board) -> Seq<PerturbationView> {
    match probe_request_spec(board) {
        Some(p) => p.0,
        None => Seq::empty(),
    }
}

/// The ruff perturbations a board's probes need solved.
pub open spec fn ruff_request(board: &Board) -> Seq<PerturbationView> {
    match probe_request_spec(board) {
        Some(p) => p.1,
        None => Seq::empty(),
    }
}

/// The contract level leaves room for `level + 6`.
pub open spec fn level_fits(board: &Board) -> bool {
    effective_contract_spec(board) matches Some(ec) ==> ec.level <= 249
}

/// What the probe pass needs solved for a board: the contract's strain and
/// declarer, and the probe plans (finesse, then ruff). `None` when the
/// probes do not run.
pub fn probe_request(board: &Board, dd: &DdTable) -> (r: Option<(Strain, Direction, Vec<crate::probe::ProbePlan>)>)
    requires
        level_fits(board),
    ensures
        r is Some <==> probes_run_spec(board, *dd),
        r matches Some((strain, declarer, plans)) ==> {
            &&& effective_contract_spec(board) matches Some(ec)
            &&& strain == ec.strain
            &&& declarer == ec.declarer
            &&& plans@.len() == 2
            &&& perturbation_views(plans@[0].perturbations@) == finesse_request(board)
            &&& perturbation_views(plans@[1].perturbations@) == ruff_request(board)
        },
{
    if !is_complete(&board.deal) {
        return None;
    }
    let ec = match effective_contract(board) {
        Some(ec) => ec,
        None => return None,
    };
    let required = ec.level + 6;
    let dd_tricks = dd.get(ec.declarer, ec.strain);
    let partner = partner_of(ec.declarer);
    let winners = immediate_top_winners(board.deal.hand(ec.declarer), board.deal.hand(partner));
    if dd_tricks < required || winners >= required {
        return None;
    }
    Some((ec.strain, ec.declarer, probe_plans(&board.deal, ec.declarer, ec.strain)))
}

/// The probe results solved for a board match its request.
pub open spec fn solved_fits(board: &Board, dd: DdTable, solved: Seq<Vec<u8>>) -> bool {
    probes_run_spec(board, dd) ==> solved.len() == 2 && solved[0]@.len() == finesse_request(board).len()
        && solved[1]@.len() == ruff_request(board).len()
}

/// The causes in a list of perturbation views.
pub open spec fn view_causes(v: Seq<PerturbationView>) -> Seq<crate::model::FlipCause> {
    v.map_values(|p: PerturbationView| p.cause)
}

/// Ladder level of a making, non-cash-out contract from the number of
/// probes that fired and the gap between the tricks required and the
/// immediate winners: exactly one probe → 2 (single technique); no probe
/// and a gap of 1 or 2 → 1 (establish, no entry or timing problem); any
/// other case → unclassified (`None`), never a wrong level.
pub open spec fn ladder_level(fired: nat, gap: int) -> Option<u8> {
    if fired == 1 {
        Some(2u8)
    } else if fired == 0 && 1 <= gap <= 2 {
        Some(1u8)
    } else {
        None
    }
}

/// Number of fired probes.
pub open spec fn fired_count(p: Seq<ProbeRecord>) -> nat
    decreases p.len(),
{
    if p.len() == 0 {
        0
    } else {
        fired_count(p.drop_last()) + if p.last().fired { 1nat } else { 0nat }
    }
}

/// The baseline facts for the analyzed contract.
pub open spec fn facts_ok(f: &ContractFacts, ec: EffectiveContractView, dd: DdTable) -> bool {
    let t = dd_get(dd, ec.declarer, ec.strain);
    &&& f.contract@ == ec.display
    &&& f.provenance == ec.provenance
    &&& f.dd_tricks == t
    &&& f.required == required_spec(ec)
    &&& f.dd_makes == makes_spec(ec, dd)
    &&& f.slack == t - required_spec(ec)
    &&& f.declarer_seat_sensitive == (dd_get(dd, partner_spec(ec.declarer), ec.strain) != t)
}

/// The probe records for a board: one per probe, finesse then ruff, each
/// with the flips among its solved perturbations.
pub open spec fn probes_ok(p: Seq<ProbeRecord>, board: &Board, ec: EffectiveContractView, dd: DdTable, solved: Seq<Vec<u8>>) -> bool {
    let t = dd_get(dd, ec.declarer, ec.strain);
    let req = required_spec(ec) as u8;
    &&& p.len() == 2
    &&& p[0].name@ == "finesse"@
    &&& p[0].flips@ == flips_spec(view_causes(finesse_request(board)), solved[0]@, t, req)
    &&& p[0].fired == (p[0].flips@.len() > 0)
    &&& p[1].name@ == "ruff"@
    &&& p[1].flips@ == flips_spec(view_causes(ruff_request(board)), solved[1]@, t, req)
    &&& p[1].fired == (p[1].flips@.len() > 0)
}

/// The full result of stages 2-4 for one board.
pub open spec fn analysis_ok(
    board: &Board,
    dd: DdTable,
    par: Option<(i32, Option<Seq<char>>)>,
    solved: Seq<Vec<u8>>,
    r: (Option<Baseline>, Option<Cardplay>, Seq<ProbeRecord>),
) -> bool {
    if !complete_spec(&board.deal) {
        r.0 is None && r.1 is None && r.2.len() == 0
    } else {
        &&& r.0 matches Some(b) && b.dd_table == dd && par_view(b.par) == par && match effective_contract_spec(board) {
            None => b.contract is None,
            Some(ec) => b.contract matches Some(f) && facts_ok(&f, ec, dd),
        }
        &&& match effective_contract_spec(board) {
            None => r.1 is None && r.2.len() == 0,
            Some(ec) => {
                let winners = immediate_top_winners_spec(hand_of(&board.deal, ec.declarer), hand_of(&board.deal, partner_spec(ec.declarer)));
                r.1 matches Some(cp) && cp.immediate_winners == winners && cp.required == required_spec(ec) && if !makes_spec(ec, dd) {
                    cp.difficulty is None && r.2.len() == 0
                } else if cashout_spec(board, ec, dd) {
                    cp.difficulty == Some(0u8) && r.2.len() == 0
                } else {
                    probes_ok(r.2, board, ec, dd, solved) && cp.difficulty == ladder_level(fired_count(r.2), required_spec(ec) - winners)
                }
            },
        }
    }
}

/// The ladder reads the probes as the ladder table says: level 2 only when
/// exactly one probe fired; unclassified whenever two or more fired; level 1
/// only when none fired and the contract needs one or two tricks beyond its
/// immediate winners; level 0 only when the immediate winners suffice.
pub proof fn lemma_ladder_reads_probes(
    board: &Board,
    dd: DdTable,
    par: Option<(i32, Option<Seq<char>>)>,
    solved: Seq<Vec<u8>>,
    r: (Option<Baseline>, Option<Cardplay>, Seq<ProbeRecord>),
)
    requires
        analysis_ok(board, dd, par, solved, r),
    ensures
        r.1 matches Some(cp) ==> cp.difficulty == Some(2u8) ==> (exists|i: int| 0 <= i < r.2.len() && #[trigger] r.2[i].fired)
            && (forall|i: int, j: int| 0 <= i < r.2.len() && 0 <= j < r.2.len() && #[trigger] r.2[i].fired && #[trigger] r.2[j].fired ==> i == j),
        (exists|i: int, j: int| 0 <= i < j < r.2.len() && #[trigger] r.2[i].fired && #[trigger] r.2[j].fired)
            ==> (r.1 matches Some(cp) && cp.difficulty is None),
        r.1 matches Some(cp) ==> cp.difficulty == Some(1u8) ==> (forall|i: int| 0 <= i < r.2.len() ==> !#[trigger] r.2[i].fired)
            && 1 <= cp.required - cp.immediate_winners <= 2,
        r.1 matches Some(cp) ==> cp.difficulty == Some(0u8) ==> cp.immediate_winners >= cp.required,
{
    if r.2.len() == 2 {
        reveal_with_fuel(fired_count, 3);
        assert(r.2.drop_last().drop_last() =~= Seq::<ProbeRecord>::empty());
    }
}

/// The plain content of a par result.
pub open spec fn par_view(p: Option<Par>) -> Option<(i32, Option<Seq<char>>)> {
    match p {
        Some(p) => Some((p.optimum_score, match p.contract {
            Some(c) => Some(c@),
            None => None,
        })),
        None => None,
    }
}

fn copy_par(p: &Par) -> (r: Par)
    ensures
        par_view(Some(r)) == par_view(Some(*p)),
{
    Par {
        optimum_score: p.optimum_score,
        contract: match &p.contract {
            Some(c) => Some(copy_string(c)),
            None => None,
        },
    }
}

/// Stages 2-4 for one board. For a complete deal the baseline holds the
/// solved table and par; with a resolvable contract, the contract facts and
/// the cash-out check; the probes run only on making, non-cash-out
/// contracts, and their fired count sets the ladder level.
pub fn analyze(board: &Board, dd: &DdTable, par: &Par, solved: &Vec<Vec<u8>>) -> (r: (Option<Baseline>, Option<Cardplay>, Vec<ProbeRecord>))
    requires
        level_fits(board),
        solved_fits(board, *dd, solved@),
    ensures
        analysis_ok(board, *dd, par_view(Some(*par)), solved@, (r.0, r.1, r.2@)),
{
    if !is_complete(&board.deal) {
        return (None, None, Vec::new());
    }
    let par = copy_par(par);
    let ec = match effective_contract(board) {
        Some(ec) => ec,
        None => {
            let baseline = Baseline { dd_table: *dd, par: Some(par), contract: None };
            return (Some(baseline), None, Vec::new());
        },
    };
    let dd_tricks = dd.get(ec.declarer, ec.strain);
    let required = ec.level + 6;
    let dd_makes = dd_tricks >= required;
    let partner = partner_of(ec.declarer);
    let facts = ContractFacts {
        contract: copy_string(&ec.display),
        provenance: ec.provenance,
        dd_tricks,
        required,
        dd_makes,
        slack: dd_tricks as i32 - required as i32,
        declarer_seat_sensitive: dd.get(partner, ec.strain) != dd_tricks,
    };
    let winners = immediate_top_winners(board.deal.hand(ec.declarer), board.deal.hand(partner));
    let cashout = dd_makes && winners >= required;
    let (difficulty, probes) = if !dd_makes {
        (None, Vec::new())
    } else if cashout {
        (Some(0u8), Vec::new())
    } else {
        let plans = probe_plans(&board.deal, ec.declarer, ec.strain);
        proof {
            assert(causes_of(plans@[0].perturbations@) =~= view_causes(perturbation_views(plans@[0].perturbations@)));
            assert(causes_of(plans@[1].perturbations@) =~= view_causes(perturbation_views(plans@[1].perturbations@)));
            assert(solved@[0]@.len() == perturbation_views(plans@[0].perturbations@).len());
            assert(solved@[1]@.len() == perturbation_views(plans@[1].perturbations@).len());
        }
        let recs = run_probes(&plans, solved, dd_tricks, required);
        let mut fired: usize = 0;
        if recs[0].fired {
            fired += 1;
        }
        if recs[1].fired {
            fired += 1;
        }
        proof {
            assert(recs@.drop_last().drop_last().len() == 0);
            assert(fired_count(recs@.drop_last().drop_last()) == 0);
            assert(recs@.drop_last().last() == recs@[0]);
            assert(recs@.last() == recs@[1]);
            assert(fired_count(recs@.drop_last()) == if recs@[0].fired { 1nat } else { 0nat });
            assert(fired_count(recs@) == fired);
        }
        let gap = required - winners;
        let diff = if fired == 1 {
            Some(2u8)
        } else if fired == 0 && gap <= 2 {
            Some(1u8)
        } else {
            None
        };
        (diff, recs)
    };
    let cp = Cardplay { immediate_winners: winners, required, difficulty };
    let baseline = Baseline { dd_table: *dd, par: Some(par), contract: Some(facts) };
    (Some(baseline), Some(cp), probes)
}

// ---------------------------------------------------------------------------
// Tally
// ---------------------------------------------------------------------------

/// Outcome counts for one collection scan.
#[derive(Debug)]
pub struct ScanSummary {
    pub total: usize,
    pub written: usize,
    pub cached: usize,
    /// Records that got a double-dummy baseline (complete deal).
    pub baselined: usize,
    /// Records with an analyzed contract (explicit or inferred).
    pub with_contract: usize,
    /// Ladder histogram among making contracts: levels 0, 1, 2.
    pub difficulty: [usize; 3],
    /// Making contracts left unclassified.
    pub unclassified: usize,
}

impl ScanSummary {
    /// All counts zero.
    pub fn new() -> (s: ScanSummary)
        ensures
            s.total == 0 && s.written == 0 && s.cached == 0 && s.baselined == 0 && s.with_contract == 0,
            s.difficulty@ == seq![0usize, 0usize, 0usize],
            s.unclassified == 0,
            summary_consistent(&s, false),
    {
        let s = ScanSummary { total: 0, written: 0, cached: 0, baselined: 0, with_contract: 0, difficulty: [0, 0, 0], unclassified: 0 };
        assert(s.difficulty@ =~= seq![0usize, 0usize, 0usize]);
        s
    }
}

/// The record's contract facts, if any.
pub open spec fn record_facts(rec: &DealRecord) -> Option<ContractFacts> {
    match rec.baseline {
        Some(b) => b.contract,
        None => None,
    }
}

/// The record's ladder level, if any.
pub open spec fn record_level(rec: &DealRecord) -> Option<u8> {
    match rec.cardplay {
        Some(c) => c.difficulty,
        None => None,
    }
}

/// Counts one record into the summary: baselined, with contract, and for
/// making contracts the ladder level (0-2) or unclassified.
pub fn tally(sum: &mut ScanSummary, rec: &DealRecord)
    requires
        old(sum).baselined < usize::MAX,
        old(sum).with_contract < usize::MAX,
        old(sum).unclassified < usize::MAX,
        forall|i: int| 0 <= i < 3 ==> old(sum).difficulty@[i] < usize::MAX,
    ensures
        final(sum).total == old(sum).total,
        final(sum).written == old(sum).written,
        final(sum).cached == old(sum).cached,
        final(sum).baselined == old(sum).baselined + if rec.baseline is Some { 1int } else { 0int },
        final(sum).with_contract == old(sum).with_contract + if record_facts(rec) is Some { 1int } else { 0int },
        forall|i: int| 0 <= i < 3 ==> #[trigger] final(sum).difficulty@[i] == old(sum).difficulty@[i] + if
            record_facts(rec) matches Some(f) && f.dd_makes && record_level(rec) == Some(i as u8) {
            1int
        } else {
            0int
        },
        final(sum).unclassified == old(sum).unclassified + if record_facts(rec) matches Some(f) && f.dd_makes
            && !(record_level(rec) matches Some(d) && d <= 2) {
            1int
        } else {
            0int
        },
{
    if rec.baseline.is_some() {
        sum.baselined += 1;
    }
    let facts = match &rec.baseline {
        Some(b) => match &b.contract {
            Some(f) => Some(f),
            None => None,
        },
        None => None,
    };
    if facts.is_some() {
        sum.with_contract += 1;
    }
    let makes = match facts {
        Some(f) => f.dd_makes,
        None => false,
    };
    if makes {
        let level = match &rec.cardplay {
            Some(c) => c.difficulty,
            None => None,
        };
        match level {
            Some(d) => {
                if d <= 2 {
                    let i = d as usize;
                    sum.difficulty[i] = sum.difficulty[i] + 1;
                } else {
                    sum.unclassified += 1;
                }
            },
            None => {
                sum.unclassified += 1;
            },
        }
    }
}

// ---------------------------------------------------------------------------
// Scan steps: the per-board decisions of a collection scan
// ---------------------------------------------------------------------------

/// The PBN text of the deal with no cards, written from North.
pub open spec fn blank_deal_text() -> Seq<char> {
    pbn_deal(seq![Seq::<Card>::empty(), Seq::<Card>::empty(), Seq::<Card>::empty(), Seq::<Card>::empty()], 0)
}

/// The summary's counts agree with each other: every admitted board was
/// either written or taken from the cache, but for the one in hand
/// (`pending`); records with a contract are among those with a baseline,
/// which are among the records counted; and the ladder histogram and the
/// unclassified count only count records with a contract.
pub open spec fn summary_consistent(sum: &ScanSummary, pending: bool) -> bool {
    &&& sum.total == sum.written + sum.cached + if pending { 1int } else { 0int }
    &&& sum.with_contract <= sum.baselined
    &&& sum.baselined <= sum.written + sum.cached
    &&& sum.difficulty@[0] + sum.difficulty@[1] + sum.difficulty@[2] + sum.unclassified <= sum.with_contract
}

/// Room in every counter that a tally may raise.
pub open spec fn tally_room(sum: &ScanSummary) -> bool {
    &&& sum.baselined < usize::MAX
    &&& sum.with_contract < usize::MAX
    &&& sum.unclassified < usize::MAX
    &&& forall|i: int| 0 <= i < 3 ==> sum.difficulty@[i] < usize::MAX
}

/// First step for a board read from a file: a deal whose PBN text is that of
/// the empty deal is skipped; any other is admitted and counted in `total`.
pub fn admit_board(sum: &mut ScanSummary, deal: &Deal) -> (admitted: bool)
    requires
        old(sum).total < usize::MAX,
    ensures
        admitted == (pbn_deal(deal_view(deal), 0) != blank_deal_text()),
        final(sum).total == old(sum).total + if admitted { 1int } else { 0int },
        final(sum).written == old(sum).written,
        final(sum).cached == old(sum).cached,
        final(sum).baselined == old(sum).baselined,
        final(sum).with_contract == old(sum).with_contract,
        final(sum).difficulty@ == old(sum).difficulty@,
        final(sum).unclassified == old(sum).unclassified,
        summary_consistent(&*old(sum), false) ==> summary_consistent(&*final(sum), admitted),
{
    let blank = Deal::empty();
    let e = blank.to_pbn(Direction::North);
    assert(deal_view(&blank) =~= seq![Seq::<Card>::empty(), Seq::<Card>::empty(), Seq::<Card>::empty(), Seq::<Card>::empty()]) by {
        assert(hand_of(&blank, Direction::North) == Seq::<Card>::empty());
        assert(hand_of(&blank, Direction::East) == Seq::<Card>::empty());
        assert(hand_of(&blank, Direction::South) == Seq::<Card>::empty());
        assert(hand_of(&blank, Direction::West) == Seq::<Card>::empty());
    }
    let t = deal.to_pbn(Direction::North);
    if str_eq(t.as_str(), e.as_str()) {
        false
    } else {
        sum.total += 1;
        true
    }
}

/// Second step, once the record cached under the deal's hash has been looked
/// up: a cached record that is current is used, counted in `cached` and
/// tallied; otherwise nothing changes and the board is to be analyzed.
pub fn take_cached(sum: &mut ScanSummary, cached: &Option<DealRecord>) -> (used: bool)
    requires
        old(sum).cached < usize::MAX,
        tally_room(&*old(sum)),
    ensures
        used == (cached matches Some(c) && c.versions.tool@ == tool_version() && c.versions.ladder == 1
            && c.baseline is Some),
        !used ==> *final(sum) == *old(sum),
        used ==> final(sum).cached == old(sum).cached + 1,
        used ==> (cached matches Some(c) && tallied(&*old(sum), &*final(sum), c)),
        final(sum).total == old(sum).total,
        final(sum).written == old(sum).written,
        summary_consistent(&*old(sum), true) ==> summary_consistent(&*final(sum), !used),
{
    match cached {
        Some(c) => {
            if is_current_baselined(c) {
                let ghost before = *sum;
                sum.cached += 1;
                tally(sum, c);
                proof {
                    lemma_tally_keeps_order(&before, &*sum, c);
                }
                true
            } else {
                false
            }
        },
        None => false,
    }
}

/// Last step, for a freshly analyzed record about to be written: it is
/// tallied and counted in `written`.
pub fn count_written(sum: &mut ScanSummary, rec: &DealRecord)
    requires
        old(sum).written < usize::MAX,
        tally_room(&*old(sum)),
    ensures
        final(sum).written == old(sum).written + 1,
        final(sum).total == old(sum).total,
        final(sum).cached == old(sum).cached,
        tallied(&*old(sum), &*final(sum), rec),
        summary_consistent(&*old(sum), true) ==> summary_consistent(&*final(sum), false),
{
    tally(sum, rec);
    sum.written += 1;
    proof {
        lemma_tally_keeps_order(&*old(sum), &*sum, rec);
    }
}

/// A tally raises the contract count only with the baseline count, and the
/// ladder counts only with the contract count, each by at most one.
proof fn lemma_tally_keeps_order(before: &ScanSummary, after: &ScanSummary, rec: &DealRecord)
    requires
        tallied(before, after, rec),
    ensures
        after.baselined <= before.baselined + 1,
        after.with_contract - before.with_contract <= after.baselined - before.baselined,
        (after.difficulty@[0] + after.difficulty@[1] + after.difficulty@[2] + after.unclassified)
            - (before.difficulty@[0] + before.difficulty@[1] + before.difficulty@[2] + before.unclassified)
            <= after.with_contract - before.with_contract,
{
    assert(after.difficulty@[0] == before.difficulty@[0] + if record_facts(rec) matches Some(f) && f.dd_makes
        && record_level(rec) == Some(0u8) { 1int } else { 0int });
    assert(after.difficulty@[1] == before.difficulty@[1] + if record_facts(rec) matches Some(f) && f.dd_makes
        && record_level(rec) == Some(1u8) { 1int } else { 0int });
    assert(after.difficulty@[2] == before.difficulty@[2] + if record_facts(rec) matches Some(f) && f.dd_makes
        && record_level(rec) == Some(2u8) { 1int } else { 0int });
}

/// `after` is `before` with `rec` tallied (the counts that `tally` raises).
pub open spec fn tallied(before: &ScanSummary, after: &ScanSummary, rec: &DealRecord) -> bool {
    &&& after.baselined == before.baselined + if rec.baseline is Some { 1int } else { 0int }
    &&& after.with_contract == before.with_contract + if record_facts(rec) is Some { 1int } else { 0int }
    &&& forall|i: int| 0 <= i < 3 ==> #[trigger] after.difficulty@[i] == before.difficulty@[i] + if
        record_facts(rec) matches Some(f) && f.dd_makes && record_level(rec) == Some(i as u8) {
        1int
    } else {
        0int
    }
    &&& after.unclassified == before.unclassified + if record_facts(rec) matches Some(f) && f.dd_makes
        && !(record_level(rec) matches Some(d) && d <= 2) {
        1int
    } else {
        0int
    }
    &&& after.difficulty@.len() == 3
}

/// A cached record is current: made by this tool and ladder version, and
/// already baselined.
pub fn is_current_baselined(rec: &DealRecord) -> (r: bool)
    ensures
        r == (rec.versions.tool@ == tool_version() && rec.versions.ladder == 1 && rec.baseline is Some),
{
    proof {
        reveal_strlit("0.1.0");
    }
    let same_tool = str_eq(rec.versions.tool.as_str(), crate::model::TOOL_VERSION);
    assert(crate::model::TOOL_VERSION@ =~= tool_version());
    same_tool && rec.versions.ladder == crate::model::LADDER_VERSION && rec.baseline.is_some()
}

} // verus!
