//! Per-deal characterization record. Stages fill in their block; blocks not
//! computed are absent (`None` / empty), never a guess. `versions` drives
//! cache invalidation when the ladder or probe logic changes.

use vstd::prelude::*;
use crate::cards::{dir_index_spec, Direction, Rank, Strain, Suit};
use crate::text::owned;

verus! {

/// One record per deal, keyed by the content hash.
#[derive(Debug)]
pub struct DealRecord {
    pub hash: String,
    pub source: Source,
    pub structural: StructuralInfo,
    /// Stage 2 baseline; absent for an incomplete deal.
    pub baseline: Option<Baseline>,
    /// Stage 3 cash-out check and ladder level; absent without a contract.
    pub cardplay: Option<Cardplay>,
    /// Stage 4 probe results; empty when no probe ran.
    pub probes: Vec<ProbeRecord>,
    pub versions: Versions,
}

/// Where a deal came from.
#[derive(Debug)]
pub struct Source {
    pub collection: String,
    pub file: String,
    pub board: Option<u32>,
    /// The collection's own lesson grouping.
    pub category: String,
}

/// Stage 1: what the PBN actually contains. No solves.
#[derive(Debug)]
pub struct StructuralInfo {
    /// The `[Contract]` tag text, present only when the PBN designates one.
    pub contract: Option<String>,
    pub contract_provenance: ContractProvenance,
    pub auction: AuctionInfo,
    pub play: bool,
    pub commentary: Commentary,
    /// Non-standard tag names present on the deal.
    pub custom_tags: Vec<String>,
}

/// How the analyzed contract was obtained.
#[derive(Clone, Copy, PartialEq, Eq, Debug, Structural)]
pub enum ContractProvenance {
    /// A `[Contract]` tag was present.
    Explicit,
    /// No `[Contract]`, but derived from the auction's final call.
    Inferred,
    /// No `[Contract]` and none derivable: contract analysis is skipped.
    Missing,
}

/// Cheap auction-complexity proxies.
#[derive(Clone, Copy, PartialEq, Eq, Debug, Structural)]
pub struct AuctionInfo {
    pub present: bool,
    /// Number of contract bids.
    pub bids: u8,
    /// Both partnerships made a contract bid.
    pub contested: bool,
    /// Number of doubles and redoubles.
    pub doubles: u8,
    /// The final contract is doubled or redoubled.
    pub double_of_final: bool,
    /// Number of bids above 3NT other than the games 4H, 4S, 5C, 5D.
    pub high_bids: u8,
}

impl AuctionInfo {
    /// The proxies of a deal without an auction.
    pub fn absent() -> (a: AuctionInfo)
        ensures
            a == (AuctionInfo {
                present: false,
                bids: 0,
                contested: false,
                doubles: 0,
                double_of_final: false,
                high_bids: 0,
            }),
    {
        AuctionInfo {
            present: false,
            bids: 0,
            contested: false,
            doubles: 0,
            double_of_final: false,
            high_bids: 0,
        }
    }
}

/// Commentary presence and style.
#[derive(Debug)]
pub struct Commentary {
    pub present: bool,
    /// "inline" when present; absent when there is no commentary.
    pub style: Option<String>,
}

/// Stage 2: baseline double-dummy facts (one full solve per deal).
#[derive(Debug)]
pub struct Baseline {
    pub dd_table: DdTable,
    /// Competitive par, as the solver reports it.
    pub par: Option<Par>,
    /// Facts about the designated contract, when one is present or inferable.
    pub contract: Option<ContractFacts>,
}

/// Par result: optimum score and a description of the par contract(s).
#[derive(Debug)]
pub struct Par {
    pub optimum_score: i32,
    pub contract: Option<String>,
}

/// Double-dummy facts for the designated contract.
#[derive(Debug)]
pub struct ContractFacts {
    /// The effective contract analyzed, e.g. "4H by S".
    pub contract: String,
    pub provenance: ContractProvenance,
    /// Double-dummy tricks declarer takes in the contract strain.
    pub dd_tricks: u8,
    /// Tricks required to make (level + 6).
    pub required: u8,
    pub dd_makes: bool,
    /// `dd_tricks - required` (negative when the contract goes down).
    pub slack: i32,
    /// Whether the result changes if the partner declares the same strain.
    pub declarer_seat_sensitive: bool,
}

/// 20-entry double-dummy table: `tricks[declarer][strain]`, declarer in
/// N, E, S, W order and strain in C, D, H, S, NT order.
#[derive(Clone, Copy, Debug)]
pub struct DdTable {
    pub tricks: [[u8; 5]; 4],
}

/// Strain index C=0, D=1, H=2, S=3, NT=4.
pub open spec fn strain_index_spec(s: Strain) -> int {
    match s {
        Strain::Clubs => 0,
        Strain::Diamonds => 1,
        Strain::Hearts => 2,
        Strain::Spades => 3,
        Strain::NoTrump => 4,
    }
}

/// Table entry for a declarer and strain.
pub open spec fn dd_get(t: DdTable, declarer: Direction, strain: Strain) -> u8 {
    t.tricks@[dir_index_spec(declarer)]@[strain_index_spec(strain)]
}

/// Fixed declarer index: N, E, S, W.
pub fn dir_index(d: Direction) -> (i: usize)
    ensures
        i as int == dir_index_spec(d),
        i < 4,
{
    match d {
        Direction::North => 0,
        Direction::East => 1,
        Direction::South => 2,
        Direction::West => 3,
    }
}

/// Fixed strain index: C, D, H, S, NT.
pub fn strain_index(s: Strain) -> (i: usize)
    ensures
        i as int == strain_index_spec(s),
        i < 5,
{
    match s {
        Strain::Clubs => 0,
        Strain::Diamonds => 1,
        Strain::Hearts => 2,
        Strain::Spades => 3,
        Strain::NoTrump => 4,
    }
}

impl DdTable {
    /// Tricks the declarer takes double-dummy in the strain.
    pub fn get(&self, declarer: Direction, strain: Strain) -> (t: u8)
        ensures
            t == dd_get(*self, declarer, strain),
    {
        let row = self.tricks[dir_index(declarer)];
        row[strain_index(strain)]
    }
}

/// Stage 3: cash-out check and ladder level, present when a contract is
/// analyzed.
#[derive(Clone, Copy, PartialEq, Eq, Debug, Structural)]
pub struct Cardplay {
    /// Immediate top winners for declarer's side.
    pub immediate_winners: u8,
    pub required: u8,
    /// Ladder level 0, 1 or 2; absent when unclassified or the contract
    /// goes down double-dummy.
    pub difficulty: Option<u8>,
}

/// What a perturbation changed.
#[derive(Clone, Copy, PartialEq, Eq, Debug, Structural)]
pub enum FlipCause {
    /// A key honor was moved to the other defender.
    Finesse { suit: Suit, honor: Rank },
    /// The short trump hand's lowest trump was moved to its partner.
    Ruff { trump: Suit },
}

/// Evidence of one perturbation that turned a making contract into a
/// failing one.
#[derive(Clone, Copy, PartialEq, Eq, Debug, Structural)]
pub struct FlipEvidence {
    pub cause: FlipCause,
    /// Declarer's double-dummy tricks before the perturbation.
    pub baseline: u8,
    /// Declarer's double-dummy tricks after it.
    pub perturbed: u8,
}

/// Stage 4: one entry per probe run.
#[derive(Debug)]
pub struct ProbeRecord {
    pub name: String,
    pub fired: bool,
    /// The flipping perturbations (empty when the probe did not fire).
    pub flips: Vec<FlipEvidence>,
}

/// Tool and ladder versions stamped into each record.
#[derive(Debug)]
pub struct Versions {
    pub tool: String,
    pub ladder: u32,
}

/// Tool version stamped into every record.
pub const TOOL_VERSION: &'static str = "0.1.0";

/// Difficulty-ladder version; bumped when ladder or probe logic changes.
pub const LADDER_VERSION: u32 = 1;

/// The tool version text.
pub open spec fn tool_version() -> Seq<char> {
    seq!['0', '.', '1', '.', '0']
}

impl Versions {
    /// The versions of this build.
    pub fn current() -> (v: Versions)
        ensures
            v.tool@ == tool_version(),
            v.ladder == 1,
    {
        proof {
            reveal_strlit("0.1.0");
        }
        let tool = owned(TOOL_VERSION);
        assert(tool@ =~= tool_version());
        Versions { tool, ladder: LADDER_VERSION }
    }
}

} // verus!
