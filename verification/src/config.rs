//! The configuration surface of a run, fixed for its whole duration.
//!
//! Ratios and probabilities are expressed as integer percentages; the
//! mutation sub-action weights must sum to exactly 100.  `ConfigV` is the
//! mathematical view of a configuration, and every spec function of the
//! search is a pure function of it, which is what makes a whole run
//! reproducible from its seed.

use vstd::prelude::*;

use crate::bf::OverflowPolicy;

verus! {

/// The inert filler symbol: a no-op gene that deletion mutations leave
/// behind and that is stripped from rendered program text.
pub const FILLER_GENE: char = ' ';

/// The largest length (of a target, a program output, or an instruction
/// budget) the library works with; keeps every byte-distance sum far
/// below the 64-bit range.
pub const MAX_MEASURED_LEN: u64 = 0x10_0000_0000_0000;

/// How the parents of a breeding step are chosen.
#[derive(Clone, Copy, PartialEq, Eq, Structural, Debug)]
pub enum SelectionStrategy {
    /// Draw two distinct parent indices uniformly from the best
    /// `breed_percent` portion of the ranked population.
    RankWindow { breed_percent: u64 },
    /// For each parent slot, sample `size` individuals uniformly from the
    /// whole population and keep the fittest.
    Tournament { size: u64 },
}

/// The mathematical view of a configuration.
pub struct ConfigV {
    pub target: Seq<u8>,
    pub alphabet: Seq<char>,
    pub population_size: usize,
    pub elitism_percent: u64,
    pub mutation_percent: u64,
    pub remove_percent: u64,
    pub insert_percent: u64,
    pub modify_percent: u64,
    pub strategy: SelectionStrategy,
    pub initial_program_length: usize,
    pub instr_limit: u64,
    pub tape_size: usize,
    pub policy: OverflowPolicy,
}

impl ConfigV {
    /// Well-formedness: non-degenerate sizes, percentages in range, and
    /// the mutation weights summing to 100.
    pub open spec fn wf(self) -> bool {
        &&& self.target.len() <= MAX_MEASURED_LEN
        &&& self.alphabet.len() >= 1
        &&& 2 <= self.population_size <= MAX_MEASURED_LEN
        &&& self.elitism_percent <= 100
        &&& self.mutation_percent <= 100
        &&& self.remove_percent + self.insert_percent + self.modify_percent == 100
        &&& match self.strategy {
            SelectionStrategy::RankWindow { breed_percent } => 1 <= breed_percent <= 100,
            SelectionStrategy::Tournament { size } => size >= 1,
        }
        &&& self.initial_program_length >= 1
        &&& 1 <= self.instr_limit <= MAX_MEASURED_LEN
        &&& self.tape_size >= 1
    }
}

/// One run's configuration: target string, alphabet composition, sizes,
/// rates and the engine's execution limits.
pub struct Config {
    /// The byte string the search tries to reproduce.
    pub target: Vec<u8>,
    /// The operator alphabet random genes are drawn from; operators may
    /// repeat to bias their frequency, and the filler symbol may appear.
    pub alphabet: Vec<char>,
    /// The number of individuals in every generation.
    pub population_size: usize,
    /// The share of the ranked population copied verbatim into the next
    /// generation, as a percentage.
    pub elitism_percent: u64,
    /// The probability that one gene position mutates, as a percentage.
    pub mutation_percent: u64,
    /// The weight of the deletion action among mutations.
    pub remove_percent: u64,
    /// The weight of the insertion action among mutations.
    pub insert_percent: u64,
    /// The weight of the replacement action among mutations.
    pub modify_percent: u64,
    /// How parents are picked for breeding.
    pub strategy: SelectionStrategy,
    /// The length of the random chromosomes of the initial population.
    pub initial_program_length: usize,
    /// The engine's per-execution instruction budget.
    pub instr_limit: u64,
    /// The number of cells on the engine's tape.
    pub tape_size: usize,
    /// What happens when a cell leaves its 8-bit range.
    pub policy: OverflowPolicy,
}

impl View for Config {
    type V = ConfigV;

    open spec fn view(&self) -> ConfigV {
        ConfigV {
            target: self.target@,
            alphabet: self.alphabet@,
            population_size: self.population_size,
            elitism_percent: self.elitism_percent,
            mutation_percent: self.mutation_percent,
            remove_percent: self.remove_percent,
            insert_percent: self.insert_percent,
            modify_percent: self.modify_percent,
            strategy: self.strategy,
            initial_program_length: self.initial_program_length,
            instr_limit: self.instr_limit,
            tape_size: self.tape_size,
            policy: self.policy,
        }
    }
}

impl Config {
    /// Decides well-formedness at run time, so that unverified callers
    /// can reject a bad configuration before entering the search.
    pub fn check_valid(&self) -> (r: bool)
        ensures
            r == self@.wf(),
    {
        let strategy_ok: bool = match self.strategy {
            SelectionStrategy::RankWindow { breed_percent } => 1 <= breed_percent
                && breed_percent <= 100,
            SelectionStrategy::Tournament { size } => size >= 1,
        };
        let weights_ok: bool = self.remove_percent <= 100 && self.insert_percent <= 100
            && self.modify_percent <= 100
            && self.remove_percent + self.insert_percent + self.modify_percent == 100;
        (self.target.len() as u64) <= MAX_MEASURED_LEN && self.alphabet.len() >= 1
            && 2 <= self.population_size && (self.population_size as u64) <= MAX_MEASURED_LEN
            && self.elitism_percent <= 100 && self.mutation_percent <= 100 && weights_ok
            && strategy_ok && self.initial_program_length >= 1 && 1 <= self.instr_limit
            && self.instr_limit <= MAX_MEASURED_LEN && self.tape_size >= 1
    }
}

} // verus!
