//! The evolutionary search: random chromosomes, mutation, crossover,
//! selection and the generation loop.
//!
//! Every function that draws randomness threads an explicit
//! `Wyhash64RNG` handle, and its exact result — including the state the
//! generator is left in — is pinned down by a spec function of the
//! configuration view, the inputs and the incoming state.  A whole run is
//! therefore a pure function of its seed and configuration, which is
//! what the reproducibility law at the end of this module states.

use vstd::prelude::*;

use crate::config::{Config, ConfigV, SelectionStrategy, FILLER_GENE};
use crate::population::{
    Individual,
    IndividualV,
    pop_view,
    pop_ok,
    spec_individual,
    spec_rank,
    sort_by_fitness,
    sorted_by_fitness,
    lemma_rank_multiset,
    lemma_rank_sorted,
    lemma_sorted_head_minimal,
};
use crate::rand::{Wyhash64RNG, wy_next, wy_range};

verus! {

/// One uniform draw from the alphabet: the drawn gene and the state the
/// draw leaves behind.
pub open spec fn spec_random_gene(alphabet: Seq<char>, s: u64) -> (char, u64)
    recommends
        alphabet.len() >= 1,
{
    (alphabet[wy_range(s, 0, (alphabet.len() - 1) as u64) as int], wy_next(s))
}

/// Draws one gene uniformly from the alphabet; repeated operators bias
/// their frequency.
pub fn random_gene(rng: &mut Wyhash64RNG, alphabet: &Vec<char>) -> (g: char)
    requires
        alphabet@.len() >= 1,
    ensures
        (g, final(rng)@) == spec_random_gene(alphabet@, old(rng)@),
{
    let idx: usize = rng.gen_in_size(alphabet.len());
    alphabet[idx]
}

/// Extends `acc` by `remaining` uniform draws from the alphabet.
pub open spec fn spec_random_chromosome_from(
    alphabet: Seq<char>,
    acc: Seq<char>,
    s: u64,
    remaining: nat,
) -> (Seq<char>, u64)
    decreases remaining,
{
    if remaining == 0 {
        (acc, s)
    } else {
        let (g, s1) = spec_random_gene(alphabet, s);
        spec_random_chromosome_from(alphabet, acc.push(g), s1, (remaining - 1) as nat)
    }
}

/// A fresh random chromosome of the configured initial length.
pub open spec fn spec_random_chromosome(cfg: ConfigV, s: u64) -> (Seq<char>, u64) {
    spec_random_chromosome_from(
        cfg.alphabet,
        Seq::empty(),
        s,
        cfg.initial_program_length as nat,
    )
}

/// The draws add exactly `remaining` genes.
proof fn lemma_random_chromosome_len(alphabet: Seq<char>, acc: Seq<char>, s: u64, remaining: nat)
    ensures
        spec_random_chromosome_from(alphabet, acc, s, remaining).0.len() == acc.len() + remaining,
    decreases remaining,
{
    if remaining > 0 {
        let (g, s1) = spec_random_gene(alphabet, s);
        lemma_random_chromosome_len(alphabet, acc.push(g), s1, (remaining - 1) as nat);
    }
}

/// Builds a random chromosome of the configured initial length.
pub fn random_chromosome(rng: &mut Wyhash64RNG, cfg: &Config) -> (chr: Vec<char>)
    requires
        cfg@.wf(),
    ensures
        (chr@, final(rng)@) == spec_random_chromosome(cfg@, old(rng)@),
        chr@.len() == cfg@.initial_program_length,
{
    let n: usize = cfg.initial_program_length;
    let mut chr: Vec<char> = Vec::new();
    let mut i: usize = 0;
    proof {
        lemma_random_chromosome_len(cfg@.alphabet, Seq::empty(), old(rng)@, n as nat);
        assert(chr@ =~= Seq::<char>::empty());
    }
    while i < n
        invariant
            i <= n,
            cfg@.wf(),
            n == cfg@.initial_program_length,
            chr@.len() == i,
            spec_random_chromosome(cfg@, old(rng)@) == spec_random_chromosome_from(
                cfg@.alphabet,
                chr@,
                rng@,
                (n - i) as nat,
            ),
        decreases n - i,
    {
        let g: char = random_gene(rng, &cfg.alphabet);
        chr.push(g);
        i = i + 1;
    }
    proof {
        lemma_random_chromosome_len(cfg@.alphabet, Seq::empty(), old(rng)@, n as nat);
    }
    chr
}

/// One pass of per-gene mutation over the positions `i..end` of `chr`:
/// each position mutates with the configured probability, and a mutation
/// deletes (blanks to the filler), inserts a fresh gene before the
/// position, or replaces it, by the configured weights.
pub open spec fn spec_mutate_from(
    cfg: ConfigV,
    chr: Seq<char>,
    s: u64,
    i: nat,
    end: nat,
) -> (Seq<char>, u64)
    decreases end - i,
{
    if i >= end {
        (chr, s)
    } else {
        let p = wy_range(s, 0, 100);
        let s1 = wy_next(s);
        if p > cfg.mutation_percent {
            spec_mutate_from(cfg, chr, s1, (i + 1) as nat, end)
        } else {
            let m = wy_range(s1, 0, 100);
            let s2 = wy_next(s1);
            if m <= cfg.remove_percent {
                spec_mutate_from(cfg, chr.update(i as int, FILLER_GENE), s2, (i + 1) as nat, end)
            } else if m <= cfg.remove_percent + cfg.insert_percent {
                let (g, s3) = spec_random_gene(cfg.alphabet, s2);
                spec_mutate_from(cfg, chr.insert(i as int, g), s3, (i + 1) as nat, end)
            } else {
                let (g, s3) = spec_random_gene(cfg.alphabet, s2);
                spec_mutate_from(cfg, chr.update(i as int, g), s3, (i + 1) as nat, end)
            }
        }
    }
}

/// One mutation pass over a whole chromosome.
pub open spec fn spec_mutate(cfg: ConfigV, chr: Seq<char>, s: u64) -> (Seq<char>, u64) {
    spec_mutate_from(cfg, chr, s, 0, chr.len())
}

/// Mutation never shrinks a chromosome: deletions blank genes in place
/// and insertions grow it.
proof fn lemma_mutate_len(cfg: ConfigV, chr: Seq<char>, s: u64, i: nat, end: nat)
    requires
        end <= chr.len(),
    ensures
        spec_mutate_from(cfg, chr, s, i, end).0.len() >= chr.len(),
    decreases end - i,
{
    if i < end {
        let p = wy_range(s, 0, 100);
        let s1 = wy_next(s);
        if p > cfg.mutation_percent {
            lemma_mutate_len(cfg, chr, s1, (i + 1) as nat, end);
        } else {
            let m = wy_range(s1, 0, 100);
            let s2 = wy_next(s1);
            if m <= cfg.remove_percent {
                lemma_mutate_len(cfg, chr.update(i as int, FILLER_GENE), s2, (i + 1) as nat, end);
            } else if m <= cfg.remove_percent + cfg.insert_percent {
                let (g, s3) = spec_random_gene(cfg.alphabet, s2);
                lemma_mutate_len(cfg, chr.insert(i as int, g), s3, (i + 1) as nat, end);
            } else {
                let (g, s3) = spec_random_gene(cfg.alphabet, s2);
                lemma_mutate_len(cfg, chr.update(i as int, g), s3, (i + 1) as nat, end);
            }
        }
    }
}

/// Applies one per-gene mutation pass to the chromosome in place.  The
/// pass walks the positions the chromosome had on entry; an insertion
/// shifts the walked region one step right, so the freshly inserted gene
/// itself is never revisited.
pub fn mutate(rng: &mut Wyhash64RNG, chr: &mut Vec<char>, cfg: &Config)
    requires
        cfg@.wf(),
    ensures
        (final(chr)@, final(rng)@) == spec_mutate(cfg@, old(chr)@, old(rng)@),
        final(chr)@.len() >= old(chr)@.len(),
{
    let end: usize = chr.len();
    let mut i: usize = 0;
    proof {
        lemma_mutate_len(cfg@, old(chr)@, old(rng)@, 0, end as nat);
    }
    while i < end
        invariant
            i <= end,
            cfg@.wf(),
            chr@.len() >= end,
            spec_mutate(cfg@, old(chr)@, old(rng)@) == spec_mutate_from(
                cfg@,
                chr@,
                rng@,
                i as nat,
                end as nat,
            ),
        decreases end - i,
    {
        let p: u64 = rng.gen_percent();
        if p <= cfg.mutation_percent {
            let m: u64 = rng.gen_percent();
            if m <= cfg.remove_percent {
                chr.set(i, FILLER_GENE);
            } else if m <= cfg.remove_percent + cfg.insert_percent {
                let g: char = random_gene(rng, &cfg.alphabet);
                chr.insert(i, g);
            } else {
                let g: char = random_gene(rng, &cfg.alphabet);
                chr.set(i, g);
            }
        }
        i = i + 1;
    }
}

/// Single-point crossover.  The shorter parent supplies the prefix role
/// deterministically; the cut is drawn uniformly below the shorter
/// length.  The first child is the shorter parent's prefix joined to the
/// longer parent's suffix (so it carries the longer parent's tail
/// verbatim); the second child swaps the donor roles.
pub open spec fn spec_cross(x: Seq<char>, y: Seq<char>, s: u64) -> (Seq<char>, Seq<char>, u64)
    recommends
        x.len() >= 1,
        y.len() >= 1,
{
    let sm = if x.len() < y.len() {
        x
    } else {
        y
    };
    let lg = if x.len() < y.len() {
        y
    } else {
        x
    };
    let cut = wy_range(s, 0, (sm.len() - 1) as u64) as int;
    (sm.take(cut) + lg.skip(cut), lg.take(cut) + sm.skip(cut), wy_next(s))
}

/// Breeding two chromosomes: crossover, one mutation pass per child, and
/// the evaluation of both children.  Opaque: reveal it where the
/// children themselves matter.
#[verifier::opaque]
pub open spec fn spec_mate(cfg: ConfigV, x: Seq<char>, y: Seq<char>, s: u64) -> (
    IndividualV,
    IndividualV,
    u64,
)
    recommends
        x.len() >= 1,
        y.len() >= 1,
{
    let (c1, c2, s1) = spec_cross(x, y, s);
    let (c1m, s2) = spec_mutate(cfg, c1, s1);
    let (c2m, s3) = spec_mutate(cfg, c2, s2);
    (spec_individual(cfg, c1m), spec_individual(cfg, c2m), s3)
}

/// Breeds two parents: single-point crossover, a mutation pass over each
/// child, and one evaluation per child.  No cached parent score is ever
/// reused.
pub fn mate(rng: &mut Wyhash64RNG, x: &Individual, y: &Individual, cfg: &Config) -> (children: (
    Individual,
    Individual,
))
    requires
        cfg@.wf(),
        x@.chromosome.len() >= 1,
        y@.chromosome.len() >= 1,
    ensures
        ({
            let (v1, v2, s) = spec_mate(cfg@, x@.chromosome, y@.chromosome, old(rng)@);
            children.0@ == v1 && children.1@ == v2 && final(rng)@ == s
        }),
        children.0@.wf(cfg@),
        children.1@.wf(cfg@),
        children.0@.chromosome.len() >= 1,
        children.1@.chromosome.len() >= 1,
{
    let (smaller, larger): (&Vec<char>, &Vec<char>) = if x.chromosome.len()
        < y.chromosome.len() {
        (&x.chromosome, &y.chromosome)
    } else {
        (&y.chromosome, &x.chromosome)
    };
    let sn: usize = smaller.len();
    let ln: usize = larger.len();
    let crossover: usize = rng.gen_in_size(sn);
    let mut child1_chr: Vec<char> = Vec::new();
    let mut child2_chr: Vec<char> = Vec::new();
    let mut i: usize = 0;
    while i < crossover
        invariant
            i <= crossover,
            crossover < sn,
            sn <= ln,
            sn == smaller@.len(),
            ln == larger@.len(),
            child1_chr@ == smaller@.take(i as int),
            child2_chr@ == larger@.take(i as int),
        decreases crossover - i,
    {
        child1_chr.push(smaller[i]);
        child2_chr.push(larger[i]);
        proof {
            assert(child1_chr@ =~= smaller@.take(i + 1));
            assert(child2_chr@ =~= larger@.take(i + 1));
        }
        i = i + 1;
    }
    while i < sn
        invariant
            crossover <= i <= sn <= ln,
            sn == smaller@.len(),
            ln == larger@.len(),
            child1_chr@ == smaller@.take(crossover as int) + larger@.subrange(
                crossover as int,
                i as int,
            ),
            child2_chr@ == larger@.take(crossover as int) + smaller@.subrange(
                crossover as int,
                i as int,
            ),
        decreases sn - i,
    {
        child1_chr.push(larger[i]);
        child2_chr.push(smaller[i]);
        proof {
            assert(child1_chr@ =~= smaller@.take(crossover as int) + larger@.subrange(
                crossover as int,
                i + 1,
            ));
            assert(child2_chr@ =~= larger@.take(crossover as int) + smaller@.subrange(
                crossover as int,
                i + 1,
            ));
        }
        i = i + 1;
    }
    proof {
        assert(smaller@.subrange(crossover as int, sn as int) == smaller@.skip(crossover as int));
    }
    while i < ln
        invariant
            sn <= i <= ln,
            crossover < sn,
            sn == smaller@.len(),
            ln == larger@.len(),
            child1_chr@ == smaller@.take(crossover as int) + larger@.subrange(
                crossover as int,
                i as int,
            ),
            child2_chr@ == larger@.take(crossover as int) + smaller@.skip(crossover as int),
        decreases ln - i,
    {
        child1_chr.push(larger[i]);
        proof {
            assert(child1_chr@ =~= smaller@.take(crossover as int) + larger@.subrange(
                crossover as int,
                i + 1,
            ));
        }
        i = i + 1;
    }
    proof {
        assert(larger@.subrange(crossover as int, ln as int) == larger@.skip(crossover as int));
        let (c1, c2, s1) = spec_cross(x@.chromosome, y@.chromosome, old(rng)@);
        assert(child1_chr@ == c1);
        assert(child2_chr@ == c2);
        assert(rng@ == s1);
    }
    mutate(rng, &mut child1_chr, cfg);
    mutate(rng, &mut child2_chr, cfg);
    let child1 = Individual::new(child1_chr, cfg);
    let child2 = Individual::new(child2_chr, cfg);
    proof {
        reveal(spec_mate);
    }
    (child1, child2)
}

/// The remaining rounds of a tournament: each round samples one index
/// uniformly and keeps it when it beats the best seen so far.
pub open spec fn spec_tournament_from(
    pop: Seq<IndividualV>,
    rounds: nat,
    best: int,
    s: u64,
) -> (int, u64)
    decreases rounds,
{
    if rounds == 0 {
        (best, s)
    } else {
        let c = wy_range(s, 0, (pop.len() - 1) as u64) as int;
        let s1 = wy_next(s);
        let b = if pop[c].fitness < pop[best].fitness {
            c
        } else {
            best
        };
        spec_tournament_from(pop, (rounds - 1) as nat, b, s1)
    }
}

/// A whole tournament of `k` uniform samples; the fittest sample wins.
pub open spec fn spec_tournament(pop: Seq<IndividualV>, k: u64, s: u64) -> (int, u64)
    recommends
        pop.len() >= 1,
        k >= 1,
{
    let first = wy_range(s, 0, (pop.len() - 1) as u64) as int;
    spec_tournament_from(pop, (k - 1) as nat, first, wy_next(s))
}

/// Samples `k` individuals uniformly from the whole population and
/// returns the index of the fittest of them.
pub fn tournament_select(rng: &mut Wyhash64RNG, population: &Vec<Individual>, k: u64) -> (r: usize)
    requires
        population@.len() >= 1,
        k >= 1,
    ensures
        (r as int, final(rng)@) == spec_tournament(pop_view(population@), k, old(rng)@),
        r < population@.len(),
{
    let n: usize = population.len();
    let mut best: usize = rng.gen_in_size(n);
    let mut t: u64 = 0;
    while t < k - 1
        invariant
            t <= k - 1,
            n == population@.len(),
            n >= 1,
            best < n,
            spec_tournament(pop_view(population@), k, old(rng)@) == spec_tournament_from(
                pop_view(population@),
                (k - 1 - t) as nat,
                best as int,
                rng@,
            ),
        decreases k - 1 - t,
    {
        let candidate: usize = rng.gen_in_size(n);
        proof {
            assert(pop_view(population@)[candidate as int] == population@[candidate as int]@);
            assert(pop_view(population@)[best as int] == population@[best as int]@);
        }
        if population[candidate].fitness < population[best].fitness {
            best = candidate;
        }
        t = t + 1;
    }
    best
}

/// The breeding window of the rank-windowed strategy: the configured
/// share of the ranked population, never fewer than two slots.
pub open spec fn spec_window_size(pop_len: int, breed_percent: u64) -> int {
    let w = pop_len * breed_percent / 100;
    if w < 2 {
        2
    } else {
        w
    }
}

/// Two distinct indices drawn uniformly from `[0, window)`: the second
/// draw picks among the remaining slots and is shifted past the first.
pub open spec fn spec_rank_pair(window: int, s: u64) -> (int, int, u64)
    recommends
        2 <= window <= u64::MAX,
{
    let a = wy_range(s, 0, (window - 1) as u64) as int;
    let s1 = wy_next(s);
    let b0 = wy_range(s1, 0, (window - 2) as u64) as int;
    let s2 = wy_next(s1);
    let b = if b0 >= a {
        b0 + 1
    } else {
        b0
    };
    (a, b, s2)
}

/// Draws two distinct parent indices uniformly from the best `window`
/// slots of a ranked population.
pub fn rank_window_pair(rng: &mut Wyhash64RNG, window: usize) -> (pair: (usize, usize))
    requires
        window >= 2,
    ensures
        ({
            let (a, b, s) = spec_rank_pair(window as int, old(rng)@);
            pair.0 == a && pair.1 == b && final(rng)@ == s
        }),
        pair.0 < window,
        pair.1 < window,
        pair.0 != pair.1,
{
    let a: usize = rng.gen_in_size(window);
    let b0: usize = rng.gen_in_size(window - 1);
    let b: usize = if b0 >= a {
        b0 + 1
    } else {
        b0
    };
    (a, b)
}

/// The elite slice: the number of top-ranked individuals copied verbatim
/// into the next generation, rounding half up.
pub open spec fn spec_num_elite(cfg: ConfigV) -> int {
    (cfg.population_size * cfg.elitism_percent + 50) / 100
}

/// The parent pair one breeding step picks, by the configured strategy.
pub open spec fn spec_pick_parents(cfg: ConfigV, pop: Seq<IndividualV>, s: u64) -> (int, int, u64) {
    match cfg.strategy {
        SelectionStrategy::Tournament { size } => {
            let (i1, s1) = spec_tournament(pop, size, s);
            let (i2, s2) = spec_tournament(pop, size, s1);
            (i1, i2, s2)
        },
        SelectionStrategy::RankWindow { breed_percent } => spec_rank_pair(
            spec_window_size(pop.len() as int, breed_percent),
            s,
        ),
    }
}

/// Fills the accumulator up to the population size by breeding steps:
/// each step picks a parent pair from the ranked population, breeds one
/// or two children, and keeps as many as still fit.
pub open spec fn spec_breed(cfg: ConfigV, pop: Seq<IndividualV>, acc: Seq<IndividualV>, s: u64) -> (
    Seq<IndividualV>,
    u64,
)
    decreases cfg.population_size - acc.len(),
{
    if acc.len() >= cfg.population_size {
        (acc, s)
    } else {
        let (i1, i2, s1) = spec_pick_parents(cfg, pop, s);
        let (c1, c2, s2) = spec_mate(cfg, pop[i1].chromosome, pop[i2].chromosome, s1);
        let acc1 = acc.push(c1);
        let acc2 = if acc1.len() < cfg.population_size {
            acc1.push(c2)
        } else {
            acc1
        };
        spec_breed(cfg, pop, acc2, s2)
    }
}

/// One selection round over a ranked population: the elite slice copied
/// verbatim, the rest bred.
pub open spec fn spec_select(cfg: ConfigV, pop: Seq<IndividualV>, s: u64) -> (
    Seq<IndividualV>,
    u64,
)
    recommends
        pop.len() == cfg.population_size,
{
    spec_breed(cfg, pop, pop.take(spec_num_elite(cfg)), s)
}

/// `spec_breed` keeps the accumulated prefix verbatim and fills the
/// population exactly.
#[verifier::rlimit(60)]
pub proof fn lemma_spec_breed_prefix(
    cfg: ConfigV,
    pop: Seq<IndividualV>,
    acc: Seq<IndividualV>,
    s: u64,
)
    requires
        acc.len() <= cfg.population_size,
    ensures
        spec_breed(cfg, pop, acc, s).0.len() == cfg.population_size,
        forall|i: int|
            0 <= i < acc.len() ==> spec_breed(cfg, pop, acc, s).0[i] == #[trigger] acc[i],
    decreases cfg.population_size - acc.len(),
{
    if acc.len() < cfg.population_size {
        let (i1, i2, s1) = spec_pick_parents(cfg, pop, s);
        let (c1, c2, s2) = spec_mate(cfg, pop[i1].chromosome, pop[i2].chromosome, s1);
        let acc1 = acc.push(c1);
        let acc2 = if acc1.len() < cfg.population_size {
            acc1.push(c2)
        } else {
            acc1
        };
        lemma_spec_breed_prefix(cfg, pop, acc2, s2);
        assert(spec_breed(cfg, pop, acc, s).0 == spec_breed(cfg, pop, acc2, s2).0);
        assert forall|i: int|
            0 <= i < acc.len() implies spec_breed(cfg, pop, acc, s).0[i] == #[trigger] acc[i] by {
            assert(acc2[i] == acc[i]);
        }
    }
}

/// Builds the next generation from a ranked population: the top
/// `spec_num_elite` individuals are copied unmodified, and the remaining
/// slots are filled by breeding under the configured strategy, stepping
/// by one or two children so that the population size is conserved
/// exactly.
#[verifier::rlimit(100)]
pub fn select(rng: &mut Wyhash64RNG, population: &Vec<Individual>, cfg: &Config) -> (next: Vec<
    Individual,
>)
    requires
        cfg@.wf(),
        population@.len() == cfg@.population_size,
        pop_ok(cfg@, pop_view(population@)),
    ensures
        ({
            let (pv, s) = spec_select(cfg@, pop_view(population@), old(rng)@);
            pop_view(next@) == pv && final(rng)@ == s
        }),
        next@.len() == population@.len(),
        pop_ok(cfg@, pop_view(next@)),
        forall|i: int|
            0 <= i < spec_num_elite(cfg@) ==> pop_view(next@)[i] == pop_view(population@)[i],
{
    let ghost popv = pop_view(population@);
    let n: usize = population.len();
    proof {
        assert(n as u64 * cfg.elitism_percent <= n as u64 * 100) by (nonlinear_arith)
            requires
                cfg.elitism_percent <= 100,
                n >= 0,
        ;
    }
    let num_elite: usize = ((n as u64 * cfg.elitism_percent + 50) / 100) as usize;
    proof {
        assert((n as u64 * cfg.elitism_percent + 50) / 100 <= n);
        assert(num_elite == spec_num_elite(cfg@));
    }
    let mut next: Vec<Individual> = Vec::new();
    let mut i: usize = 0;
    proof {
        assert(pop_view(next@) =~= popv.take(0));
    }
    while i < num_elite
        invariant
            i <= num_elite <= n,
            n == population@.len(),
            popv == pop_view(population@),
            next@.len() == i,
            pop_view(next@) == popv.take(i as int),
        decreases num_elite - i,
    {
        let elite = population[i].clone();
        next.push(elite);
        proof {
            assert(pop_view(next@) =~= popv.take(i + 1));
        }
        i = i + 1;
    }
    while next.len() < n
        invariant
            num_elite <= next@.len() <= n,
            num_elite == spec_num_elite(cfg@),
            n == population@.len(),
            n == cfg@.population_size,
            cfg@.wf(),
            popv == pop_view(population@),
            pop_ok(cfg@, popv),
            spec_select(cfg@, popv, old(rng)@) == spec_breed(cfg@, popv, pop_view(next@), rng@),
            forall|j: int| 0 <= j < num_elite ==> pop_view(next@)[j] == popv[j],
            pop_ok(cfg@, pop_view(next@)),
        decreases n - next@.len(),
    {
        let ghost s_entry = rng@;
        let ghost acc = pop_view(next@);
        let (p1, p2): (usize, usize) = match cfg.strategy {
            SelectionStrategy::Tournament { size } => {
                let i1: usize = tournament_select(rng, population, size);
                let i2: usize = tournament_select(rng, population, size);
                proof {
                    let (si1, si2, ss) = spec_pick_parents(cfg@, popv, s_entry);
                    assert(i1 == si1 && i2 == si2 && rng@ == ss);
                }
                (i1, i2)
            },
            SelectionStrategy::RankWindow { breed_percent } => {
                proof {
                    assert((n as u64) * breed_percent <= (n as u64) * 100) by (nonlinear_arith)
                        requires
                            breed_percent <= 100,
                            n >= 0,
                    ;
                }
                let w0: usize = ((n as u64) * breed_percent / 100) as usize;
                let w: usize = if w0 < 2 {
                    2
                } else {
                    w0
                };
                proof {
                    assert(w0 <= n);
                    assert(w == spec_window_size(popv.len() as int, breed_percent));
                    assert(2 <= w <= n);
                }
                let pair = rank_window_pair(rng, w);
                proof {
                    let (si1, si2, ss) = spec_pick_parents(cfg@, popv, s_entry);
                    assert(pair.0 == si1 && pair.1 == si2 && rng@ == ss);
                }
                pair
            },
        };
        proof {
            let (si1, si2, ss) = spec_pick_parents(cfg@, popv, s_entry);
            assert(p1 == si1 && p2 == si2 && rng@ == ss);
            assert(p1 < n && p2 < n);
            assert(population@[p1 as int]@ == popv[p1 as int]);
            assert(population@[p2 as int]@ == popv[p2 as int]);
            assert(popv[p1 as int].chromosome.len() >= 1);
            assert(popv[p2 as int].chromosome.len() >= 1);
        }
        let ghost s_picked = rng@;
        let child_pair = mate(rng, &population[p1], &population[p2], cfg);
        let (child1, child2) = child_pair;
        let ghost before1 = next@;
        next.push(child1);
        proof {
            assert(pop_view(next@) =~= acc.push(child1@));
        }
        if next.len() < n {
            let ghost before2 = next@;
            next.push(child2);
            proof {
                assert(pop_view(next@) =~= acc.push(child1@).push(child2@));
            }
        }
        proof {
            let (si1, si2, ss1) = spec_pick_parents(cfg@, popv, s_entry);
            let (c1, c2, ss2) = spec_mate(cfg@, popv[si1].chromosome, popv[si2].chromosome, ss1);
            assert(child1@ == c1 && child2@ == c2 && rng@ == ss2);
            let acc1 = acc.push(c1);
            let acc2 = if acc1.len() < cfg@.population_size {
                acc1.push(c2)
            } else {
                acc1
            };
            assert(pop_view(next@) == acc2);
            assert(spec_breed(cfg@, popv, acc, s_entry) == spec_breed(cfg@, popv, acc2, ss2));
            assert forall|j: int| 0 <= j < pop_view(next@).len() implies (#[trigger] pop_view(
                next@,
            )[j]).wf(cfg@) && pop_view(next@)[j].chromosome.len() >= 1 by {
                if j < acc.len() {
                    assert(pop_view(next@)[j] == acc[j]);
                }
            }
        }
    }
    proof {
        assert(spec_breed(cfg@, popv, pop_view(next@), rng@) == (pop_view(next@), rng@));
    }
    next
}

/// `pop_ok` carries over to any reordering of the population.
pub proof fn lemma_pop_ok_permutation(cfg: ConfigV, a: Seq<IndividualV>, b: Seq<IndividualV>)
    requires
        pop_ok(cfg, a),
        a.to_multiset() == b.to_multiset(),
    ensures
        pop_ok(cfg, b),
{
    broadcast use vstd::seq_lib::group_to_multiset_ensures;

    assert forall|i: int|
        0 <= i < b.len() implies (#[trigger] b[i]).wf(cfg) && b[i].chromosome.len() >= 1 by {
        assert(b.to_multiset().count(b[i]) > 0);
        assert(a.contains(b[i]));
        let k = choose|k: int| 0 <= k < a.len() && a[k] == b[i];
        assert(a[k].wf(cfg));
    }
}

/// Fills the accumulator up to the population size with freshly drawn,
/// freshly evaluated random chromosomes.
pub open spec fn spec_initial_from(cfg: ConfigV, acc: Seq<IndividualV>, s: u64) -> (
    Seq<IndividualV>,
    u64,
)
    decreases cfg.population_size - acc.len(),
{
    if acc.len() >= cfg.population_size {
        (acc, s)
    } else {
        let (chr, s1) = spec_random_chromosome(cfg, s);
        spec_initial_from(cfg, acc.push(spec_individual(cfg, chr)), s1)
    }
}

/// The initial population: `population_size` random chromosomes, each
/// evaluated once.
pub open spec fn spec_initial(cfg: ConfigV, s: u64) -> (Seq<IndividualV>, u64) {
    spec_initial_from(cfg, Seq::empty(), s)
}

/// Builds the initial population: `population_size` random chromosomes
/// of the configured initial length, each constructed into an evaluated
/// individual.
pub fn initial_population(rng: &mut Wyhash64RNG, cfg: &Config) -> (population: Vec<Individual>)
    requires
        cfg@.wf(),
    ensures
        ({
            let (pv, s) = spec_initial(cfg@, old(rng)@);
            pop_view(population@) == pv && final(rng)@ == s
        }),
        population@.len() == cfg@.population_size,
        pop_ok(cfg@, pop_view(population@)),
{
    let n: usize = cfg.population_size;
    let mut population: Vec<Individual> = Vec::new();
    proof {
        assert(pop_view(population@) =~= Seq::<IndividualV>::empty());
    }
    while population.len() < n
        invariant
            population@.len() <= n,
            n == cfg@.population_size,
            cfg@.wf(),
            spec_initial(cfg@, old(rng)@) == spec_initial_from(cfg@, pop_view(population@), rng@),
            pop_ok(cfg@, pop_view(population@)),
        decreases n - population@.len(),
    {
        let ghost acc = pop_view(population@);
        let ghost s_entry = rng@;
        let chr = random_chromosome(rng, cfg);
        let ind = Individual::new(chr, cfg);
        population.push(ind);
        proof {
            assert(pop_view(population@) =~= acc.push(ind@));
            let (chrv, s1) = spec_random_chromosome(cfg@, s_entry);
            assert(ind@ == spec_individual(cfg@, chrv));
            assert(ind@.chromosome.len() >= 1);
            assert(spec_initial_from(cfg@, acc, s_entry) == spec_initial_from(
                cfg@,
                acc.push(ind@),
                s1,
            ));
            assert forall|j: int|
                0 <= j < pop_view(population@).len() implies (#[trigger] pop_view(
                population@,
            )[j]).wf(cfg@) && pop_view(population@)[j].chromosome.len() >= 1 by {
                if j < acc.len() {
                    assert(pop_view(population@)[j] == acc[j]);
                }
            }
        }
    }
    population
}

/// The generation cycle from a given population on: rank it, stop when
/// the best fitness is zero or the generation cap is reached, otherwise
/// select and breed the next population and go on.  Returns the final
/// ranked population, the generation index reached, and the generator
/// state left behind.
pub open spec fn spec_evolve_from(
    cfg: ConfigV,
    pop: Seq<IndividualV>,
    s: u64,
    generation: u64,
    max_generations: u64,
) -> (Seq<IndividualV>, u64, u64)
    decreases max_generations - generation,
{
    let ranked = spec_rank(pop);
    if ranked.len() == 0 || ranked[0].fitness == 0 || generation >= max_generations {
        (ranked, generation, s)
    } else {
        let (next, s1) = spec_select(cfg, ranked, s);
        spec_evolve_from(cfg, next, s1, (generation + 1) as u64, max_generations)
    }
}

/// A whole run: an initial population from the seed state, then the
/// generation cycle.
pub open spec fn spec_evolve(cfg: ConfigV, seed_state: u64, max_generations: u64) -> (
    Seq<IndividualV>,
    u64,
    u64,
) {
    let (pop0, s1) = spec_initial(cfg, seed_state);
    spec_evolve_from(cfg, pop0, s1, 0, max_generations)
}

/// Runs the evolution loop: an initial random population, then cycles of
/// ranking, elitist selection and breeding, until the best individual
/// scores zero or `max_generations` generations have bred.  Returns the
/// final population, ranked, together with the index of the generation
/// it belongs to; a generation index below the cap means the best
/// individual solved the target exactly.
pub fn run_evolution(rng: &mut Wyhash64RNG, cfg: &Config, max_generations: u64) -> (r: (
    Vec<Individual>,
    u64,
))
    requires
        cfg@.wf(),
    ensures
        ({
            let (pv, gens, s) = spec_evolve(cfg@, old(rng)@, max_generations);
            pop_view(r.0@) == pv && r.1 == gens && final(rng)@ == s
        }),
        r.0@.len() == cfg@.population_size,
        pop_ok(cfg@, pop_view(r.0@)),
        sorted_by_fitness(pop_view(r.0@)),
        r.1 <= max_generations,
        r.1 < max_generations ==> pop_view(r.0@)[0].fitness == 0,
{
    let mut population = initial_population(rng, cfg);
    let mut generation: u64 = 0;
    loop
        invariant_except_break
            cfg@.wf(),
            population@.len() == cfg@.population_size,
            pop_ok(cfg@, pop_view(population@)),
            generation <= max_generations,
            spec_evolve(cfg@, old(rng)@, max_generations) == spec_evolve_from(
                cfg@,
                pop_view(population@),
                rng@,
                generation,
                max_generations,
            ),
        ensures
            population@.len() == cfg@.population_size,
            pop_ok(cfg@, pop_view(population@)),
            sorted_by_fitness(pop_view(population@)),
            generation <= max_generations,
            generation < max_generations ==> pop_view(population@)[0].fitness == 0,
            spec_evolve(cfg@, old(rng)@, max_generations) == (
                pop_view(population@),
                generation,
                rng@,
            ),
        decreases max_generations - generation,
    {
        let ghost pre = pop_view(population@);
        let ghost s_entry = rng@;
        sort_by_fitness(&mut population);
        proof {
            lemma_pop_ok_permutation(cfg@, pre, pop_view(population@));
            assert(pop_view(population@)[0] == population@[0]@);
        }
        if population[0].fitness == 0 {
            break;
        }
        if generation == max_generations {
            break;
        }
        let next = select(rng, &population, cfg);
        population = next;
        generation = generation + 1;
        proof {
            assert(spec_evolve_from(cfg@, pre, s_entry, (generation - 1) as u64, max_generations)
                == spec_evolve_from(
                cfg@,
                pop_view(population@),
                rng@,
                generation,
                max_generations,
            ));
        }
    }
    (population, generation)
}

/// The elitism guarantee: when at least one elite slot is copied, the
/// best fitness of the next generation's ranking is never worse than the
/// best of the current ranked generation.
pub proof fn lemma_elitism_preserves_best(cfg: ConfigV, prev: Seq<IndividualV>, s: u64)
    requires
        cfg.wf(),
        sorted_by_fitness(prev),
        prev.len() == cfg.population_size,
        spec_num_elite(cfg) >= 1,
    ensures
        ({
            let (next, s1) = spec_select(cfg, prev, s);
            spec_rank(next).len() == cfg.population_size && spec_rank(next)[0].fitness
                <= prev[0].fitness
        }),
{
    let ne = spec_num_elite(cfg);
    assert(cfg.population_size * cfg.elitism_percent <= cfg.population_size * 100)
        by (nonlinear_arith)
        requires
            cfg.elitism_percent <= 100,
            cfg.population_size >= 0,
    ;
    assert(ne <= cfg.population_size);
    let acc = prev.take(ne);
    lemma_spec_breed_prefix(cfg, prev, acc, s);
    let (next, s1) = spec_select(cfg, prev, s);
    assert(next == spec_breed(cfg, prev, acc, s).0);
    assert(next[0] == acc[0]);
    assert(acc[0] == prev[0]);
    lemma_rank_multiset(next);
    lemma_rank_sorted(next);
    lemma_sorted_head_minimal(spec_rank(next), next, 0);
}

/// Reproducibility: a run is a pure function of its configuration view,
/// its seed state and its generation cap, so two runs with identical
/// seeds and identical configurations produce identical generation
/// sequences and identical final populations.  `run_evolution` returns
/// exactly this function's value, and every step of the pipeline is
/// pinned to a spec function in the same way.
pub proof fn lemma_run_reproducible(
    cfg1: ConfigV,
    cfg2: ConfigV,
    seed1: u64,
    seed2: u64,
    max1: u64,
    max2: u64,
)
    requires
        cfg1 == cfg2,
        seed1 == seed2,
        max1 == max2,
    ensures
        spec_evolve(cfg1, seed1, max1) == spec_evolve(cfg2, seed2, max2),
{
}

} // verus!