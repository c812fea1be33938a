//! Individuals and populations.
//!
//! An `Individual` binds a candidate program to the cached result of its
//! one execution and to its fitness score; it is constructed once and
//! never edited.  A population is a vector of individuals; ranking it
//! sorts by ascending fitness with a stable insertion sort, whose exact
//! result is the spec function `spec_rank`.

use vstd::prelude::*;

use crate::bf::{
    interpret_brainfuck,
    interp_spec,
    res_view,
    effective_budget,
    init_state,
    lemma_run_from_bounds,
    BfErr,
};
use crate::config::{Config, ConfigV, MAX_MEASURED_LEN};
use crate::fitness::{
    byte_at,
    fitness,
    lemma_fitness_zero,
    lemma_result_fitness_bound,
    spec_fitness,
    BAD_PROGRAM_PENALTY,
};

verus! {

/// The mathematical view of an individual.
pub struct IndividualV {
    pub chromosome: Seq<char>,
    pub bf_result: Result<(Seq<u8>, nat), BfErr>,
    pub fitness: u64,
}

/// A candidate program together with its cached execution result and
/// fitness score.  Any edit produces a new `Individual`.
pub struct Individual {
    /// The program text, as a sequence of genes.
    pub chromosome: Vec<char>,
    /// What one execution of the chromosome produced.
    pub bf_result: Result<(Vec<u8>, u64), BfErr>,
    /// The chromosome's score; lower is better, 0 is a perfect solution.
    pub fitness: u64,
}

impl View for Individual {
    type V = IndividualV;

    open spec fn view(&self) -> IndividualV {
        IndividualV {
            chromosome: self.chromosome@,
            bf_result: res_view(self.bf_result),
            fitness: self.fitness,
        }
    }
}

impl DeepView for Individual {
    type V = IndividualV;

    open spec fn deep_view(&self) -> IndividualV {
        self.view()
    }
}

/// The views of a population's individuals, in order.
pub open spec fn pop_view(s: Seq<Individual>) -> Seq<IndividualV> {
    Seq::new(s.len(), |i: int| s[i]@)
}

/// The individual a chromosome gives rise to under a configuration: its
/// execution result and its fitness, both pure functions of the
/// chromosome.  Opaque: reveal it where the result or the score itself
/// matters.
#[verifier::opaque]
pub open spec fn spec_individual(cfg: ConfigV, chr: Seq<char>) -> IndividualV {
    IndividualV {
        chromosome: chr,
        bf_result: interp_spec(
            chr,
            cfg.policy,
            cfg.tape_size as nat,
            effective_budget(cfg.instr_limit),
        ),
        fitness: spec_fitness(cfg, chr) as u64,
    }
}

impl IndividualV {
    /// Consistency with the configuration: the cached result and score
    /// are the ones the chromosome's execution yields.
    pub open spec fn wf(self, cfg: ConfigV) -> bool {
        self == spec_individual(cfg, self.chromosome)
    }
}

/// Every individual of the population is consistent with the
/// configuration and holds a non-empty chromosome.
pub open spec fn pop_ok(cfg: ConfigV, pop: Seq<IndividualV>) -> bool {
    forall|i: int|
        0 <= i < pop.len() ==> (#[trigger] pop[i]).wf(cfg) && pop[i].chromosome.len() >= 1
}

impl Individual {
    /// Builds an individual from a chromosome: runs it once under the
    /// configured limits, caches the result and scores it.
    pub fn new(chromosome: Vec<char>, cfg: &Config) -> (r: Individual)
        requires
            cfg@.wf(),
        ensures
            r@ == spec_individual(cfg@, chromosome@),
            r@.wf(cfg@),
            r@.chromosome == chromosome@,
    {
        let bf_result = interpret_brainfuck(
            &chromosome,
            cfg.instr_limit,
            cfg.tape_size,
            cfg.policy,
        );
        proof {
            reveal(spec_individual);
            lemma_result_fitness_bound(cfg@, res_view(bf_result));
        }
        let fit: u64 = fitness(&chromosome, &bf_result, cfg);
        Individual { chromosome, bf_result, fitness: fit }
    }
}

impl Clone for Individual {
    /// An exact copy: the clone has the same view as the original.
    fn clone(&self) -> (res: Individual)
        ensures
            res@ == self@,
    {
        let chromosome = self.chromosome.clone();
        let bf_result: Result<(Vec<u8>, u64), BfErr> = match &self.bf_result {
            Ok((o, n)) => Ok((o.clone(), *n)),
            Err(e) => Err(*e),
        };
        proof {
            assert(chromosome@ =~= self.chromosome@);
            match (&self.bf_result, &bf_result) {
                (Ok((o, n)), Ok((o2, n2))) => {
                    assert(o2@ =~= o@);
                    assert(res_view(bf_result) == res_view(self.bf_result));
                },
                _ => {},
            }
        }
        Individual { chromosome, bf_result, fitness: self.fitness }
    }
}

/// Ascending fitness order.
pub open spec fn sorted_by_fitness(s: Seq<IndividualV>) -> bool {
    forall|i: int, j: int|
        #![trigger s[i], s[j]]
        0 <= i < j < s.len() ==> s[i].fitness <= s[j].fitness
}

/// Where a stable ranked insertion puts `x`: after every element it ties
/// with, before every strictly worse one.
pub open spec fn spec_insert_ranked(s: Seq<IndividualV>, x: IndividualV) -> Seq<IndividualV>
    decreases s.len(),
{
    if s.len() == 0 || s.last().fitness <= x.fitness {
        s.push(x)
    } else {
        spec_insert_ranked(s.drop_last(), x).push(s.last())
    }
}

/// The ranking of a population: its individuals in ascending fitness
/// order, equal scores keeping their relative order.
pub open spec fn spec_rank(s: Seq<IndividualV>) -> Seq<IndividualV>
    decreases s.len(),
{
    if s.len() == 0 {
        Seq::empty()
    } else {
        spec_insert_ranked(spec_rank(s.drop_last()), s.last())
    }
}

/// A ranked insertion adds exactly one element to the multiset and one to
/// the length.
pub proof fn lemma_insert_ranked_multiset(s: Seq<IndividualV>, x: IndividualV)
    ensures
        spec_insert_ranked(s, x).to_multiset() == s.to_multiset().insert(x),
        spec_insert_ranked(s, x).len() == s.len() + 1,
    decreases s.len(),
{
    broadcast use vstd::seq_lib::group_to_multiset_ensures;

    if s.len() == 0 || s.last().fitness <= x.fitness {
    } else {
        lemma_insert_ranked_multiset(s.drop_last(), x);
        assert(s.drop_last().push(s.last()) =~= s);
        assert(spec_insert_ranked(s.drop_last(), x).push(s.last()).to_multiset()
            == spec_insert_ranked(s.drop_last(), x).to_multiset().insert(s.last()));
        assert(s.drop_last().to_multiset().insert(x).insert(s.last()) == s.drop_last()
            .to_multiset().insert(s.last()).insert(x)) by {
            assert(s.drop_last().to_multiset().insert(x).insert(s.last()) =~= s.drop_last()
                .to_multiset().insert(s.last()).insert(x));
        }
    }
}

/// A ranked insertion into a sorted sequence keeps it sorted.
pub proof fn lemma_insert_ranked_sorted(s: Seq<IndividualV>, x: IndividualV)
    requires
        sorted_by_fitness(s),
    ensures
        sorted_by_fitness(spec_insert_ranked(s, x)),
    decreases s.len(),
{
    if s.len() == 0 || s.last().fitness <= x.fitness {
    } else {
        assert(sorted_by_fitness(s.drop_last())) by {
            assert(forall|i: int|
                0 <= i < s.len() - 1 ==> s.drop_last()[i].fitness == s[i].fitness);
        }
        lemma_insert_ranked_sorted(s.drop_last(), x);
        lemma_insert_ranked_multiset(s.drop_last(), x);
        let t = spec_insert_ranked(s.drop_last(), x);
        // every element of t is either x or one of the dropped prefix,
        // and both stay at or below the reattached last element
        assert forall|i: int| 0 <= i < t.len() implies t[i].fitness <= s.last().fitness by {
            broadcast use vstd::seq_lib::group_to_multiset_ensures;

            assert(t.to_multiset().count(t[i]) > 0);
            if t[i] == x {
            } else {
                assert(s.drop_last().to_multiset().count(t[i]) > 0);
                assert(s.drop_last().contains(t[i]));
                let k = choose|k: int|
                    0 <= k < s.drop_last().len() && s.drop_last()[k] == t[i];
                assert(s[k] == t[i]);
                assert(s[k].fitness <= s.last().fitness);
            }
        }
    }
}

/// Ranking preserves the population as a multiset, and so its length.
pub proof fn lemma_rank_multiset(s: Seq<IndividualV>)
    ensures
        spec_rank(s).to_multiset() == s.to_multiset(),
        spec_rank(s).len() == s.len(),
    decreases s.len(),
{
    broadcast use vstd::seq_lib::group_to_multiset_ensures;

    if s.len() > 0 {
        lemma_rank_multiset(s.drop_last());
        lemma_insert_ranked_multiset(spec_rank(s.drop_last()), s.last());
        assert(s.drop_last().push(s.last()) =~= s);
    }
}

/// The ranking of any population is sorted.
pub proof fn lemma_rank_sorted(s: Seq<IndividualV>)
    ensures
        sorted_by_fitness(spec_rank(s)),
    decreases s.len(),
{
    if s.len() > 0 {
        lemma_rank_sorted(s.drop_last());
        lemma_insert_ranked_sorted(spec_rank(s.drop_last()), s.last());
    }
}

/// The head of a sorted population scores no worse than any member of
/// any population holding the same individuals.
pub proof fn lemma_sorted_head_minimal(s: Seq<IndividualV>, t: Seq<IndividualV>, i: int)
    requires
        sorted_by_fitness(s),
        s.to_multiset() == t.to_multiset(),
        0 <= i < t.len(),
    ensures
        s.len() == t.len(),
        s.len() > 0,
        s[0].fitness <= t[i].fitness,
{
    broadcast use vstd::seq_lib::group_to_multiset_ensures;

    s.to_multiset_ensures();
    t.to_multiset_ensures();
    assert(s.len() == s.to_multiset().len());
    assert(t.len() == t.to_multiset().len());
    assert(s.to_multiset().len() == t.to_multiset().len());
    assert(t.to_multiset().count(t[i]) > 0);
    assert(s.contains(t[i]));
    let k = choose|k: int| 0 <= k < s.len() && s[k] == t[i];
    assert(s[0].fitness <= s[k].fitness);
}

/// Where the scan of a stable insertion stops, the ranked insertion puts
/// the element.
proof fn lemma_insert_ranked_position(p: Seq<IndividualV>, x: IndividualV, j: int)
    requires
        0 <= j <= p.len(),
        forall|k: int| j <= k < p.len() ==> (#[trigger] p[k]).fitness > x.fitness,
        j == 0 || p[j - 1].fitness <= x.fitness,
    ensures
        spec_insert_ranked(p, x) == p.insert(j, x),
    decreases p.len(),
{
    if j == p.len() {
        assert(p.insert(j, x) =~= p.push(x));
    } else {
        assert(p.last().fitness > x.fitness);
        assert(forall|k: int|
            j <= k < p.drop_last().len() ==> (#[trigger] p.drop_last()[k]).fitness > x.fitness);
        lemma_insert_ranked_position(p.drop_last(), x, j);
        assert(p.drop_last().insert(j, x).push(p.last()) =~= p.insert(j, x));
    }
}

/// Sorts the population by ascending fitness, with a stable insertion
/// sort: the result is exactly `spec_rank` of the input, hence sorted
/// and holding the same individuals.
pub fn sort_by_fitness(population: &mut Vec<Individual>)
    ensures
        pop_view(final(population)@) == spec_rank(pop_view(old(population)@)),
        sorted_by_fitness(pop_view(final(population)@)),
        pop_view(final(population)@).to_multiset() == pop_view(old(population)@).to_multiset(),
        final(population)@.len() == old(population)@.len(),
{
    let ghost orig = pop_view(population@);
    let n: usize = population.len();
    proof {
        lemma_rank_multiset(orig);
        lemma_rank_sorted(orig);
    }
    let mut ranked: Vec<Individual> = Vec::new();
    let mut i: usize = 0;
    proof {
        assert(orig.take(0).len() == 0);
        assert(pop_view(ranked@) =~= spec_rank(orig.take(0)));
    }
    while i < n
        invariant
            i <= n,
            n == population@.len(),
            orig == pop_view(population@),
            orig.len() == n,
            pop_view(ranked@) == spec_rank(orig.take(i as int)),
            ranked@.len() == i,
        decreases n - i,
    {
        let ghost p = spec_rank(orig.take(i as int));
        let ghost xv = orig[i as int];
        proof {
            lemma_rank_sorted(orig.take(i as int));
        }
        let x = population[i].clone();
        proof {
            assert(x@ == xv);
        }
        let mut j: usize = i;
        while j > 0 && ranked[j - 1].fitness > x.fitness
            invariant
                0 <= j <= i,
                ranked@.len() == i,
                pop_view(ranked@) == p,
                p.len() == i,
                x@ == xv,
                forall|k: int| j <= k < i ==> (#[trigger] p[k]).fitness > xv.fitness,
            decreases j,
        {
            proof {
                assert(pop_view(ranked@)[j - 1] == p[j - 1]);
            }
            j = j - 1;
        }
        proof {
            assert(j == 0 || p[j - 1].fitness <= xv.fitness) by {
                if j > 0 {
                    assert(pop_view(ranked@)[j - 1] == p[j - 1]);
                }
            }
            lemma_insert_ranked_position(p, xv, j as int);
        }
        let ghost before = ranked@;
        ranked.insert(j, x);
        proof {
            let q = spec_rank(orig.take(i as int + 1));
            assert(orig.take(i as int + 1).drop_last() =~= orig.take(i as int));
            assert(orig.take(i as int + 1).drop_last() == orig.take(i as int));
            assert(orig.take(i as int + 1).last() == xv);
            assert(q == spec_insert_ranked(p, xv));
            assert(q == p.insert(j as int, xv));
            lemma_insert_ranked_multiset(p, xv);
            assert(ranked@ == before.insert(j as int, x));
            assert forall|m: int| 0 <= m < i + 1 implies pop_view(ranked@)[m] == q[m] by {
                if m < j {
                    assert(ranked@[m] == before[m]);
                    assert(pop_view(before)[m] == p[m]);
                } else if m == j {
                    assert(ranked@[m] == x);
                } else {
                    assert(ranked@[m] == before[m - 1]);
                    assert(pop_view(before)[m - 1] == p[m - 1]);
                }
            }
            assert(pop_view(ranked@) =~= q);
        }
        i = i + 1;
    }
    proof {
        assert(orig.take(n as int) =~= orig);
        assert(orig.take(n as int) == orig);
    }
    *population = ranked;
}

/// A perfect score means a perfect solution: an individual consistent
/// with the configuration whose fitness is zero executed successfully,
/// and its output agrees with the target at every byte, positions
/// beyond either end reading as zero.  An output of the target's exact
/// length is the target itself.
pub proof fn lemma_zero_fitness_solves(cfg: ConfigV, ind: IndividualV)
    requires
        cfg.wf(),
        ind.wf(cfg),
        ind.fitness == 0,
    ensures
        match ind.bf_result {
            Ok((o, n)) => (forall|k: int| 0 <= k ==> byte_at(o, k) == byte_at(cfg.target, k))
                && (o.len() == cfg.target.len() ==> o == cfg.target),
            Err(_) => false,
        },
{
    reveal(spec_individual);
    let chr = ind.chromosome;
    let budget = effective_budget(cfg.instr_limit);
    let res = interp_spec(chr, cfg.policy, cfg.tape_size as nat, budget);
    assert(ind.bf_result == res);
    match res {
        Ok((o, n)) => {
            lemma_run_from_bounds(chr, cfg.policy, init_state(cfg.tape_size as nat), budget);
            assert(o.len() <= budget <= MAX_MEASURED_LEN);
            lemma_result_fitness_bound(cfg, res);
            assert(spec_fitness(cfg, chr) < u64::MAX);
            assert(spec_fitness(cfg, chr) == 0);
            lemma_fitness_zero(cfg, chr);
        },
        Err(_) => {
            assert(ind.fitness == BAD_PROGRAM_PENALTY);
        },
    }
}

} // verus!
