use bf_evolve::bf::OverflowPolicy;
use bf_evolve::config::{Config, SelectionStrategy};
use bf_evolve::evolve::{
    initial_population, mate, mutate, random_chromosome, run_evolution, select,
    tournament_select,
};
use bf_evolve::population::Individual;
use bf_evolve::population::sort_by_fitness;
use bf_evolve::rand::Wyhash64RNG;

fn base_config() -> Config {
    Config {
        target: "a".bytes().collect(),
        alphabet: "+-<>.[] ".chars().collect(),
        population_size: 20,
        elitism_percent: 10,
        mutation_percent: 10,
        remove_percent: 20,
        insert_percent: 10,
        modify_percent: 70,
        strategy: SelectionStrategy::Tournament { size: 2 },
        initial_program_length: 30,
        instr_limit: 1000,
        tape_size: 100,
        policy: OverflowPolicy::Wrap,
    }
}

fn single_gene_config() -> Config {
    let mut cfg = base_config();
    cfg.alphabet = vec!['z'];
    cfg.remove_percent = 0;
    cfg.insert_percent = 0;
    cfg.modify_percent = 100;
    cfg
}

#[test]
fn config_validity_is_decidable() {
    let cfg = base_config();
    assert!(cfg.check_valid());
    let mut bad = base_config();
    bad.remove_percent = 50;
    assert!(!bad.check_valid());
    let mut empty_alphabet = base_config();
    empty_alphabet.alphabet = Vec::new();
    assert!(!empty_alphabet.check_valid());
}

#[test]
fn random_chromosome_length_and_alphabet() {
    let cfg = base_config();
    let mut rng = Wyhash64RNG::new_fixed(11);
    let chr = random_chromosome(&mut rng, &cfg);
    assert_eq!(chr.len(), cfg.initial_program_length);
    for g in &chr {
        assert!(cfg.alphabet.contains(g));
    }
}

#[test]
fn mutate_deterministic() {
    let cfg = base_config();
    let mut a = Wyhash64RNG::new_fixed(17);
    let mut b = Wyhash64RNG::new_fixed(17);
    let mut chr1: Vec<char> = "+-<>.[] +-<>.[] ".chars().collect();
    let mut chr2 = chr1.clone();
    mutate(&mut a, &mut chr1, &cfg);
    mutate(&mut b, &mut chr2, &cfg);
    assert_eq!(chr1, chr2);
}

#[test]
fn mutate_without_insertion_keeps_length() {
    let cfg = single_gene_config();
    let mut rng = Wyhash64RNG::new_fixed(23);
    let mut chr: Vec<char> = vec!['z'; 40];
    mutate(&mut rng, &mut chr, &cfg);
    assert_eq!(chr.len(), 40);
    for g in &chr {
        assert!(*g == 'z' || *g == ' ');
    }
}

#[test]
fn mate_child_lengths_swap_roles() {
    // without insertions, the first child carries the longer parent's
    // length and the second the shorter one's
    let cfg = single_gene_config();
    let mut rng = Wyhash64RNG::new_fixed(31);
    let short = Individual::new(vec!['z'; 4], &cfg);
    let long = Individual::new(vec!['z'; 6], &cfg);
    let (c1, c2) = mate(&mut rng, &short, &long, &cfg);
    assert_eq!(c1.chromosome.len(), 6);
    assert_eq!(c2.chromosome.len(), 4);
}

#[test]
fn mate_reevaluates_children() {
    let cfg = base_config();
    let mut rng = Wyhash64RNG::new_fixed(37);
    let p1 = Individual::new("++.".chars().collect(), &cfg);
    let p2 = Individual::new("--.".chars().collect(), &cfg);
    let (c1, c2) = mate(&mut rng, &p1, &p2, &cfg);
    // each child's cached score matches a fresh evaluation of its text
    for child in [&c1, &c2] {
        let again = Individual::new(child.chromosome.clone(), &cfg);
        assert_eq!(child.fitness, again.fitness);
        assert_eq!(child.bf_result, again.bf_result);
    }
}

#[test]
fn sort_orders_by_ascending_fitness() {
    let cfg = base_config();
    let mut rng = Wyhash64RNG::new_fixed(41);
    let mut pop = initial_population(&mut rng, &cfg);
    sort_by_fitness(&mut pop);
    for w in pop.windows(2) {
        assert!(w[0].fitness <= w[1].fitness);
    }
}

#[test]
fn tournament_index_in_range() {
    let cfg = base_config();
    let mut rng = Wyhash64RNG::new_fixed(43);
    let pop = initial_population(&mut rng, &cfg);
    for k in [1u64, 2, 5] {
        for _ in 0..50 {
            assert!(tournament_select(&mut rng, &pop, k) < pop.len());
        }
    }
}

#[test]
fn select_conserves_population_size() {
    let cfg = base_config();
    let mut rng = Wyhash64RNG::new_fixed(47);
    let mut pop = initial_population(&mut rng, &cfg);
    sort_by_fitness(&mut pop);
    let next = select(&mut rng, &pop, &cfg);
    assert_eq!(next.len(), pop.len());
}

#[test]
fn select_copies_elites_verbatim() {
    let cfg = base_config();
    // population 20 at 10 percent elitism: two elite slots
    let mut rng = Wyhash64RNG::new_fixed(53);
    let mut pop = initial_population(&mut rng, &cfg);
    sort_by_fitness(&mut pop);
    let next = select(&mut rng, &pop, &cfg);
    for i in 0..2 {
        assert_eq!(next[i].chromosome, pop[i].chromosome);
        assert_eq!(next[i].fitness, pop[i].fitness);
    }
}

#[test]
fn select_with_rank_window_strategy() {
    let mut cfg = base_config();
    cfg.strategy = SelectionStrategy::RankWindow { breed_percent: 50 };
    let mut rng = Wyhash64RNG::new_fixed(59);
    let mut pop = initial_population(&mut rng, &cfg);
    sort_by_fitness(&mut pop);
    let next = select(&mut rng, &pop, &cfg);
    assert_eq!(next.len(), pop.len());
}

#[test]
fn elitism_never_regresses() {
    let cfg = base_config();
    let mut rng = Wyhash64RNG::new_fixed(3);
    let mut pop = initial_population(&mut rng, &cfg);
    let mut best = u64::MAX;
    for _ in 0..30 {
        sort_by_fitness(&mut pop);
        assert!(pop[0].fitness <= best);
        best = pop[0].fitness;
        pop = select(&mut rng, &pop, &cfg);
    }
}

#[test]
fn reproducible_runs() {
    let cfg1 = base_config();
    let cfg2 = base_config();
    let mut rng1 = Wyhash64RNG::new_fixed(5);
    let mut rng2 = Wyhash64RNG::new_fixed(5);
    let (pop1, gens1) = run_evolution(&mut rng1, &cfg1, 40);
    let (pop2, gens2) = run_evolution(&mut rng2, &cfg2, 40);
    assert_eq!(gens1, gens2);
    assert_eq!(pop1.len(), pop2.len());
    for (a, b) in pop1.iter().zip(pop2.iter()) {
        assert_eq!(a.chromosome, b.chromosome);
        assert_eq!(a.fitness, b.fitness);
        assert_eq!(a.bf_result, b.bf_result);
    }
}

#[test]
fn scenario_hi_converges() {
    // the regression fixture for this exact configuration: seed 1
    // reaches fitness 0 in generation 1825 with the recorded program
    let cfg = Config {
        target: "hi".bytes().collect(),
        alphabet: "+.<>[] ".chars().collect(),
        population_size: 50,
        elitism_percent: 10,
        mutation_percent: 15,
        remove_percent: 15,
        insert_percent: 25,
        modify_percent: 60,
        strategy: SelectionStrategy::Tournament { size: 2 },
        initial_program_length: 10,
        instr_limit: 10_000,
        tape_size: 30_000,
        policy: OverflowPolicy::Wrap,
    };
    let mut rng = Wyhash64RNG::new_fixed(1);
    let (pop, gens) = run_evolution(&mut rng, &cfg, 5000);
    assert_eq!(gens, 1825);
    assert_eq!(pop[0].fitness, 0);
    let text: String = pop[0].chromosome.iter().collect();
    assert_eq!(text, " +[>>++<++<+++++] ++ ++ >++.+.+   < ");
    match &pop[0].bf_result {
        Ok((output, _)) => assert_eq!(output, &b"hi".to_vec()),
        Err(_) => panic!("best individual failed to run"),
    }
}
