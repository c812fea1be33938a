use bf_evolve::bf::{interpret_brainfuck, BfErr, OverflowPolicy};
use bf_evolve::config::{Config, SelectionStrategy};
use bf_evolve::fitness::{
    bytes_difference, fitness, program_length, string_difference, BAD_PROGRAM_PENALTY,
};

fn test_config(target: &str) -> Config {
    Config {
        target: target.bytes().collect(),
        alphabet: "+-<>.[] ".chars().collect(),
        population_size: 10,
        elitism_percent: 10,
        mutation_percent: 10,
        remove_percent: 20,
        insert_percent: 10,
        modify_percent: 70,
        strategy: SelectionStrategy::Tournament { size: 2 },
        initial_program_length: 8,
        instr_limit: 10_000,
        tape_size: 100,
        policy: OverflowPolicy::Wrap,
    }
}

#[test]
fn diff_test() {
    assert_eq!(string_difference("aaa", "bbb"), 3);
    assert_eq!(string_difference("ccc", "bbb"), 3);

    assert_eq!(string_difference("aa", "bbb"), 2 + 'b' as u64);
    assert_eq!(string_difference("bbb", "aa"), 2 + 'b' as u64);

    assert_eq!(string_difference("aa", "aaa"), 'a' as u64);
    assert_eq!(string_difference("aaa", "aa"), 'a' as u64);
}

#[test]
fn bytes_difference_exact() {
    assert_eq!(bytes_difference(&vec![], &vec![]), 0);
    assert_eq!(bytes_difference(&vec![5, 10], &vec![5, 10]), 0);
    assert_eq!(bytes_difference(&vec![5, 10], &vec![7, 4]), 8);
    assert_eq!(bytes_difference(&vec![1], &vec![1, 200]), 200);
    assert_eq!(bytes_difference(&vec![0, 0, 3], &vec![]), 3);
}

#[test]
fn fitness_zero_on_exact_match() {
    // 65 increments and one output: prints "A" exactly
    let cfg = test_config("A");
    let mut text = String::new();
    for _ in 0..65 {
        text.push('+');
    }
    text.push('.');
    let chr: Vec<char> = text.chars().collect();
    let result = interpret_brainfuck(&chr, cfg.instr_limit, cfg.tape_size, cfg.policy);
    assert_eq!(fitness(&chr, &result, &cfg), 0);
}

#[test]
fn fitness_counts_byte_distance() {
    // prints one byte of value 60 against the target "A" (65)
    let cfg = test_config("A");
    let mut text = String::new();
    for _ in 0..60 {
        text.push('+');
    }
    text.push('.');
    let chr: Vec<char> = text.chars().collect();
    let result = interpret_brainfuck(&chr, cfg.instr_limit, cfg.tape_size, cfg.policy);
    assert_eq!(fitness(&chr, &result, &cfg), 5);
}

#[test]
fn fitness_penalty_on_every_error_kind() {
    let cfg = test_config("A");
    for text in ["[", "<", "+[+]"] {
        let chr: Vec<char> = text.chars().collect();
        let result = interpret_brainfuck(&chr, 100, cfg.tape_size, cfg.policy);
        assert!(result.is_err());
        assert_eq!(fitness(&chr, &result, &cfg), BAD_PROGRAM_PENALTY);
    }
}

#[test]
fn fitness_penalty_value_is_fixed() {
    let cfg = test_config("xyz");
    let chr: Vec<char> = "]".chars().collect();
    let result: Result<(Vec<u8>, u64), BfErr> = Err(BfErr::SyntaxError);
    assert_eq!(fitness(&chr, &result, &cfg), 10_000);
}

#[test]
fn program_length_ignores_filler() {
    assert_eq!(program_length(&"+-<>".chars().collect()), 4);
    assert_eq!(program_length(&"+ - ".chars().collect()), 2);
    assert_eq!(program_length(&"    ".chars().collect()), 0);
    assert_eq!(program_length(&Vec::new()), 0);
}
