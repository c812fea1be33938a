use bf_evolve::bf::{interpret_brainfuck, BfErr, OverflowPolicy};

#[test]
fn test() {
    let src = "++++++++[>++++[>++>+++>+++>+<<<<-]>+>+>->>+[<]<-]>>.>
               ---.+++++++..+++.>>.<-.<.+++.------.--------.>>+.>++.";

    match interpret_brainfuck(
        &src.chars().collect(),
        10_000,
        30_000,
        OverflowPolicy::ErrorOnOverflow,
    ) {
        Ok((output, _)) => assert_eq!(String::from_utf8(output).unwrap(), "Hello World!\n"),
        Err(_) => panic!("oopsie"),
    }
}

#[test]
fn syntax_error_unbalanced_counts() {
    let prog: Vec<char> = "[[]".chars().collect();
    let r = interpret_brainfuck(&prog, 100, 10, OverflowPolicy::Wrap);
    assert!(matches!(r, Err(BfErr::SyntaxError)));
}

#[test]
fn syntax_error_early_close() {
    // balanced counts, but a prefix closes more than it opens
    let prog: Vec<char> = "][".chars().collect();
    let r = interpret_brainfuck(&prog, 100, 10, OverflowPolicy::Wrap);
    assert!(matches!(r, Err(BfErr::SyntaxError)));
}

#[test]
fn syntax_error_costs_no_budget() {
    // rejected identically under the tiniest and a huge budget
    let prog: Vec<char> = "+++]".chars().collect();
    let r1 = interpret_brainfuck(&prog, 1, 10, OverflowPolicy::Wrap);
    let r2 = interpret_brainfuck(&prog, 1_000_000, 10, OverflowPolicy::Wrap);
    assert!(matches!(r1, Err(BfErr::SyntaxError)));
    assert_eq!(r1, r2);
}

#[test]
fn deterministic_repeated_runs() {
    let prog: Vec<char> = "++[->+<]>.".chars().collect();
    let r1 = interpret_brainfuck(&prog, 1000, 100, OverflowPolicy::Wrap);
    let r2 = interpret_brainfuck(&prog, 1000, 100, OverflowPolicy::Wrap);
    assert_eq!(r1, r2);
    assert_eq!(r1, Ok((vec![2u8], 15)));
}

#[test]
fn pointer_below_zero_is_logic_error() {
    let prog: Vec<char> = "<".chars().collect();
    let r = interpret_brainfuck(&prog, 100, 10, OverflowPolicy::Wrap);
    assert!(matches!(r, Err(BfErr::LogicError)));
}

#[test]
fn pointer_past_end_is_logic_error() {
    let prog: Vec<char> = ">".chars().collect();
    let r = interpret_brainfuck(&prog, 100, 1, OverflowPolicy::Wrap);
    assert!(matches!(r, Err(BfErr::LogicError)));
}

#[test]
fn pointer_violation_discards_output() {
    // one byte is emitted before the violation, and none is returned
    let prog: Vec<char> = ".<".chars().collect();
    let r = interpret_brainfuck(&prog, 100, 10, OverflowPolicy::Wrap);
    assert_eq!(r, Err(BfErr::LogicError));
}

#[test]
fn instr_limit_exact_steps() {
    // the canonical runaway program stops at the budget, for budgets
    // below the 512 steps it needs to wrap its cell back to zero
    let prog: Vec<char> = "+[+]".chars().collect();
    for limit in [1u64, 2, 100, 511] {
        let r = interpret_brainfuck(&prog, limit, 30_000, OverflowPolicy::Wrap);
        assert!(matches!(r, Err(BfErr::InstrLimitExceeded)));
    }
    let r = interpret_brainfuck(&prog, 512, 30_000, OverflowPolicy::Wrap);
    assert_eq!(r, Ok((vec![], 512)));
}

#[test]
fn instr_limit_runaway_error_policy() {
    // under ErrorOnOverflow the same program aborts when its cell tops out
    let prog: Vec<char> = "+[+]".chars().collect();
    let r = interpret_brainfuck(&prog, 100_000, 30_000, OverflowPolicy::ErrorOnOverflow);
    assert!(matches!(r, Err(BfErr::LogicError)));
}

#[test]
fn wrap_policy_decrement_wraps() {
    let prog: Vec<char> = "-.".chars().collect();
    let r = interpret_brainfuck(&prog, 100, 10, OverflowPolicy::Wrap);
    assert_eq!(r, Ok((vec![255u8], 2)));
}

#[test]
fn error_policy_decrement_aborts() {
    let prog: Vec<char> = "-.".chars().collect();
    let r = interpret_brainfuck(&prog, 100, 10, OverflowPolicy::ErrorOnOverflow);
    assert!(matches!(r, Err(BfErr::LogicError)));
}

#[test]
fn wrap_policy_increment_wraps() {
    let mut text = String::new();
    for _ in 0..256 {
        text.push('+');
    }
    text.push('.');
    let prog: Vec<char> = text.chars().collect();
    let r = interpret_brainfuck(&prog, 1000, 10, OverflowPolicy::Wrap);
    assert_eq!(r, Ok((vec![0u8], 257)));
}

#[test]
fn unknown_genes_are_noops() {
    let prog: Vec<char> = "ab c.".chars().collect();
    let r = interpret_brainfuck(&prog, 100, 10, OverflowPolicy::Wrap);
    assert_eq!(r, Ok((vec![0u8], 5)));
}

#[test]
fn loop_jumps_counted_once() {
    // ++[-]. : 2 increments, enter loop, 2 round trips, leave, output
    let prog: Vec<char> = "++[-].".chars().collect();
    let r = interpret_brainfuck(&prog, 100, 10, OverflowPolicy::Wrap);
    assert_eq!(r, Ok((vec![0u8], 8)));
}

#[test]
fn skipped_loop_jumps_past_close() {
    // '[' on a zero cell jumps just past its matching ']'
    let prog: Vec<char> = "[+++].".chars().collect();
    let r = interpret_brainfuck(&prog, 100, 10, OverflowPolicy::Wrap);
    assert_eq!(r, Ok((vec![0u8], 2)));
}

#[test]
fn nested_loops_multiply() {
    // 3 * 4 via nested loops, then output
    let prog: Vec<char> = "+++[>++++[>+<-]<-]>>.".chars().collect();
    let r = interpret_brainfuck(&prog, 10_000, 10, OverflowPolicy::ErrorOnOverflow);
    match r {
        Ok((output, _)) => assert_eq!(output, vec![12u8]),
        Err(_) => panic!("nested loops failed"),
    }
}

#[test]
fn empty_program_ends_immediately() {
    let prog: Vec<char> = Vec::new();
    let r = interpret_brainfuck(&prog, 100, 10, OverflowPolicy::Wrap);
    assert_eq!(r, Ok((vec![], 0)));
}

#[test]
fn zero_limit_means_unbounded() {
    // a budget of zero lets a long straight-line program finish
    let mut text = String::new();
    for _ in 0..300 {
        text.push('+');
    }
    let prog: Vec<char> = text.chars().collect();
    let r = interpret_brainfuck(&prog, 0, 10, OverflowPolicy::Wrap);
    assert_eq!(r, Ok((vec![], 300)));
}
