//! A bounded, deterministic interpreter for the minimal tape-machine
//! language.
//!
//! A program is a sequence of characters; the seven operators are
//! `+ - < > [ ] .` and every other character is an inert no-op.  Execution
//! works on a fixed-size tape of 8-bit cells under a strict instruction
//! budget, and either returns the produced output together with the exact
//! number of executed instructions, or one of three errors: `SyntaxError`
//! for unbalanced brackets (detected before any execution), `LogicError`
//! for a tape-pointer or cell-value boundary violation, and
//! `InstrLimitExceeded` for an exhausted budget.
//!
//! The whole semantics is pinned down by the spec functions `step`,
//! `run_from` and `interp_spec`: a small-step machine over a ghost
//! `MachState`, so that the result of a call is a pure function of the
//! program, the policy, the tape size and the budget.

use vstd::prelude::*;

verus! {

/// The three ways an execution can fail; a closed set.
#[derive(Clone, Copy, PartialEq, Eq, Structural, Debug)]
pub enum BfErr {
    /// Bracket counts unequal, or some prefix closes more than it opens.
    SyntaxError,
    /// The instruction budget was exhausted while the program was running.
    InstrLimitExceeded,
    /// The tape pointer or (under `ErrorOnOverflow`) a cell value left its
    /// range.
    LogicError,
}

/// What happens when a cell is incremented above 255 or decremented
/// below 0.
#[derive(Clone, Copy, PartialEq, Eq, Structural, Debug)]
pub enum OverflowPolicy {
    /// 255 + 1 becomes 0 and 0 - 1 becomes 255.
    Wrap,
    /// An out-of-range cell operation aborts with `LogicError`.
    ErrorOnOverflow,
}

/// The bracket-nesting contribution of one character.
pub open spec fn bracket_delta(c: char) -> int {
    if c == '[' {
        1
    } else if c == ']' {
        -1
    } else {
        0
    }
}

/// The bracket-nesting depth just before position `k`: the number of `[`
/// minus the number of `]` among the first `k` characters.
pub open spec fn depth(prog: Seq<char>, k: int) -> int
    decreases k,
{
    if k <= 0 {
        0
    } else {
        depth(prog, k - 1) + bracket_delta(prog[k - 1])
    }
}

/// Brackets balance: equal counts overall, and no prefix closes more than
/// it opens.
pub open spec fn balanced(prog: Seq<char>) -> bool {
    &&& depth(prog, prog.len() as int) == 0
    &&& forall|k: int| 0 <= k <= prog.len() ==> depth(prog, k) >= 0
}

/// The first position at or after `j` where the depth right after it has
/// come back down to `d`; the program length if there is none.
pub open spec fn match_close(prog: Seq<char>, j: int, d: int) -> int
    decreases prog.len() - j,
{
    if j < 0 || j >= prog.len() {
        prog.len() as int
    } else if depth(prog, j + 1) <= d {
        j
    } else {
        match_close(prog, j + 1, d)
    }
}

/// The last position at or before `i` holding a `[` at depth exactly `d`;
/// -1 if there is none.
pub open spec fn match_open(prog: Seq<char>, i: int, d: int) -> int
    decreases i + 1,
{
    if i < 0 || i >= prog.len() {
        -1
    } else if prog[i] == '[' && depth(prog, i) == d {
        i
    } else {
        match_open(prog, i - 1, d)
    }
}

/// The position of the `]` matching the `[` at position `i`.
pub open spec fn partner_close(prog: Seq<char>, i: int) -> int {
    match_close(prog, i + 1, depth(prog, i))
}

/// The position of the `[` matching the `]` at position `j`.
pub open spec fn partner_open(prog: Seq<char>, j: int) -> int {
    match_open(prog, j - 1, depth(prog, j + 1))
}

/// The machine state between two steps: instruction pointer, tape pointer,
/// tape contents and accumulated output.
pub struct MachState {
    pub ip: int,
    pub tp: int,
    pub tape: Seq<u8>,
    pub out: Seq<u8>,
}

/// The outcome of one step: a next state, or an abort.
pub enum StepResult {
    Running(MachState),
    Failed(BfErr),
}

/// The state a run starts from: everything at zero.
pub open spec fn init_state(tape_size: nat) -> MachState {
    MachState { ip: 0, tp: 0, tape: Seq::new(tape_size, |i: int| 0u8), out: Seq::empty() }
}

/// One step of the machine, for a state whose instruction pointer is
/// inside the program.
pub open spec fn step(prog: Seq<char>, policy: OverflowPolicy, st: MachState) -> StepResult
    recommends
        0 <= st.ip < prog.len(),
        0 <= st.tp < st.tape.len(),
{
    let c = prog[st.ip];
    let cell = st.tape[st.tp];
    if c == '+' {
        if cell < 255 {
            StepResult::Running(
                MachState { ip: st.ip + 1, tape: st.tape.update(st.tp, (cell + 1) as u8), ..st },
            )
        } else if policy is Wrap {
            StepResult::Running(
                MachState { ip: st.ip + 1, tape: st.tape.update(st.tp, 0u8), ..st },
            )
        } else {
            StepResult::Failed(BfErr::LogicError)
        }
    } else if c == '-' {
        if cell > 0 {
            StepResult::Running(
                MachState { ip: st.ip + 1, tape: st.tape.update(st.tp, (cell - 1) as u8), ..st },
            )
        } else if policy is Wrap {
            StepResult::Running(
                MachState { ip: st.ip + 1, tape: st.tape.update(st.tp, 255u8), ..st },
            )
        } else {
            StepResult::Failed(BfErr::LogicError)
        }
    } else if c == '>' {
        if st.tp + 1 < st.tape.len() {
            StepResult::Running(MachState { ip: st.ip + 1, tp: st.tp + 1, ..st })
        } else {
            StepResult::Failed(BfErr::LogicError)
        }
    } else if c == '<' {
        if st.tp >= 1 {
            StepResult::Running(MachState { ip: st.ip + 1, tp: st.tp - 1, ..st })
        } else {
            StepResult::Failed(BfErr::LogicError)
        }
    } else if c == '[' {
        if cell == 0 {
            StepResult::Running(MachState { ip: partner_close(prog, st.ip) + 1, ..st })
        } else {
            StepResult::Running(MachState { ip: st.ip + 1, ..st })
        }
    } else if c == ']' {
        if cell != 0 {
            StepResult::Running(MachState { ip: partner_open(prog, st.ip) + 1, ..st })
        } else {
            StepResult::Running(MachState { ip: st.ip + 1, ..st })
        }
    } else if c == '.' {
        StepResult::Running(MachState { ip: st.ip + 1, out: st.out.push(cell), ..st })
    } else {
        StepResult::Running(MachState { ip: st.ip + 1, ..st })
    }
}

/// Runs the machine from state `st` for at most `budget` further steps.
/// Returns the output and the number of steps taken if the program ends,
/// the abort error if a step fails, and `InstrLimitExceeded` if the
/// machine is still running once the budget is spent.
pub open spec fn run_from(
    prog: Seq<char>,
    policy: OverflowPolicy,
    st: MachState,
    budget: nat,
) -> Result<(Seq<u8>, nat), BfErr>
    decreases budget,
{
    if st.ip < 0 || st.ip >= prog.len() {
        Ok((st.out, 0))
    } else if budget == 0 {
        Err(BfErr::InstrLimitExceeded)
    } else {
        match step(prog, policy, st) {
            StepResult::Failed(e) => Err(e),
            StepResult::Running(st2) => match run_from(prog, policy, st2, (budget - 1) as nat) {
                Ok((o, k)) => Ok((o, (k + 1) as nat)),
                Err(e) => Err(e),
            },
        }
    }
}

/// The instruction budget a `max_instructions` argument denotes: zero
/// means effectively unbounded, which on this machine is the largest
/// representable step count.
pub open spec fn effective_budget(max_instructions: u64) -> nat {
    if max_instructions == 0 {
        u64::MAX as nat
    } else {
        max_instructions as nat
    }
}

/// The complete meaning of one interpreter call: a syntax check, then a
/// bounded run from the all-zero state.
pub open spec fn interp_spec(
    prog: Seq<char>,
    policy: OverflowPolicy,
    tape_size: nat,
    budget: nat,
) -> Result<(Seq<u8>, nat), BfErr> {
    if !balanced(prog) {
        Err(BfErr::SyntaxError)
    } else {
        run_from(prog, policy, init_state(tape_size), budget)
    }
}

/// The spec-level value of an interpreter result.
pub open spec fn res_view(r: Result<(Vec<u8>, u64), BfErr>) -> Result<(Seq<u8>, nat), BfErr> {
    match r {
        Ok((o, n)) => Ok((o@, n as nat)),
        Err(e) => Err(e),
    }
}

/// A run never fails with `SyntaxError`: that error arises from the
/// bracket check alone, before any execution.
pub proof fn lemma_run_from_no_syntax(
    prog: Seq<char>,
    policy: OverflowPolicy,
    st: MachState,
    budget: nat,
)
    ensures
        run_from(prog, policy, st, budget) != Err::<(Seq<u8>, nat), BfErr>(BfErr::SyntaxError),
    decreases budget,
{
    if !(st.ip < 0 || st.ip >= prog.len()) && budget > 0 {
        match step(prog, policy, st) {
            StepResult::Failed(e) => {},
            StepResult::Running(st2) => {
                lemma_run_from_no_syntax(prog, policy, st2, (budget - 1) as nat);
            },
        }
    }
}

/// A successful run takes at most the budget, and appends at most one
/// output byte per step.
pub proof fn lemma_run_from_bounds(
    prog: Seq<char>,
    policy: OverflowPolicy,
    st: MachState,
    budget: nat,
)
    ensures
        match run_from(prog, policy, st, budget) {
            Ok((o, k)) => k <= budget && o.len() <= st.out.len() + k,
            Err(_) => true,
        },
    decreases budget,
{
    if !(st.ip < 0 || st.ip >= prog.len()) && budget > 0 {
        match step(prog, policy, st) {
            StepResult::Failed(e) => {},
            StepResult::Running(st2) => {
                lemma_run_from_bounds(prog, policy, st2, (budget - 1) as nat);
            },
        }
    }
}

/// Whether position `m` is among the entries of `stack`.
pub open spec fn in_stack(stack: Seq<usize>, m: int) -> bool {
    exists|si: int| 0 <= si < stack.len() && stack[si] == m
}

/// A forward scan that stays above depth `d` on `[a, b)` and drops to `d`
/// right after `b` finds exactly `b`.
proof fn lemma_match_close_scan(prog: Seq<char>, a: int, b: int, d: int)
    requires
        0 <= a <= b < prog.len(),
        forall|k: int| a <= k < b ==> #[trigger] depth(prog, k + 1) > d,
        depth(prog, b + 1) <= d,
    ensures
        match_close(prog, a, d) == b,
    decreases b - a,
{
    if a < b {
        lemma_match_close_scan(prog, a + 1, b, d);
    }
}

/// A backward scan over positions whose depth stays above `d` finds the
/// `[` at depth `d` that opened the region.
proof fn lemma_match_open_scan(prog: Seq<char>, a: int, b: int, d: int)
    requires
        0 <= a <= b < prog.len(),
        prog[a] == '[',
        depth(prog, a) == d,
        forall|k: int| a < k <= b ==> #[trigger] depth(prog, k) > d,
    ensures
        match_open(prog, b, d) == a,
    decreases b - a,
{
    if a < b {
        lemma_match_open_scan(prog, a, b - 1, d);
    }
}

/// Builds the jump table of a balanced program in one linear, stack-based
/// pass: each bracket position maps to its partner, so that loop jumps at
/// run time are a single lookup.
pub fn build_jump_table(src: &Vec<char>) -> (table: Vec<usize>)
    requires
        balanced(src@),
    ensures
        table@.len() == src@.len(),
        forall|m: int|
            0 <= m < src@.len() && src@[m] == '[' ==> m < #[trigger] table@[m] < src@.len()
                && src@[table@[m] as int] == ']' && table@[m] == partner_close(src@, m),
        forall|m: int|
            0 <= m < src@.len() && src@[m] == ']' ==> 0 <= #[trigger] table@[m] < m
                && src@[table@[m] as int] == '[' && table@[m] == partner_open(src@, m),
{
    let n: usize = src.len();
    let mut table: Vec<usize> = vec![0usize; n];
    let mut stack: Vec<usize> = Vec::new();
    let mut j: usize = 0;
    while j < n
        invariant
            j <= n,
            n == src@.len(),
            table@.len() == n,
            balanced(src@),
            stack@.len() == depth(src@, j as int),
            forall|si: int|
                0 <= si < stack@.len() ==> 0 <= #[trigger] stack@[si] < j
                    && src@[stack@[si] as int] == '[' && depth(src@, stack@[si] as int) == si,
            forall|si: int, k: int|
                #![trigger stack@[si], depth(src@, k)]
                0 <= si < stack@.len() && stack@[si] < k <= j ==> depth(src@, k) > si,
            forall|m: int|
                0 <= m < j && src@[m] == '[' && !in_stack(stack@, m) ==> m < #[trigger] table@[m]
                    < src@.len() && src@[table@[m] as int] == ']'
                    && table@[m] == partner_close(src@, m),
            forall|m: int|
                0 <= m < j && src@[m] == ']' ==> 0 <= #[trigger] table@[m] < m
                    && src@[table@[m] as int] == '[' && table@[m] == partner_open(src@, m),
        decreases n - j,
    {
        let c = src[j];
        if c == '[' {
            let ghost old_stack = stack@;
            stack.push(j);
            proof {
                assert(stack@[stack@.len() - 1] == j);
                assert forall|m: int|
                    0 <= m < j + 1 && src@[m] == '[' && !in_stack(stack@, m) implies m
                    < #[trigger] table@[m] < src@.len() && src@[table@[m] as int] == ']'
                    && table@[m] == partner_close(src@, m) by {
                    assert(in_stack(stack@, j as int));
                    assert(forall|si: int|
                        0 <= si < old_stack.len() ==> stack@[si] == #[trigger] old_stack[si]);
                    assert(!in_stack(old_stack, m));
                }
            }
        } else if c == ']' {
            proof {
                assert(depth(src@, j as int + 1) >= 0);
                assert(stack@.len() >= 1);
            }
            let ghost entry_stack = stack@;
            let ghost entry_table = table@;
            let t: usize = match stack.pop() {
                Some(v) => v,
                None => vstd::pervasive::unreached(),
            };
            table.set(t, j);
            table.set(j, t);
            proof {
                let prog = src@;
                let d = depth(prog, t as int);
                assert(entry_stack[entry_stack.len() - 1] == t);
                assert(forall|si: int|
                    0 <= si < stack@.len() ==> stack@[si] == #[trigger] entry_stack[si]);
                assert(d == entry_stack.len() - 1);
                assert(depth(prog, j as int + 1) == d);
                assert forall|k: int| t + 1 <= k < j implies #[trigger] depth(prog, k + 1) > d by {
                    assert(t < k + 1 <= j);
                }
                lemma_match_close_scan(prog, t as int + 1, j as int, d);
                assert(partner_close(prog, t as int) == j);
                assert forall|k: int| t < k <= j - 1 implies #[trigger] depth(prog, k) > d by {
                    assert(t < k <= j);
                }
                lemma_match_open_scan(prog, t as int, j as int - 1, d);
                assert(partner_open(prog, j as int) == t);
                assert(table@ == entry_table.update(t as int, j).update(j as int, t));
                assert(table@[t as int] == j);
                assert(table@[j as int] == t);
                // the popped position is in no remaining slot: depths differ
                assert forall|m: int|
                    0 <= m < j + 1 && src@[m] == '[' && !in_stack(stack@, m) implies m
                    < #[trigger] table@[m] < src@.len() && src@[table@[m] as int] == ']'
                    && table@[m] == partner_close(src@, m) by {
                    if m == t {
                    } else {
                        assert(m < j);
                        assert(!in_stack(entry_stack, m)) by {
                            if in_stack(entry_stack, m) {
                                let si = choose|si: int|
                                    0 <= si < entry_stack.len() && entry_stack[si] == m;
                                if si < entry_stack.len() - 1 {
                                    assert(stack@[si] == m);
                                    assert(in_stack(stack@, m));
                                } else {
                                    assert(m == t);
                                }
                            }
                        }
                        assert(table@[m] == entry_table[m]);
                    }
                }
                assert forall|si: int, k: int|
                    #![trigger stack@[si], depth(prog, k)]
                    0 <= si < stack@.len() && stack@[si] < k <= j + 1 implies depth(prog, k)
                    > si by {
                    assert(stack@[si] == entry_stack[si]);
                    if k == j + 1 {
                        assert(depth(prog, k) == d);
                    } else {
                        assert(entry_stack[si] < k <= j);
                        assert(depth(prog, k) > si);
                    }
                }
            }
        }
        j = j + 1;
    }
    proof {
        assert(stack@.len() == 0);
        assert(forall|m: int| !in_stack(stack@, m));
    }
    table
}

/// Checks that the brackets of `src` balance: equal counts, and no prefix
/// with more closing than opening brackets.
pub fn check_bf_syntax(src: &Vec<char>) -> (r: bool)
    ensures
        r == balanced(src@),
{
    let n: usize = src.len();
    let mut balance: i128 = 0;
    let mut i: usize = 0;
    while i < n
        invariant
            i <= n,
            n == src@.len(),
            balance == depth(src@, i as int),
            0 <= balance <= i,
            forall|k: int| 0 <= k <= i ==> depth(src@, k) >= 0,
        decreases n - i,
    {
        let c = src[i];
        if c == '[' {
            balance = balance + 1;
        } else if c == ']' {
            balance = balance - 1;
        }
        i = i + 1;
        if balance < 0 {
            assert(depth(src@, i as int) < 0);
            return false;
        }
    }
    balance == 0
}

/// A run result with `k` further steps charged to its instruction count.
pub open spec fn lift_steps(r: Result<(Seq<u8>, nat), BfErr>, k: nat) -> Result<
    (Seq<u8>, nat),
    BfErr,
> {
    match r {
        Ok((o, m)) => Ok((o, (m + k) as nat)),
        Err(e) => Err(e),
    }
}

/// Executes `src` against a fresh tape of `tape_size` zeroed cells under
/// the configured overflow policy, with `max_instructions` as the step
/// budget; a budget of zero means effectively unbounded (the largest
/// representable step count).  Returns the output bytes and the exact
/// number of executed instructions, or the error that stopped the run.
pub fn interpret_brainfuck(
    src: &Vec<char>,
    max_instructions: u64,
    tape_size: usize,
    policy: OverflowPolicy,
) -> (r: Result<(Vec<u8>, u64), BfErr>)
    requires
        tape_size >= 1,
    ensures
        res_view(r) == interp_spec(
            src@,
            policy,
            tape_size as nat,
            effective_budget(max_instructions),
        ),
        r == Err::<(Vec<u8>, u64), BfErr>(BfErr::SyntaxError) <==> !balanced(src@),
        match r {
            Ok((out, n)) => n <= effective_budget(max_instructions) && out@.len() <= n,
            Err(_) => true,
        },
{
    if !check_bf_syntax(src) {
        return Err(BfErr::SyntaxError);
    }
    let table: Vec<usize> = build_jump_table(src);
    let budget: u64 = if max_instructions == 0 {
        u64::MAX
    } else {
        max_instructions
    };
    let n: usize = src.len();
    let mut tape: Vec<u8> = vec![0u8; tape_size];
    let mut out: Vec<u8> = Vec::new();
    let mut ip: usize = 0;
    let mut tp: usize = 0;
    let mut count: u64 = 0;
    proof {
        assert(tape@ =~= init_state(tape_size as nat).tape);
        lemma_run_from_bounds(
            src@,
            policy,
            init_state(tape_size as nat),
            budget as nat,
        );
        lemma_run_from_no_syntax(
            src@,
            policy,
            init_state(tape_size as nat),
            budget as nat,
        );
    }
    loop
        invariant_except_break
            n == src@.len(),
            balanced(src@),
            tape_size >= 1,
            table@.len() == n,
            forall|m: int|
                0 <= m < src@.len() && src@[m] == '[' ==> m < #[trigger] table@[m] < src@.len()
                    && src@[table@[m] as int] == ']' && table@[m] == partner_close(src@, m),
            forall|m: int|
                0 <= m < src@.len() && src@[m] == ']' ==> 0 <= #[trigger] table@[m] < m
                    && src@[table@[m] as int] == '[' && table@[m] == partner_open(src@, m),
            tape@.len() == tape_size,
            tp < tape_size,
            ip <= n,
            count <= budget,
            budget as nat == effective_budget(max_instructions),
            ({
                let cur = MachState { ip: ip as int, tp: tp as int, tape: tape@, out: out@ };
                lift_steps(run_from(src@, policy, cur, (budget - count) as nat), count as nat)
                    == run_from(src@, policy, init_state(tape_size as nat), budget as nat)
            }),
        ensures
            ip >= n,
            count <= budget,
            run_from(src@, policy, init_state(tape_size as nat), budget as nat) == Ok::<
                (Seq<u8>, nat),
                BfErr,
            >((out@, count as nat)),
        decreases budget - count,
    {
        if ip >= n {
            proof {
                let cur = MachState { ip: ip as int, tp: tp as int, tape: tape@, out: out@ };
                assert(run_from(src@, policy, cur, (budget - count) as nat) == Ok::<
                    (Seq<u8>, nat),
                    BfErr,
                >((out@, 0nat)));
            }
            break;
        }
        let ghost pre = MachState { ip: ip as int, tp: tp as int, tape: tape@, out: out@ };
        let ghost left = (budget - count) as nat;
        if count == budget {
            proof {
                assert(run_from(src@, policy, pre, 0nat) == Err::<(Seq<u8>, nat), BfErr>(
                    BfErr::InstrLimitExceeded,
                ));
            }
            return Err(BfErr::InstrLimitExceeded);
        }
        let c: char = src[ip];
        if c == '+' {
            let v: u8 = tape[tp];
            if v < 255 {
                tape.set(tp, v + 1);
                ip = ip + 1;
            } else {
                match policy {
                    OverflowPolicy::Wrap => {
                        tape.set(tp, 0);
                        ip = ip + 1;
                    },
                    OverflowPolicy::ErrorOnOverflow => {
                        proof {
                            assert(step(src@, policy, pre) == StepResult::Failed(
                                BfErr::LogicError,
                            ));
                        }
                        return Err(BfErr::LogicError);
                    },
                }
            }
        } else if c == '-' {
            let v: u8 = tape[tp];
            if v > 0 {
                tape.set(tp, v - 1);
                ip = ip + 1;
            } else {
                match policy {
                    OverflowPolicy::Wrap => {
                        tape.set(tp, 255);
                        ip = ip + 1;
                    },
                    OverflowPolicy::ErrorOnOverflow => {
                        proof {
                            assert(step(src@, policy, pre) == StepResult::Failed(
                                BfErr::LogicError,
                            ));
                        }
                        return Err(BfErr::LogicError);
                    },
                }
            }
        } else if c == '>' {
            if tp + 1 < tape_size {
                tp = tp + 1;
                ip = ip + 1;
            } else {
                proof {
                    assert(step(src@, policy, pre) == StepResult::Failed(BfErr::LogicError));
                }
                return Err(BfErr::LogicError);
            }
        } else if c == '<' {
            if tp > 0 {
                tp = tp - 1;
                ip = ip + 1;
            } else {
                proof {
                    assert(step(src@, policy, pre) == StepResult::Failed(BfErr::LogicError));
                }
                return Err(BfErr::LogicError);
            }
        } else if c == '[' {
            if tape[tp] == 0 {
                ip = table[ip] + 1;
            } else {
                ip = ip + 1;
            }
        } else if c == ']' {
            if tape[tp] != 0 {
                ip = table[ip] + 1;
            } else {
                ip = ip + 1;
            }
        } else if c == '.' {
            out.push(tape[tp]);
            ip = ip + 1;
        } else {
            ip = ip + 1;
        }
        count = count + 1;
        proof {
            let nxt = MachState { ip: ip as int, tp: tp as int, tape: tape@, out: out@ };
            assert(step(src@, policy, pre) == StepResult::Running(nxt));
            assert(run_from(src@, policy, pre, left) == lift_steps(
                run_from(src@, policy, nxt, (left - 1) as nat),
                1nat,
            ));
        }
    }
    Ok((out, count))
}

/// Unbalanced brackets are rejected before any execution: the outcome is
/// `SyntaxError` whatever the instruction budget, so rejection consumes
/// none of it.
pub proof fn lemma_syntax_rejection(
    prog: Seq<char>,
    policy: OverflowPolicy,
    tape_size: nat,
    b1: nat,
    b2: nat,
)
    requires
        !balanced(prog),
    ensures
        interp_spec(prog, policy, tape_size, b1) == Err::<(Seq<u8>, nat), BfErr>(
            BfErr::SyntaxError,
        ),
        interp_spec(prog, policy, tape_size, b2) == interp_spec(prog, policy, tape_size, b1),
{
}

/// Determinism: the outcome of an execution is a pure function of the
/// program, the policy, the tape size and the budget, so repeated
/// executions of a fixed program under fixed limits have identical output
/// and instruction count.
pub proof fn lemma_execution_deterministic(
    prog1: Seq<char>,
    prog2: Seq<char>,
    policy: OverflowPolicy,
    tape_size: nat,
    budget: nat,
)
    requires
        prog1 == prog2,
    ensures
        interp_spec(prog1, policy, tape_size, budget) == interp_spec(
            prog2,
            policy,
            tape_size,
            budget,
        ),
{
}

/// Moving the tape pointer below cell 0 or above the last cell aborts the
/// run with `LogicError`; the `Err` result carries no output, so the
/// partial output of the failed call is discarded.
pub proof fn lemma_pointer_violation(
    prog: Seq<char>,
    policy: OverflowPolicy,
    st: MachState,
    budget: nat,
)
    requires
        0 <= st.ip < prog.len(),
        0 <= st.tp < st.tape.len(),
        budget >= 1,
        (prog[st.ip] == '<' && st.tp == 0) || (prog[st.ip] == '>' && st.tp == st.tape.len() - 1),
    ensures
        run_from(prog, policy, st, budget) == Err::<(Seq<u8>, nat), BfErr>(BfErr::LogicError),
{
}

/// The canonical runaway program: one increment feeding an increment
/// loop.
pub open spec fn plus_loop() -> Seq<char> {
    seq!['+', '[', '+', ']']
}

/// The state of the runaway program at the head of its loop body, with
/// the first cell holding `v`.
spec fn plus_loop_body(tape_size: nat, v: u8) -> MachState {
    MachState {
        ip: 2,
        tp: 0,
        tape: Seq::new(tape_size, |i: int| 0u8).update(0, v),
        out: Seq::empty(),
    }
}

/// The state of the runaway program at its closing bracket, with the
/// first cell holding `v`.
spec fn plus_loop_tail(tape_size: nat, v: u8) -> MachState {
    MachState {
        ip: 3,
        tp: 0,
        tape: Seq::new(tape_size, |i: int| 0u8).update(0, v),
        out: Seq::empty(),
    }
}

/// Ground facts about the runaway program: its characters, its depths and
/// its bracket partners.
proof fn lemma_plus_loop_facts()
    ensures
        plus_loop().len() == 4,
        plus_loop()[0] == '+',
        plus_loop()[1] == '[',
        plus_loop()[2] == '+',
        plus_loop()[3] == ']',
        balanced(plus_loop()),
        partner_open(plus_loop(), 3) == 1,
{
    let p = plus_loop();
    assert(p.len() == 4);
    assert(depth(p, 0) == 0);
    assert(depth(p, 1) == 0);
    assert(depth(p, 2) == 1);
    assert(depth(p, 3) == 1);
    assert(depth(p, 4) == 0);
    assert forall|k: int| 0 <= k <= 4 implies #[trigger] depth(p, k) >= 0 by {
        if k == 0 {
        } else if k == 1 {
        } else if k == 2 {
        } else if k == 3 {
        } else {
            assert(k == 4);
        }
    }
    assert(match_open(p, 1, 0) == 1);
    assert(match_open(p, 2, 0) == 1);
}

/// From the head of its loop body with the first cell at `v >= 1`, the
/// runaway program under `Wrap` is still running after any budget below
/// the `2 * (256 - v)` steps it needs to wrap the cell back to zero.
proof fn lemma_plus_loop_spins(tape_size: nat, v: u8, b: nat)
    requires
        tape_size >= 1,
        1 <= v,
        b < 2 * (256 - v),
    ensures
        run_from(plus_loop(), OverflowPolicy::Wrap, plus_loop_body(tape_size, v), b) == Err::<
            (Seq<u8>, nat),
            BfErr,
        >(BfErr::InstrLimitExceeded),
    decreases b,
{
    let p = plus_loop();
    lemma_plus_loop_facts();
    let err = Err::<(Seq<u8>, nat), BfErr>(BfErr::InstrLimitExceeded);
    if b == 0 {
        assert(run_from(p, OverflowPolicy::Wrap, plus_loop_body(tape_size, v), 0nat) == err);
    } else {
        let w: u8 = if v < 255 {
            (v + 1) as u8
        } else {
            0u8
        };
        let m = plus_loop_tail(tape_size, w);
        assert(plus_loop_body(tape_size, v).tape.update(0, w) =~= m.tape);
        assert(step(p, OverflowPolicy::Wrap, plus_loop_body(tape_size, v))
            == StepResult::Running(m));
        if b == 1 {
            assert(run_from(p, OverflowPolicy::Wrap, m, 0nat) == err);
            assert(run_from(p, OverflowPolicy::Wrap, plus_loop_body(tape_size, v), b) == err);
        } else {
            assert(v < 255) by {
                assert(b < 2 * (256 - v));
            }
            assert(w != 0);
            assert(m.tape[0] == w);
            assert(step(p, OverflowPolicy::Wrap, m) == StepResult::Running(
                plus_loop_body(tape_size, w),
            ));
            lemma_plus_loop_spins(tape_size, w, (b - 2) as nat);
            assert(run_from(p, OverflowPolicy::Wrap, plus_loop_body(tape_size, w), (b - 2) as nat)
                == err);
            assert(run_from(p, OverflowPolicy::Wrap, m, (b - 1) as nat) == err);
            assert(run_from(p, OverflowPolicy::Wrap, plus_loop_body(tape_size, v), b) == err);
        }
    }
}

/// From the head of its loop body with the first cell at `v >= 1`, the
/// runaway program under `Wrap` ends with empty output after exactly the
/// `2 * (256 - v)` steps that wrap the cell back to zero, whenever the
/// budget allows them.
proof fn lemma_plus_loop_runs_out(tape_size: nat, v: u8, b: nat)
    requires
        tape_size >= 1,
        1 <= v,
        b >= 2 * (256 - v),
    ensures
        run_from(plus_loop(), OverflowPolicy::Wrap, plus_loop_body(tape_size, v), b) == Ok::<
            (Seq<u8>, nat),
            BfErr,
        >((Seq::empty(), (2 * (256 - v)) as nat)),
    decreases 256 - v,
{
    let p = plus_loop();
    lemma_plus_loop_facts();
    let w: u8 = if v < 255 {
        (v + 1) as u8
    } else {
        0u8
    };
    let m = plus_loop_tail(tape_size, w);
    assert(plus_loop_body(tape_size, v).tape.update(0, w) =~= m.tape);
    assert(step(p, OverflowPolicy::Wrap, plus_loop_body(tape_size, v)) == StepResult::Running(m));
    if v == 255 {
        let h = MachState {
            ip: 4,
            tp: 0,
            tape: Seq::new(tape_size, |i: int| 0u8).update(0, 0u8),
            out: Seq::empty(),
        };
        assert(m.tape[0] == 0);
        assert(step(p, OverflowPolicy::Wrap, m) == StepResult::Running(h));
        assert(run_from(p, OverflowPolicy::Wrap, h, (b - 2) as nat) == Ok::<
            (Seq<u8>, nat),
            BfErr,
        >((Seq::empty(), 0nat)));
        assert(run_from(p, OverflowPolicy::Wrap, m, (b - 1) as nat) == Ok::<
            (Seq<u8>, nat),
            BfErr,
        >((Seq::empty(), 1nat)));
        assert(run_from(p, OverflowPolicy::Wrap, plus_loop_body(tape_size, v), b) == Ok::<
            (Seq<u8>, nat),
            BfErr,
        >((Seq::empty(), 2nat)));
    } else {
        assert(w != 0);
        assert(m.tape[0] == w);
        assert(step(p, OverflowPolicy::Wrap, m) == StepResult::Running(
            plus_loop_body(tape_size, w),
        ));
        lemma_plus_loop_runs_out(tape_size, w, (b - 2) as nat);
        assert(run_from(p, OverflowPolicy::Wrap, plus_loop_body(tape_size, w), (b - 2) as nat)
            == Ok::<(Seq<u8>, nat), BfErr>((Seq::empty(), (2 * (256 - w)) as nat)));
        assert(run_from(p, OverflowPolicy::Wrap, m, (b - 1) as nat) == Ok::<
            (Seq<u8>, nat),
            BfErr,
        >((Seq::empty(), (2 * (256 - w) + 1) as nat)));
        assert(run_from(p, OverflowPolicy::Wrap, plus_loop_body(tape_size, v), b) == Ok::<
            (Seq<u8>, nat),
            BfErr,
        >((Seq::empty(), (2 * (256 - v)) as nat)));
    }
}

/// The sharp end of the budget law: with 512 or more steps allowed, the
/// runaway program's cell wraps back to zero and the run ends with empty
/// output after exactly 512 instructions.
pub proof fn lemma_plus_loop_halts(l: u64, tape_size: nat)
    requires
        tape_size >= 1,
        l >= 512,
    ensures
        interp_spec(plus_loop(), OverflowPolicy::Wrap, tape_size, l as nat) == Ok::<
            (Seq<u8>, nat),
            BfErr,
        >((Seq::empty(), 512nat)),
{
    let p = plus_loop();
    lemma_plus_loop_facts();
    let s0 = init_state(tape_size);
    let s1 = MachState { ip: 1, tp: 0, tape: s0.tape.update(0, 1u8), out: Seq::empty() };
    assert(s0.tape[0] == 0);
    assert(step(p, OverflowPolicy::Wrap, s0) == StepResult::Running(s1));
    assert(s1.tape[0] == 1);
    let s2 = plus_loop_body(tape_size, 1u8);
    assert(s1.tape =~= s2.tape);
    assert(step(p, OverflowPolicy::Wrap, s1) == StepResult::Running(s2));
    lemma_plus_loop_runs_out(tape_size, 1u8, (l - 2) as nat);
    assert(run_from(p, OverflowPolicy::Wrap, s2, (l - 2) as nat) == Ok::<(Seq<u8>, nat), BfErr>(
        (Seq::empty(), 510nat),
    ));
    assert(run_from(p, OverflowPolicy::Wrap, s1, (l - 1) as nat) == Ok::<(Seq<u8>, nat), BfErr>(
        (Seq::empty(), 511nat),
    ));
    assert(run_from(p, OverflowPolicy::Wrap, s0, l as nat) == Ok::<(Seq<u8>, nat), BfErr>(
        (Seq::empty(), 512nat),
    ));
}

/// The runaway program `+[+]` under `Wrap` with a nonzero budget `l`
/// below 512 stops with `InstrLimitExceeded` after executing exactly `l`
/// instructions; from 512 steps on, `lemma_plus_loop_halts` shows its
/// cell wrapping to zero and the program ending instead.
pub proof fn lemma_plus_loop_budget(l: u64, tape_size: nat)
    requires
        tape_size >= 1,
        1 <= l < 512,
    ensures
        interp_spec(plus_loop(), OverflowPolicy::Wrap, tape_size, l as nat) == Err::<
            (Seq<u8>, nat),
            BfErr,
        >(BfErr::InstrLimitExceeded),
{
    let p = plus_loop();
    lemma_plus_loop_facts();
    let err = Err::<(Seq<u8>, nat), BfErr>(BfErr::InstrLimitExceeded);
    let s0 = init_state(tape_size);
    let s1 = MachState { ip: 1, tp: 0, tape: s0.tape.update(0, 1u8), out: Seq::empty() };
    assert(s0.tape[0] == 0);
    assert(step(p, OverflowPolicy::Wrap, s0) == StepResult::Running(s1));
    if l == 1 {
        assert(run_from(p, OverflowPolicy::Wrap, s1, 0nat) == err);
        assert(run_from(p, OverflowPolicy::Wrap, s0, 1nat) == err);
    } else {
        assert(s1.tape[0] == 1);
        let s2 = plus_loop_body(tape_size, 1u8);
        assert(s1.tape =~= s2.tape);
        assert(step(p, OverflowPolicy::Wrap, s1) == StepResult::Running(s2));
        lemma_plus_loop_spins(tape_size, 1u8, (l - 2) as nat);
        assert(run_from(p, OverflowPolicy::Wrap, s2, (l - 2) as nat) == err);
        assert(run_from(p, OverflowPolicy::Wrap, s1, (l - 1) as nat) == err);
        assert(run_from(p, OverflowPolicy::Wrap, s0, l as nat) == err);
    }
}

} // verus!
