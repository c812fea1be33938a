//! The fitness evaluator: turns an execution result into a scalar score
//! against the target string.  Lower is better and 0 is a perfect
//! solution.
//!
//! The score of a successful execution is the byte-distance between its
//! output and the target: the sum of absolute byte differences over the
//! overlapping positions, plus the byte values of the longer string's
//! tail.  Every failing execution scores the fixed penalty
//! `BAD_PROGRAM_PENALTY`, so a wrong-but-running program always outranks
//! a non-running one.

use vstd::prelude::*;

use crate::bf::{interp_spec, res_view, effective_budget, BfErr};
use crate::config::{Config, ConfigV, FILLER_GENE, MAX_MEASURED_LEN};
use vstd::string::{StrSliceExecFns, StringSliceAdditionalSpecFns};

verus! {

/// The score of every failing execution; strictly larger than any
/// byte-distance reachable by a running program of comparable length.
pub const BAD_PROGRAM_PENALTY: u64 = 10000;

/// The absolute difference of two byte values.
pub open spec fn abs_diff(a: u8, b: u8) -> nat {
    if a >= b {
        (a - b) as nat
    } else {
        (b - a) as nat
    }
}

/// The byte of `s` at position `i`, with positions beyond the end reading
/// as zero.
pub open spec fn byte_at(s: Seq<u8>, i: int) -> u8 {
    if 0 <= i < s.len() {
        s[i]
    } else {
        0
    }
}

/// The length of the longer of two byte strings.
pub open spec fn max_len(x: Seq<u8>, y: Seq<u8>) -> int {
    if x.len() >= y.len() {
        x.len() as int
    } else {
        y.len() as int
    }
}

/// The byte-distance of `x` and `y` summed from position `i` on.
pub open spec fn seq_diff_from(x: Seq<u8>, y: Seq<u8>, i: int) -> nat
    decreases max_len(x, y) - i,
{
    if i < 0 || i >= max_len(x, y) {
        0
    } else {
        abs_diff(byte_at(x, i), byte_at(y, i)) + seq_diff_from(x, y, i + 1)
    }
}

/// The byte-distance of two byte strings: absolute differences over the
/// overlap, plus the byte values of the longer one's tail.
pub open spec fn seq_diff(x: Seq<u8>, y: Seq<u8>) -> nat {
    seq_diff_from(x, y, 0)
}

/// The byte-distance from position `i` on is bounded by 255 per
/// remaining position.
proof fn lemma_seq_diff_le(x: Seq<u8>, y: Seq<u8>, i: int)
    requires
        0 <= i <= max_len(x, y),
    ensures
        seq_diff_from(x, y, i) <= 255 * (max_len(x, y) - i),
    decreases max_len(x, y) - i,
{
    if i < max_len(x, y) {
        lemma_seq_diff_le(x, y, i + 1);
    }
}

/// The byte-distance from position `i` on vanishes exactly when the two
/// strings agree, byte for byte, from `i` on (positions beyond an end
/// reading as zero).
proof fn lemma_seq_diff_from_zero(x: Seq<u8>, y: Seq<u8>, i: int)
    requires
        0 <= i,
    ensures
        seq_diff_from(x, y, i) == 0 <==> forall|k: int| i <= k ==> byte_at(x, k) == byte_at(y, k),
    decreases max_len(x, y) - i,
{
    if i >= max_len(x, y) {
        assert forall|k: int| i <= k implies byte_at(x, k) == byte_at(y, k) by {
            assert(byte_at(x, k) == 0);
            assert(byte_at(y, k) == 0);
        }
    } else {
        lemma_seq_diff_from_zero(x, y, i + 1);
        if seq_diff_from(x, y, i) == 0 {
            assert(byte_at(x, i) == byte_at(y, i));
        }
    }
}

/// The byte-distance of two strings is zero exactly when they agree at
/// every position, with positions beyond either end reading as zero; two
/// strings of equal length are then equal.
pub proof fn lemma_seq_diff_zero(x: Seq<u8>, y: Seq<u8>)
    ensures
        seq_diff(x, y) == 0 <==> forall|k: int| 0 <= k ==> byte_at(x, k) == byte_at(y, k),
        (x.len() == y.len() && seq_diff(x, y) == 0) ==> x == y,
{
    lemma_seq_diff_from_zero(x, y, 0);
    if x.len() == y.len() && seq_diff(x, y) == 0 {
        assert forall|k: int| 0 <= k < x.len() implies x[k] == y[k] by {
            assert(byte_at(x, k) == byte_at(y, k));
        }
        assert(x =~= y);
    }
}

/// Computes the byte-distance of two byte strings.
pub fn bytes_difference(x: &Vec<u8>, y: &Vec<u8>) -> (r: u64)
    requires
        x@.len() <= MAX_MEASURED_LEN,
        y@.len() <= MAX_MEASURED_LEN,
    ensures
        r == seq_diff(x@, y@),
{
    let xn: usize = x.len();
    let yn: usize = y.len();
    let n: usize = if xn >= yn {
        xn
    } else {
        yn
    };
    let mut acc: u64 = 0;
    let mut i: usize = 0;
    proof {
        lemma_seq_diff_le(x@, y@, 0);
    }
    while i < n
        invariant
            i <= n,
            n == max_len(x@, y@),
            xn == x@.len(),
            yn == y@.len(),
            n <= MAX_MEASURED_LEN,
            acc + seq_diff_from(x@, y@, i as int) == seq_diff(x@, y@),
            acc <= 255 * i,
        decreases n - i,
    {
        let xb: u8 = if i < xn {
            x[i]
        } else {
            0
        };
        let yb: u8 = if i < yn {
            y[i]
        } else {
            0
        };
        let d: u8 = if xb >= yb {
            xb - yb
        } else {
            yb - xb
        };
        proof {
            assert(xb == byte_at(x@, i as int));
            assert(yb == byte_at(y@, i as int));
            assert(acc + 255 < u64::MAX) by {
                assert(acc <= 255 * i);
                assert(i < n <= MAX_MEASURED_LEN);
                assert(255 * i <= 255 * (MAX_MEASURED_LEN as int)) by (nonlinear_arith)
                    requires
                        0 <= i <= MAX_MEASURED_LEN,
                ;
            }
        }
        acc = acc + d as u64;
        i = i + 1;
        proof {
            assert(255 * (i - 1) + 255 == 255 * i) by (nonlinear_arith);
        }
    }
    acc
}

/// Computes the byte-distance of the UTF-8 encodings of two strings.
pub fn string_difference(x: &str, y: &str) -> (r: u64)
    requires
        x.spec_bytes().len() <= MAX_MEASURED_LEN,
        y.spec_bytes().len() <= MAX_MEASURED_LEN,
    ensures
        r == seq_diff(x.spec_bytes(), y.spec_bytes()),
{
    let xv: Vec<u8> = x.as_bytes_vec();
    let yv: Vec<u8> = y.as_bytes_vec();
    bytes_difference(&xv, &yv)
}

/// The score a spec-level execution result earns against the target.
pub open spec fn spec_result_fitness(cfg: ConfigV, r: Result<(Seq<u8>, nat), BfErr>) -> nat {
    match r {
        Ok((o, n)) => seq_diff(o, cfg.target),
        Err(_) => BAD_PROGRAM_PENALTY as nat,
    }
}

/// The score of a chromosome: the score its execution under the
/// configured limits earns.
pub open spec fn spec_fitness(cfg: ConfigV, chr: Seq<char>) -> nat {
    spec_result_fitness(
        cfg,
        interp_spec(chr, cfg.policy, cfg.tape_size as nat, effective_budget(cfg.instr_limit)),
    )
}

/// A fitness value always fits in 64 bits under a well-formed
/// configuration, for any result whose output a bounded run can produce.
pub proof fn lemma_result_fitness_bound(cfg: ConfigV, r: Result<(Seq<u8>, nat), BfErr>)
    requires
        cfg.wf(),
        match r {
            Ok((o, n)) => o.len() <= MAX_MEASURED_LEN,
            Err(_) => true,
        },
    ensures
        spec_result_fitness(cfg, r) <= 255 * (2 * MAX_MEASURED_LEN),
        spec_result_fitness(cfg, r) < u64::MAX,
{
    match r {
        Ok((o, n)) => {
            lemma_seq_diff_le(o, cfg.target, 0);
            assert(max_len(o, cfg.target) <= 2 * MAX_MEASURED_LEN);
            assert(255 * max_len(o, cfg.target) <= 255 * (2 * MAX_MEASURED_LEN))
                by (nonlinear_arith)
                requires
                    0 <= max_len(o, cfg.target) <= 2 * MAX_MEASURED_LEN,
            ;
        },
        Err(_) => {},
    }
}

/// Scores a cached execution result against the target: the byte-distance
/// of the output for a successful run, the fixed penalty for any failing
/// one.  When the result is the one the chromosome's execution yields,
/// the score is exactly the chromosome's fitness.
pub fn fitness(
    chromosome: &Vec<char>,
    bf_result: &Result<(Vec<u8>, u64), BfErr>,
    cfg: &Config,
) -> (r: u64)
    requires
        cfg@.wf(),
        match bf_result {
            Ok((o, n)) => o@.len() <= MAX_MEASURED_LEN,
            Err(_) => true,
        },
    ensures
        r == spec_result_fitness(cfg@, res_view(*bf_result)),
        res_view(*bf_result) == interp_spec(
            chromosome@,
            cfg@.policy,
            cfg@.tape_size as nat,
            effective_budget(cfg@.instr_limit),
        ) ==> r == spec_fitness(cfg@, chromosome@),
{
    match bf_result {
        Ok((output, _num_instructions)) => bytes_difference(output, &cfg.target),
        Err(_) => BAD_PROGRAM_PENALTY,
    }
}

/// Counts the genes of a chromosome that are not the inert filler.
pub open spec fn spec_program_length_from(chr: Seq<char>, i: int) -> nat
    decreases chr.len() - i,
{
    if i < 0 || i >= chr.len() {
        0
    } else if chr[i] == FILLER_GENE {
        spec_program_length_from(chr, i + 1)
    } else {
        spec_program_length_from(chr, i + 1) + 1
    }
}

/// The number of non-filler genes of a chromosome.
pub open spec fn spec_program_length(chr: Seq<char>) -> nat {
    spec_program_length_from(chr, 0)
}

/// The length from position `i` on counts at most the remaining
/// positions.
proof fn lemma_program_length_le(chr: Seq<char>, i: int)
    requires
        0 <= i <= chr.len(),
    ensures
        spec_program_length_from(chr, i) <= chr.len() - i,
    decreases chr.len() - i,
{
    if i < chr.len() {
        lemma_program_length_le(chr, i + 1);
    }
}

/// Counts the non-filler genes of a chromosome.
pub fn program_length(chromosome: &Vec<char>) -> (r: u64)
    ensures
        r == spec_program_length(chromosome@),
{
    let n: usize = chromosome.len();
    let mut count: u64 = 0;
    let mut i: usize = 0;
    proof {
        lemma_program_length_le(chromosome@, 0);
    }
    while i < n
        invariant
            i <= n,
            n == chromosome@.len(),
            count + spec_program_length_from(chromosome@, i as int) == spec_program_length(
                chromosome@,
            ),
            count <= i,
        decreases n - i,
    {
        if chromosome[i] != FILLER_GENE {
            count = count + 1;
        }
        i = i + 1;
    }
    count
}

/// A chromosome's fitness is zero exactly when it executes successfully
/// and its output agrees with the target at every byte, positions beyond
/// either end reading as zero; an output of the target's exact length is
/// then the target itself.
pub proof fn lemma_fitness_zero(cfg: ConfigV, chr: Seq<char>)
    requires
        cfg.wf(),
    ensures
        spec_fitness(cfg, chr) == 0 <==> match interp_spec(
            chr,
            cfg.policy,
            cfg.tape_size as nat,
            effective_budget(cfg.instr_limit),
        ) {
            Ok((o, n)) => forall|k: int| 0 <= k ==> byte_at(o, k) == byte_at(cfg.target, k),
            Err(_) => false,
        },
        match interp_spec(
            chr,
            cfg.policy,
            cfg.tape_size as nat,
            effective_budget(cfg.instr_limit),
        ) {
            Ok((o, n)) => o.len() == cfg.target.len() && spec_fitness(cfg, chr) == 0 ==> o
                == cfg.target,
            Err(_) => true,
        },
{
    match interp_spec(chr, cfg.policy, cfg.tape_size as nat, effective_budget(cfg.instr_limit)) {
        Ok((o, n)) => {
            lemma_seq_diff_zero(o, cfg.target);
        },
        Err(_) => {},
    }
}

} // verus!
