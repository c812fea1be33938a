//! Rendering of program text: the final chromosome is emitted with all
//! filler characters stripped and a line break inserted every fixed
//! column width.

use vstd::prelude::*;

use crate::config::FILLER_GENE;

verus! {

/// The column width of rendered program text.
pub const SOURCE_COLUMNS: usize = 80;

/// The chromosome's genes from position `i` on, with the filler removed.
pub open spec fn spec_strip_from(chr: Seq<char>, i: int) -> Seq<char>
    decreases chr.len() - i,
{
    if i < 0 || i >= chr.len() {
        Seq::empty()
    } else if chr[i] == FILLER_GENE {
        spec_strip_from(chr, i + 1)
    } else {
        seq![chr[i]] + spec_strip_from(chr, i + 1)
    }
}

/// The chromosome with its filler genes removed.
pub open spec fn spec_strip(chr: Seq<char>) -> Seq<char> {
    spec_strip_from(chr, 0)
}

/// The text from position `i` on, with a line break inserted before
/// every later position that starts a new column block.
pub open spec fn spec_break_from(s: Seq<char>, i: int) -> Seq<char>
    decreases s.len() - i,
{
    if i < 0 || i >= s.len() {
        Seq::empty()
    } else if i != 0 && i % (SOURCE_COLUMNS as int) == 0 {
        seq!['\n', s[i]] + spec_break_from(s, i + 1)
    } else {
        seq![s[i]] + spec_break_from(s, i + 1)
    }
}

/// A chromosome rendered as program text: filler stripped, a line break
/// every `SOURCE_COLUMNS` characters.
pub open spec fn spec_format(chr: Seq<char>) -> Seq<char> {
    spec_break_from(spec_strip(chr), 0)
}

/// Relies on `FromIterator for String` (via `Iterator::collect` over the
/// vector's characters): builds the string holding exactly the given
/// characters, in order.
#[verifier::external_body]
fn chars_to_string(v: &Vec<char>) -> (s: String)
    ensures
        s@ == v@,
{
    v.iter().collect()
}

/// Renders a chromosome as program text: strips every filler gene and
/// inserts a line break every `SOURCE_COLUMNS` characters.
pub fn format_source(chromosome: &Vec<char>) -> (r: String)
    ensures
        r@ == spec_format(chromosome@),
{
    let n: usize = chromosome.len();
    let mut stripped: Vec<char> = Vec::new();
    let mut i: usize = 0;
    proof {
        assert(Seq::<char>::empty() + spec_strip_from(chromosome@, 0) =~= spec_strip(
            chromosome@,
        ));
    }
    while i < n
        invariant
            i <= n,
            n == chromosome@.len(),
            spec_strip(chromosome@) == stripped@ + spec_strip_from(chromosome@, i as int),
        decreases n - i,
    {
        let c: char = chromosome[i];
        if c != FILLER_GENE {
            stripped.push(c);
            proof {
                assert(stripped@.drop_last().push(c) =~= stripped@);
                assert(stripped@.drop_last() + (seq![c] + spec_strip_from(
                    chromosome@,
                    i + 1,
                )) =~= stripped@ + spec_strip_from(chromosome@, i + 1));
            }
        }
        i = i + 1;
    }
    proof {
        assert(stripped@ + spec_strip_from(chromosome@, n as int) =~= stripped@);
    }
    let m: usize = stripped.len();
    let mut out: Vec<char> = Vec::new();
    let mut j: usize = 0;
    proof {
        assert(Seq::<char>::empty() + spec_break_from(stripped@, 0) =~= spec_break_from(
            stripped@,
            0,
        ));
        assert(spec_format(chromosome@) == spec_break_from(stripped@, 0));
    }
    while j < m
        invariant
            j <= m,
            m == stripped@.len(),
            spec_format(chromosome@) == out@ + spec_break_from(stripped@, j as int),
        decreases m - j,
    {
        let ghost before = out@;
        let c: char = stripped[j];
        if j != 0 && j % SOURCE_COLUMNS == 0 {
            out.push('\n');
            out.push(c);
            proof {
                assert(out@ =~= before.push('\n').push(c));
                assert(before + (seq!['\n', c] + spec_break_from(stripped@, j + 1)) =~= out@
                    + spec_break_from(stripped@, j + 1));
            }
        } else {
            out.push(c);
            proof {
                assert(before + (seq![c] + spec_break_from(stripped@, j + 1)) =~= out@
                    + spec_break_from(stripped@, j + 1));
            }
        }
        j = j + 1;
    }
    proof {
        assert(out@ + spec_break_from(stripped@, m as int) =~= out@);
    }
    chars_to_string(&out)
}

} // verus!
