//! The column-layout solver: a feasibility predicate over a uniform
//! column-major grid, and a binary search for the largest feasible column
//! count.

use vstd::prelude::*;

use vstd::arithmetic::div_mod::lemma_div_is_ordered;
use vstd::arithmetic::div_mod::lemma_div_plus_one;
use vstd::arithmetic::div_mod::lemma_fundamental_div_mod;
use vstd::arithmetic::div_mod::lemma_mod_division_less_than_divisor;
use vstd::arithmetic::mul::lemma_mul_inequality;

use crate::entry::File;

verus! {

/// `ceil(a / b)` for `b >= 1`.
pub open spec fn div_round_up(a: nat, b: nat) -> nat
    recommends
        b >= 1,
{
    (a + b - 1) as nat / b
}

/// How many rows a column-major grid of `n` entries in `c` columns has.
pub open spec fn spec_rows(n: nat, c: nat) -> nat
    recommends
        c >= 1,
{
    div_round_up(n, c)
}

/// How many columns row `r` of the grid participates in: entry `i` occupies
/// row `i % rows` and column `i / rows`, so row `r` holds the entries
/// `x * rows + r` for each column `x` with `x * rows + r < n`.
pub open spec fn row_cols(n: nat, rows: nat, r: nat) -> nat
    recommends
        rows >= 1,
        r < rows <= n,
{
    div_round_up((n - r) as nat, rows)
}

/// The printed width of row `r`: one fixed-width cell of `w + 2` terminal
/// columns (shared name width plus a 2-character gutter) for every grid
/// column the row participates in.
pub open spec fn row_width(n: nat, w: nat, rows: nat, r: nat) -> nat {
    row_cols(n, rows, r) * (w + 2)
}

/// The feasibility predicate: a grid of `n` entries in `c` columns (name
/// width `w`) fits a terminal `tw` columns wide iff no row's printed width
/// exceeds `tw`. With no entries there are no rows, and any count fits.
pub open spec fn fits(n: nat, w: nat, tw: nat, c: nat) -> bool
    recommends
        c >= 1,
{
    forall|r: nat| r < spec_rows(n, c) ==> #[trigger] row_width(n, w, spec_rows(n, c), r) <= tw
}

/// `div_round_up` is a correct ceiling: the quotient times `b` reaches `a`
/// but overshoots by less than `b`.
pub proof fn lemma_div_round_up_bounds(a: nat, b: nat)
    requires
        b >= 1,
    ensures
        a <= div_round_up(a, b) * b,
        div_round_up(a, b) * b < a + b,
{
    let x = (a + b - 1) as int;
    let q = div_round_up(a, b);
    lemma_fundamental_div_mod(x, b as int);
    lemma_mod_division_less_than_divisor(x, b as int);
    assert(q * b == b * q);
}

/// Anything whose multiple of `b` reaches `a` is an upper bound on the
/// ceiling quotient.
pub proof fn lemma_div_round_up_le(a: nat, b: nat, k: nat)
    requires
        b >= 1,
        a <= k * b,
    ensures
        div_round_up(a, b) <= k,
{
    lemma_div_round_up_bounds(a, b);
    if div_round_up(a, b) > k {
        lemma_mul_inequality((k + 1) as int, div_round_up(a, b) as int, b as int);
        assert((k + 1) * b == k * b + b) by (nonlinear_arith);
    }
}

/// An empty grid has no rows.
pub proof fn lemma_div_round_up_zero(b: nat)
    requires
        b >= 1,
    ensures
        div_round_up(0, b) == 0,
{
    vstd::arithmetic::div_mod::lemma_basic_div((b - 1) as int, b as int);
}

/// `div_round_up` is monotone in the numerator.
pub proof fn lemma_div_round_up_monotone(a1: nat, a2: nat, b: nat)
    requires
        b >= 1,
        a1 <= a2,
    ensures
        div_round_up(a1, b) <= div_round_up(a2, b),
{
    lemma_div_is_ordered((a1 + b - 1) as int, (a2 + b - 1) as int, b as int);
}

/// `div_round_up` is anti-monotone in the denominator.
pub proof fn lemma_div_round_up_anti_monotone(a: nat, b1: nat, b2: nat)
    requires
        1 <= b1 <= b2,
    ensures
        div_round_up(a, b2) <= div_round_up(a, b1),
{
    let q1 = div_round_up(a, b1);
    lemma_div_round_up_bounds(a, b1);
    lemma_mul_inequality(b1 as int, b2 as int, q1 as int);
    assert(q1 * b1 == b1 * q1);
    assert(q1 * b2 == b2 * q1);
    lemma_div_round_up_le(a, b2, q1);
}

/// A nonempty grid has at least one row and no more rows than entries.
pub proof fn lemma_rows_range(n: nat, c: nat)
    requires
        c >= 1,
        n >= 1,
    ensures
        1 <= spec_rows(n, c) <= n,
{
    lemma_div_round_up_bounds(n, c);
    assert(1 * c == c);
    if div_round_up(n, c) == 0 {
        assert(div_round_up(n, c) * c == 0);
    }
    lemma_mul_inequality(1, c as int, n as int);
    lemma_div_round_up_le(n, c, n);
}

/// No row participates in more than `c` grid columns: the last column of a
/// partial row still reserves its slot, but the grid never widens past the
/// column count it was built for.
pub proof fn lemma_row_cols_le_c(n: nat, c: nat, r: nat)
    requires
        c >= 1,
        n >= 1,
        r < spec_rows(n, c),
    ensures
        row_cols(n, spec_rows(n, c), r) <= row_cols(n, spec_rows(n, c), 0) <= c,
{
    let rows = spec_rows(n, c);
    lemma_rows_range(n, c);
    lemma_div_round_up_monotone((n - r) as nat, n, rows);
    lemma_div_round_up_bounds(n, c);
    assert(rows * c == c * rows);
    lemma_div_round_up_le(n, rows, c);
}

/// Feasibility is monotonic in the column count: if `c` columns fit, so do
/// `c - 1` (fewer columns never widen any row past a width that already fit).
pub proof fn lemma_fits_monotonic(n: nat, w: nat, tw: nat, c: nat)
    requires
        c >= 2,
        fits(n, w, tw, c),
    ensures
        fits(n, w, tw, (c - 1) as nat),
{
    if n >= 1 {
        let rows_hi = spec_rows(n, c);
        let rows_lo = spec_rows(n, (c - 1) as nat);
        lemma_rows_range(n, c);
        lemma_rows_range(n, (c - 1) as nat);
        lemma_div_round_up_anti_monotone(n, (c - 1) as nat, c);
        assert forall|r: nat| r < rows_lo implies #[trigger] row_width(n, w, rows_lo, r)
            <= tw by {
            lemma_div_round_up_monotone((n - r) as nat, n, rows_lo);
            lemma_div_round_up_anti_monotone(n, rows_hi, rows_lo);
            assert(row_cols(n, rows_lo, r) <= row_cols(n, rows_hi, 0));
            lemma_mul_inequality(
                row_cols(n, rows_lo, r) as int,
                row_cols(n, rows_hi, 0) as int,
                (w + 2) as int,
            );
            assert(row_width(n, w, rows_hi, 0) <= tw);
        }
    } else {
        lemma_div_round_up_zero((c - 1) as nat);
    }
}

/// `ceil(a / b)` without overflow: `(a - 1) / b + 1` for positive `a`.
pub(crate) fn div_round_up_exec(a: usize, b: usize) -> (q: usize)
    requires
        b >= 1,
    ensures
        q as nat == div_round_up(a as nat, b as nat),
{
    if a == 0 {
        assert((b - 1) as int / b as int == 0) by {
            vstd::arithmetic::div_mod::lemma_basic_div((b - 1) as int, b as int);
        }
        0
    } else {
        proof {
            lemma_div_plus_one((a - 1) as int, b as int);
            vstd::arithmetic::div_mod::lemma_div_nonincreasing((a - 1) as int, b as int);
        }
        (a - 1) / b + 1
    }
}

/// Whether all `files` can be laid out column-major in `columns` columns
/// (name width `max_name_len`, 2-character gutters) without any row running
/// past the terminal width.
pub fn can_be_printed(term_width: &u16, files: &Vec<File>, columns: u16, max_name_len: usize) -> (ok:
    bool)
    requires
        columns >= 1,
    ensures
        ok == fits(files@.len(), max_name_len as nat, *term_width as nat, columns as nat),
{
    let n = files.len();
    let tw = *term_width as usize;
    if n == 0 {
        proof {
            lemma_div_round_up_zero(columns as nat);
        }
        return true;
    }
    proof {
        lemma_rows_range(n as nat, columns as nat);
    }
    let rows = div_round_up_exec(n, columns as usize);
    let mut r: usize = 0;
    while r < rows
        invariant
            1 <= rows <= n == files@.len(),
            rows as nat == spec_rows(n as nat, columns as nat),
            r <= rows,
            tw == *term_width as nat,
            forall|rr: nat|
                rr < r ==> #[trigger] row_width(n as nat, max_name_len as nat, rows as nat, rr)
                    <= tw,
        decreases rows - r,
    {
        let cols = div_round_up_exec(n - r, rows);
        proof {
            lemma_div_round_up_bounds((n - r) as nat, rows as nat);
            assert(cols >= 1) by {
                if cols == 0 {
                    assert(cols * rows == 0) by (nonlinear_arith)
                        requires
                            cols == 0,
                    ;
                }
            }
            assert(row_width(n as nat, max_name_len as nat, rows as nat, r as nat) == (
            cols as nat) * ((max_name_len + 2) as nat));
        }
        if max_name_len >= tw {
            proof {
                assert((cols as nat) * ((max_name_len + 2) as nat) > tw as nat)
                    by (nonlinear_arith)
                    requires
                        cols as nat >= 1,
                        max_name_len as nat >= tw as nat,
                ;
            }
            return false;
        }
        if cols > tw {
            proof {
                assert((cols as nat) * ((max_name_len + 2) as nat) > tw as nat)
                    by (nonlinear_arith)
                    requires
                        cols as nat > tw as nat,
                ;
            }
            return false;
        }
        proof {
            assert((cols as int) * ((max_name_len + 2) as int) <= 4294901760) by (nonlinear_arith)
                requires
                    0 <= cols as int <= 65535,
                    0 <= (max_name_len + 2) as int <= 65536,
            ;
        }
        let width = cols * (max_name_len + 2);
        if width > tw {
            return false;
        }
        r = r + 1;
    }
    true
}

/// The chosen column count for a listing: the largest `c` in
/// `[1, term_width]` found feasible by binary search, with a floor of one
/// column (a single column is the degenerate fallback when nothing fits, when
/// there are no entries, or when no terminal width is available).
pub fn solve_columns(term_width: u16, files: &Vec<File>, max_name_len: usize) -> (c: usize)
    ensures
        c >= 1,
        files@.len() == 0 || term_width == 0 ==> c == 1,
        files@.len() > 0 && term_width > 0 && !fits(
            files@.len(),
            max_name_len as nat,
            term_width as nat,
            1,
        ) ==> c == 1,
        files@.len() > 0 && term_width > 0 && fits(
            files@.len(),
            max_name_len as nat,
            term_width as nat,
            1,
        ) ==> {
            &&& c <= term_width
            &&& fits(files@.len(), max_name_len as nat, term_width as nat, c as nat)
            &&& (c == term_width || !fits(
                files@.len(),
                max_name_len as nat,
                term_width as nat,
                (c + 1) as nat,
            ))
        },
{
    let ghost n = files@.len();
    let ghost w = max_name_len as nat;
    let ghost tw = term_width as nat;
    if files.len() == 0 || term_width == 0 {
        return 1;
    }
    if !can_be_printed(&term_width, files, 1, max_name_len) {
        return 1;
    }
    let mut low: usize = 1;
    let mut high: usize = term_width as usize;
    while high - low > 1
        invariant
            1 <= low <= high <= term_width,
            tw == term_width as nat,
            n == files@.len(),
            w == max_name_len as nat,
            fits(n, w, tw, low as nat),
            high == term_width || !fits(n, w, tw, high as nat),
        decreases high - low,
    {
        let mid = low + (high - low) / 2;
        if can_be_printed(&term_width, files, mid as u16, max_name_len) {
            low = mid;
        } else {
            high = mid;
        }
    }
    if can_be_printed(&term_width, files, high as u16, max_name_len) {
        high
    } else {
        low
    }
}

} // verus!
