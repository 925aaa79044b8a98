//! The renderer: lay entries out column-major in the solved number of
//! columns, one fixed-width padded cell per grid column, and hand back the
//! finished lines.

use vstd::prelude::*;

use vstd::arithmetic::div_mod::lemma_fundamental_div_mod;
use vstd::arithmetic::div_mod::lemma_fundamental_div_mod_converse_div;
use vstd::arithmetic::div_mod::lemma_fundamental_div_mod_converse_mod;
use vstd::arithmetic::div_mod::lemma_mod_division_less_than_divisor;
use vstd::arithmetic::mul::lemma_mul_inequality;

use crate::entry::rendered_name;
use crate::entry::File;
use crate::layout::div_round_up_exec;
use crate::layout::lemma_div_round_up_bounds;
use crate::layout::lemma_div_round_up_zero;
use crate::layout::lemma_rows_range;
use crate::layout::row_cols;
use crate::layout::spec_rows;

verus! {

/// `k` spaces.
pub open spec fn spaces(k: nat) -> Seq<char> {
    Seq::new(k, |i: int| ' ')
}

/// One grid cell: the colorized name, padded on the right to the shared name
/// width plus the 2-character gutter — except in the row's last cell, which
/// is printed without trailing padding. Padding is measured on the visible
/// name, never on the escape sequences around it.
pub open spec fn spec_cell(f: File, w: nat, last: bool) -> Seq<char>
    recommends
        f.name@.len() <= w,
{
    if last {
        rendered_name(f.name@, f.file_type)
    } else {
        rendered_name(f.name@, f.file_type) + spaces((w - f.name@.len() + 2) as nat)
    }
}

/// Row `r` of the column-major grid, from grid column `x` on: the cell of
/// entry `x * rows + r`, then the rest of the row.
pub open spec fn spec_row(files: Seq<File>, w: nat, rows: nat, r: nat, x: nat) -> Seq<char>
    recommends
        1 <= rows <= files.len(),
        r < rows,
    decreases row_cols(files.len(), rows, r) - x,
{
    if x >= row_cols(files.len(), rows, r) {
        Seq::empty()
    } else {
        spec_cell(files[(x * rows + r) as int], w, (x + 1) as nat == row_cols(files.len(), rows, r))
            + spec_row(files, w, rows, r, (x + 1) as nat)
    }
}

/// Entry `i` has exactly one place in the column-major grid: row `i % rows`,
/// grid column `i / rows`, and that slot is within its row's cell count.
pub proof fn lemma_entry_slot(n: nat, c: nat, i: nat)
    requires
        c >= 1,
        i < n,
    ensures
        i % spec_rows(n, c) < spec_rows(n, c),
        i / spec_rows(n, c) < row_cols(n, spec_rows(n, c), i % spec_rows(n, c)),
        (i / spec_rows(n, c)) * spec_rows(n, c) + (i % spec_rows(n, c)) == i,
{
    let rows = spec_rows(n, c);
    lemma_rows_range(n, c);
    lemma_mod_division_less_than_divisor(i as int, rows as int);
    lemma_fundamental_div_mod(i as int, rows as int);
    let r = i % rows;
    let x = i / rows;
    assert(x * rows == rows * x) by (nonlinear_arith);
    assert(x * rows + r == i);
    lemma_div_round_up_bounds((n - r) as nat, rows);
    if x >= row_cols(n, rows, r) {
        lemma_mul_inequality(row_cols(n, rows, r) as int, x as int, rows as int);
        assert(row_cols(n, rows, r) * rows >= (n - r));
        assert(x * rows + r >= n);
    }
}

/// Every slot of the column-major grid holds exactly one entry: grid column
/// `x` of row `r` shows entry `x * rows + r`, which is in range, and the slot
/// is recovered from the entry index alone — so no two slots share an entry.
pub proof fn lemma_slot_entry(n: nat, c: nat, r: nat, x: nat)
    requires
        c >= 1,
        r < spec_rows(n, c),
        x < row_cols(n, spec_rows(n, c), r),
    ensures
        x * spec_rows(n, c) + r < n,
        (x * spec_rows(n, c) + r) % spec_rows(n, c) == r,
        (x * spec_rows(n, c) + r) / spec_rows(n, c) == x,
{
    let rows = spec_rows(n, c);
    assert(n >= 1) by {
        if n == 0 {
            lemma_div_round_up_zero(c);
        }
    }
    lemma_rows_range(n, c);
    lemma_div_round_up_bounds((n - r) as nat, rows);
    assert(x * rows < (n - r)) by {
        lemma_mul_inequality((x + 1) as int, row_cols(n, rows, r) as int, rows as int);
        assert((x + 1) * rows == x * rows + rows) by (nonlinear_arith);
    }
    lemma_fundamental_div_mod_converse_mod((x * rows + r) as int, rows as int, x as int, r as int);
    lemma_fundamental_div_mod_converse_div((x * rows + r) as int, rows as int, x as int, r as int);
}

/// Append `k` spaces to `line`.
fn push_spaces(line: &mut String, k: usize)
    ensures
        final (line)@ == old(line)@ + spaces(k as nat),
{
    let mut i: usize = 0;
    proof {
        assert(line@ =~= old(line)@ + spaces(0));
    }
    while i < k
        invariant
            i <= k,
            line@ == old(line)@ + spaces(i as nat),
        decreases k - i,
    {
        line.append(" ");
        proof {
            reveal_strlit(" ");
            assert(old(line)@ + spaces(i as nat) + " "@ =~= old(line)@ + spaces((i + 1) as nat));
        }
        i = i + 1;
    }
}

/// Lay the entries out column-major in `columns` columns: line `r` holds the
/// padded cells of entries `r`, `rows + r`, `2 * rows + r`, ... With no
/// entries there are no rows, and nothing is rendered.
pub fn render_grid(files: &Vec<File>, max_name_len: usize, columns: usize) -> (lines: Vec<String>)
    requires
        columns >= 1,
        forall|i: int| 0 <= i < files@.len() ==> files@[i].name@.len() <= max_name_len,
    ensures
        lines@.len() == spec_rows(files@.len(), columns as nat),
        forall|r: int|
            0 <= r < lines@.len() ==> lines@[r]@ == spec_row(
                files@,
                max_name_len as nat,
                spec_rows(files@.len(), columns as nat),
                r as nat,
                0,
            ),
{
    let n = files.len();
    let mut lines: Vec<String> = Vec::new();
    if n == 0 {
        proof {
            lemma_div_round_up_zero(columns as nat);
        }
        return lines;
    }
    proof {
        lemma_rows_range(n as nat, columns as nat);
    }
    let rows = div_round_up_exec(n, columns);
    let ghost w = max_name_len as nat;
    let mut r: usize = 0;
    while r < rows
        invariant
            n == files@.len(),
            1 <= rows <= n,
            rows as nat == spec_rows(n as nat, columns as nat),
            r <= rows,
            w == max_name_len as nat,
            lines@.len() == r,
            forall|i: int| 0 <= i < files@.len() ==> files@[i].name@.len() <= max_name_len,
            forall|rr: int|
                0 <= rr < r ==> lines@[rr]@ == spec_row(files@, w, rows as nat, rr as nat, 0),
        decreases rows - r,
    {
        let cols = div_round_up_exec(n - r, rows);
        proof {
            lemma_div_round_up_bounds((n - r) as nat, rows as nat);
            assert(cols >= 1) by {
                if cols == 0 {
                    assert(cols * rows == 0) by (nonlinear_arith)
                        requires
                            cols == 0,
                    ;
                }
            }
        }
        let mut line = String::new();
        let mut x: usize = 0;
        proof {
            assert(line@ + spec_row(files@, w, rows as nat, r as nat, 0) =~= spec_row(
                files@,
                w,
                rows as nat,
                r as nat,
                0,
            ));
        }
        while x < cols
            invariant
                n == files@.len(),
                1 <= rows <= n,
                r < rows,
                w == max_name_len as nat,
                x <= cols,
                cols as nat == row_cols(n as nat, rows as nat, r as nat),
                forall|i: int| 0 <= i < files@.len() ==> files@[i].name@.len() <= max_name_len,
                line@ + spec_row(files@, w, rows as nat, r as nat, x as nat) == spec_row(
                    files@,
                    w,
                    rows as nat,
                    r as nat,
                    0,
                ),
            decreases cols - x,
        {
            proof {
                lemma_div_round_up_bounds((n - r) as nat, rows as nat);
                assert(x * rows < (n - r)) by {
                    lemma_mul_inequality((x + 1) as int, cols as int, rows as int);
                    assert((x + 1) * rows == x * rows + rows) by (nonlinear_arith);
                }
            }
            let idx = x * rows + r;
            let f = &files[idx];
            let nm = f.show_name();
            let ghost line_before = line@;
            line.append(nm.as_str());
            if x + 1 < cols {
                let len = f.name.as_str().unicode_len();
                push_spaces(&mut line, max_name_len - len);
                line.append("  ");
                proof {
                    reveal_strlit("  ");
                    assert(("  ")@ =~= spaces(2));
                    assert(spaces((max_name_len - len) as nat) + spaces(2) =~= spaces(
                        (max_name_len - len + 2) as nat,
                    ));
                    assert(line@ =~= line_before + spec_cell(files@[idx as int], w, false));
                }
            } else {
                proof {
                    assert(line@ =~= line_before + spec_cell(files@[idx as int], w, true));
                }
            }
            proof {
                assert(line@ + spec_row(files@, w, rows as nat, r as nat, (x + 1) as nat)
                    =~= line_before + spec_row(files@, w, rows as nat, r as nat, x as nat));
            }
            x = x + 1;
        }
        proof {
            assert(spec_row(files@, w, rows as nat, r as nat, cols as nat) =~= Seq::empty());
            assert(line@ =~= line@ + spec_row(files@, w, rows as nat, r as nat, cols as nat));
        }
        lines.push(line);
        r = r + 1;
    }
    lines
}

} // verus!
