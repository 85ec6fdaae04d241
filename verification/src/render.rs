//! The textual form of a matrix: `{1 2 3, 4 5 6}`, and with its shape in
//! front of it, `Matrix[2x3]: {1 2 3, 4 5 6}`. The braces stand around the
//! whole, so a matrix without rows reads `{}`.
//!
//! How a single element or a number reads is what its `Display`
//! implementation makes of it; `vstd` states that of `to_string` through
//! `to_string_from_display_ensures`. Everything around the elements is laid
//! out here.

use crate::matrix::Matrix;
use std::fmt::Display;
use vstd::prelude::*;
use vstd::string::*;

verus! {

/// The `n` texts of `cells` from position `start` on, with one space between
/// neighbours.
pub open spec fn joined(cells: Seq<Seq<char>>, start: int, n: nat) -> Seq<char>
    decreases n,
{
    if n == 0 {
        Seq::empty()
    } else if n == 1 {
        cells[start]
    } else {
        joined(cells, start, (n - 1) as nat) + seq![' '] + cells[start + n - 1]
    }
}

/// What opens row `i`: a brace before the first row, a space before the
/// others.
pub open spec fn row_opening(i: int) -> char {
    if i == 0 {
        '{'
    } else {
        ' '
    }
}

/// What closes row `i` of `rows` rows: a brace after the last row, a comma
/// after the others.
pub open spec fn row_closing(i: int, rows: int) -> char {
    if i == rows - 1 {
        '}'
    } else {
        ','
    }
}

/// The first `n` rows of a `rows` by `cols` matrix whose elements read as
/// `cells`, row by row.
pub open spec fn rendered_rows(cells: Seq<Seq<char>>, rows: nat, cols: nat, n: nat) -> Seq<char>
    decreases n,
{
    if n == 0 {
        Seq::empty()
    } else {
        rendered_rows(cells, rows, cols, (n - 1) as nat) + seq![row_opening(n - 1)] + joined(
            cells,
            (n - 1) * cols,
            cols,
        ) + seq![row_closing(n - 1, rows as int)]
    }
}

/// A `rows` by `cols` matrix whose elements read as `cells`: the rows between
/// braces, a comma and a space between two rows, a space between two
/// elements of a row. A matrix without rows reads as a pair of braces.
pub open spec fn rendered(cells: Seq<Seq<char>>, rows: nat, cols: nat) -> Seq<char> {
    if rows == 0 {
        seq!['{', '}']
    } else {
        rendered_rows(cells, rows, cols, rows)
    }
}

/// The characters of each of `cells`.
pub open spec fn texts(cells: Seq<String>) -> Seq<Seq<char>> {
    cells.map_values(|c: String| c@)
}

/// `text` is what `Display` may make of `x`.
pub open spec fn shows<T: Display>(x: T, text: String) -> bool {
    to_string_from_display_ensures::<T>(&x, text)
}

/// `text` is the matrix `m` in its plain form, each element as its `Display`
/// implementation shows it.
pub open spec fn is_rendering<T: Display>(m: Matrix<T>, text: Seq<char>) -> bool {
    exists|cells: Seq<String>|
        {
            &&& cells.len() == m.data@.len()
            &&& forall|k: int| 0 <= k < cells.len() ==> shows(m.data@[k], #[trigger] cells[k])
            &&& text == rendered(texts(cells), m.row as nat, m.col as nat)
        }
}

/// The plain form `body` with the shape in front of it, the numbers of rows
/// and columns reading as `rows` and `cols`.
pub open spec fn with_shape(rows: Seq<char>, cols: Seq<char>, body: Seq<char>) -> Seq<char> {
    seq!['M', 'a', 't', 'r', 'i', 'x', '['] + rows + seq!['x'] + cols + seq![']', ':', ' '] + body
}

/// `text` is the matrix `m` in its long form: `Matrix[`, the number of rows,
/// `x`, the number of columns, `]: ` and the plain form.
pub open spec fn is_debug_rendering<T: Display>(m: Matrix<T>, text: Seq<char>) -> bool {
    exists|rows: String, cols: String, body: Seq<char>|
        {
            &&& shows(m.row, rows)
            &&& shows(m.col, cols)
            &&& is_rendering(m, body)
            &&& text == with_shape(rows@, cols@, body)
        }
}

/// Lays out the texts of the elements of a `row` by `col` matrix.
pub fn layout(row: usize, col: usize, cells: &Vec<String>) -> (s: String)
    requires
        cells@.len() == row * col,
    ensures
        s@ == rendered(texts(cells@), row as nat, col as nat),
{
    if row == 0 {
        proof {
            reveal_strlit("{}");
        }
        return String::from_str("{}");
    }
    let ghost all = texts(cells@);
    proof {
        vstd::std_specs::vec::axiom_spec_len(cells);
    }
    let mut out = String::new();
    let mut i: usize = 0;
    while i < row
        invariant
            cells@.len() == row * col,
            row * col <= usize::MAX,
            all == texts(cells@),
            i <= row,
            out@ == rendered_rows(all, row as nat, col as nat, i as nat),
        decreases row - i,
    {
        let ghost before = out@;
        proof {
            reveal_strlit("{");
            reveal_strlit(" ");
            reveal_strlit("}");
            reveal_strlit(",");
        }
        out.append(if i == 0 { "{" } else { " " });
        let ghost opened = out@;
        let mut j: usize = 0;
        while j < col
            invariant
                cells@.len() == row * col,
                row * col <= usize::MAX,
                all == texts(cells@),
                i < row,
                j <= col,
                out@ == opened + joined(all, i * col, j as nat),
            decreases col - j,
        {
            proof {
                reveal_strlit(" ");
                crate::matrix::lemma_cell_in_buffer(i as int, j as int, row as int, col as int);
            }
            if j > 0 {
                out.append(" ");
            }
            out.append(cells[i * col + j].as_str());
            proof {
                assert(all[i * col + j] == cells@[i * col + j]@);
                if j == 0 {
                    assert(out@ =~= opened + joined(all, i * col, 1));
                } else {
                    assert(out@ =~= opened + (joined(all, i * col, j as nat) + seq![' '] + all[i
                        * col + j]));
                }
            }
            j = j + 1;
        }
        out.append(if i == row - 1 { "}" } else { "," });
        proof {
            assert(out@ =~= before + seq![row_opening(i as int)] + joined(all, i * col, col as nat)
                + seq![row_closing(i as int, row as int)]);
        }
        i = i + 1;
    }
    out
}

impl<T: Display> Matrix<T> {
    /// The matrix in its plain form: `{1 2 3, 4 5 6}`.
    pub fn render(&self) -> (s: String)
        requires
            self.wf(),
        ensures
            is_rendering(*self, s@),
    {
        let mut cells: Vec<String> = Vec::new();
        let mut k: usize = 0;
        while k < self.data.len()
            invariant
                k <= self.data@.len(),
                cells@.len() == k,
                forall|n: int| 0 <= n < k ==> shows(self.data@[n], #[trigger] cells@[n]),
            decreases self.data@.len() - k,
        {
            cells.push(self.data[k].to_string());
            k = k + 1;
        }
        layout(self.row, self.col, &cells)
    }

    /// The matrix in its long form: `Matrix[2x3]: {1 2 3, 4 5 6}`.
    pub fn render_debug(&self) -> (s: String)
        requires
            self.wf(),
        ensures
            is_debug_rendering(*self, s@),
    {
        let rows = self.row.to_string();
        let cols = self.col.to_string();
        let body = self.render();
        let mut out = String::from_str("Matrix[");
        out.append(rows.as_str());
        out.append("x");
        out.append(cols.as_str());
        out.append("]: ");
        out.append(body.as_str());
        proof {
            reveal_strlit("Matrix[");
            reveal_strlit("x");
            reveal_strlit("]: ");
            assert(out@ =~= with_shape(rows@, cols@, body@));
            assert(shows(self.row, rows) && shows(self.col, cols) && is_rendering(*self, body@));
        }
        out
    }
}

} // verus!
