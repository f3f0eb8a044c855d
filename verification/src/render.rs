//! A human-readable rendering of a matrix, for logs and demonstrations.
use crate::grid::Grid;
use crate::matrix::Matrix;
use vstd::prelude::*;
use vstd::string::*;

verus! {

/// The text that std's `Debug` formatting gives for a slice of `i64` with the
/// elements `row`.
pub uninterp spec fn row_text(row: Seq<i64>) -> Seq<char>;

/// Formats a slice of `i64` with `{:?}`, which is std's `Debug` for slices:
/// the text depends on the elements alone, and the contract gives it the name
/// `row_text`. Nothing else is claimed of it.
#[verifier::external_body]
fn debug_row(row: &[i64]) -> (text: String)
    ensures
        text@ == row_text(row@),
{
    format!("{:?}", row)
}

/// The lines of the given rows: each row indented by two spaces and closed
/// by a comma and a line break.
pub open spec fn rendered_rows(rows: Seq<Seq<i64>>) -> Seq<char>
    decreases rows.len(),
{
    if rows.len() == 0 {
        Seq::empty()
    } else {
        rendered_rows(rows.drop_last()) + "  "@ + row_text(rows.last()) + ",\n"@
    }
}

/// The rendering of a matrix: an opening bracket on a line of its own, one
/// line for each row, top to bottom, and a closing bracket.
pub open spec fn rendered(grid: Grid<i64>) -> Seq<char> {
    "[\n"@ + rendered_rows(grid.rows()) + "]"@
}

impl Matrix<i64> {
    /// This matrix as text, one line for each row between two brackets.
    pub fn render(&self) -> (text: String)
        ensures
            text@ == rendered(self@),
    {
        let height: usize = self.height();
        let mut text = String::new();
        text.append("[\n");
        let mut y: usize = 0;
        while y < height
            invariant
                y <= height,
                height == self@.height,
                text@ == "[\n"@ + rendered_rows(self@.rows().take(y as int)),
            decreases height - y,
        {
            let line = debug_row(self.row(y));
            let ghost before = text@;
            text.append("  ");
            text.append(line.as_str());
            text.append(",\n");
            proof {
                let done = self@.rows().take(y + 1);
                assert(done.drop_last() =~= self@.rows().take(y as int));
                assert(done.last() == self@.row(y as int));
                assert(text@ =~= "[\n"@ + rendered_rows(done));
            }
            y += 1;
        }
        proof {
            assert(self@.rows().take(height as int) =~= self@.rows());
        }
        text.append("]");
        text
    }
}

} // verus!
