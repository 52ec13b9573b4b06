//! Pure projection from state to the text of the list rows.

use vstd::prelude::*;
use vstd::string::{StrSliceExecFns, StringExecFns};
use crate::model::{Student, StudentView};
use crate::numtext::{age_text, dec_rep};
use crate::state::AppState;

verus! {

/// The text of one list row: name, age and subject, as the list shows
/// them.
pub open spec fn row_of(v: StudentView) -> Seq<char> {
    v.name + " - "@ + dec_rep(v.age as int) + " a\u{f1}os - "@ + v.subject
}

/// The rows for a whole snapshot, in order.
pub open spec fn rows_of(students: Seq<StudentView>) -> Seq<Seq<char>> {
    students.map_values(|v: StudentView| row_of(v))
}

/// Render one record's row.
pub fn row_text(s: &Student) -> (r: String)
    ensures
        r@ == row_of(s@),
{
    let mut out = String::new();
    out.append(s.name.as_str());
    out.append(" - ");
    let at = age_text(s.age);
    out.append(at.as_str());
    out.append(" a\u{f1}os - ");
    out.append(s.subject.as_str());
    proof {
        assert(out@ =~= row_of(s@));
    }
    out
}

/// Render the whole list: exactly one row per held record, in held order
/// — the rendering reads the snapshot and nothing else.
pub fn render_rows(state: &AppState) -> (r: Vec<String>)
    ensures
        r@.len() == state@.students.len(),
        forall|i: int| 0 <= i < r@.len() ==> r@[i]@ == rows_of(state@.students)[i],
{
    let mut out: Vec<String> = Vec::new();
    let n = state.students.len();
    let mut i: usize = 0;
    while i < n
        invariant
            i <= n,
            n == state.students@.len(),
            n == state@.students.len(),
            out@.len() == i,
            forall|j: int| 0 <= j < i ==> out@[j]@ == rows_of(state@.students)[j],
        decreases n - i,
    {
        let row = row_text(&state.students[i]);
        out.push(row);
        i = i + 1;
    }
    out
}

} // verus!
