//! The view's behaviour over whole sessions.
//!
//! A session is a sequence of user events and fetch outcomes.  [`step`]
//! is the mathematical transition that every exec transition of
//! [`crate::state::AppState`] promises to follow, and the lemmas here
//! state what holds of any sequence of steps: the rendered snapshot is
//! exactly what the last successful fetch returned — creates, updates and
//! deletes never patch it locally.

use vstd::prelude::*;
use crate::model::StudentView;
use crate::numtext::age_of_text;
use crate::render::rows_of;
use crate::state::StateView;

verus! {

/// One event of a session: a user action on the form or list, or the
/// outcome of a fetch of the full collection.  `RequestDelete` is the
/// "Delete" click itself; its effect on the list only ever arrives as a
/// later `Fetch`.
pub ghost enum Op {
    SetDraftName(Seq<char>),
    SetDraftAge(Seq<char>),
    SetDraftSubject(Seq<char>),
    BeginEdit(int),
    EditName(Seq<char>),
    EditAgeText(Seq<char>),
    EditSubject(Seq<char>),
    CancelEdit,
    SubmitCreate,
    SubmitUpdate,
    RequestDelete(int),
    Fetch(Option<Seq<StudentView>>),
}

/// The state after one event.  Events whose exec transition has a
/// precondition (an edit event with nothing being edited, an index out of
/// range) leave the state as it is here, so that every sequence of events
/// has a meaning.
pub open spec fn step(s: StateView, op: Op) -> StateView {
    match op {
        Op::SetDraftName(t) => StateView { draft_name: t, ..s },
        Op::SetDraftAge(t) => StateView { draft_age: t, ..s },
        Op::SetDraftSubject(t) => StateView { draft_subject: t, ..s },
        Op::BeginEdit(i) => if 0 <= i < s.students.len() {
            StateView { editing: Some(s.students[i]), ..s }
        } else {
            s
        },
        Op::EditName(t) => match s.editing {
            Some(e) => StateView { editing: Some(StudentView { name: t, ..e }), ..s },
            None => s,
        },
        Op::EditAgeText(t) => match s.editing {
            Some(e) => StateView {
                editing: Some(StudentView { age: age_of_text(t), ..e }),
                ..s
            },
            None => s,
        },
        Op::EditSubject(t) => match s.editing {
            Some(e) => StateView { editing: Some(StudentView { subject: t, ..e }), ..s },
            None => s,
        },
        Op::CancelEdit => StateView { editing: None, ..s },
        Op::SubmitCreate => StateView {
            draft_name: Seq::<char>::empty(),
            draft_age: Seq::<char>::empty(),
            draft_subject: Seq::<char>::empty(),
            ..s
        },
        Op::SubmitUpdate => StateView { editing: None, ..s },
        Op::RequestDelete(i) => s,
        Op::Fetch(r) => match r {
            Some(l) => StateView { students: l, ..s },
            None => s,
        },
    }
}

/// The state after a whole sequence of events.
pub open spec fn run(s: StateView, ops: Seq<Op>) -> StateView
    decreases ops.len(),
{
    if ops.len() == 0 {
        s
    } else {
        step(run(s, ops.drop_last()), ops.last())
    }
}

/// What the last successful fetch in `ops` returned, or `init` when no
/// fetch succeeded.
pub open spec fn last_fetch(init: Seq<StudentView>, ops: Seq<Op>) -> Seq<StudentView>
    decreases ops.len(),
{
    if ops.len() == 0 {
        init
    } else {
        match ops.last() {
            Op::Fetch(Some(l)) => l,
            _ => last_fetch(init, ops.drop_last()),
        }
    }
}

/// After any sequence of events — creates, updates, deletes, edits,
/// typing, fetches — the held snapshot is exactly what the last
/// successful fetch returned (or the starting snapshot when none
/// succeeded).  No event patches the list locally.
pub proof fn lemma_list_is_last_fetch(s: StateView, ops: Seq<Op>)
    ensures
        run(s, ops).students == last_fetch(s.students, ops),
    decreases ops.len(),
{
    if ops.len() > 0 {
        lemma_list_is_last_fetch(s, ops.drop_last());
    }
}

/// The rendered list after any sequence of events is exactly the
/// rendering of what the last successful fetch returned: one row per
/// fetched record, in fetched order.
pub proof fn lemma_rendered_list_is_last_fetch(s: StateView, ops: Seq<Op>)
    ensures
        rows_of(run(s, ops).students) == rows_of(last_fetch(s.students, ops)),
{
    lemma_list_is_last_fetch(s, ops);
}

} // verus!
