//! The view's state and its transitions.
//!
//! The state mirrors the remote collection: a snapshot of the last
//! successful fetch, three draft inputs for a new record, and at most one
//! record being edited (a scratch copy of a row).  Each user action is a
//! transition; the ones that talk to the remote store hand back the
//! request to perform, and the surrounding program always follows such a
//! request with a fresh fetch whose outcome comes back through
//! [`AppState::apply_fetch`].

use vstd::prelude::*;
use crate::decode::{parse_students, spec_parse_students};
use crate::json::{create_json, encode_create, encode_student, student_json};
use crate::laws::{step, Op};
use crate::model::{student_views, Student, StudentView};
use crate::numtext::{age_of_text, parse_age};

verus! {

/// Mathematical image of an [`ApiCall`].
pub ghost enum ApiCallView {
    Create { body: Seq<char> },
    Update { id: Seq<char>, body: Seq<char> },
    Remove { id: Seq<char> },
}

/// One HTTP request the view asks the surrounding program to perform:
/// create posts a body, update puts a body to a record's endpoint, remove
/// deletes a record's endpoint.  Every one of them is followed by a fetch
/// of the full list.
#[derive(Debug, PartialEq)]
pub enum ApiCall {
    Create { body: String },
    Update { id: String, body: String },
    Remove { id: String },
}

impl View for ApiCall {
    type V = ApiCallView;

    open spec fn view(&self) -> ApiCallView {
        match self {
            ApiCall::Create { body } => ApiCallView::Create { body: body@ },
            ApiCall::Update { id, body } => ApiCallView::Update { id: id@, body: body@ },
            ApiCall::Remove { id } => ApiCallView::Remove { id: id@ },
        }
    }
}

/// The request path under the base URL: the collection for a create, the
/// record's own endpoint for an update or a remove.
pub open spec fn call_path(c: ApiCallView) -> Seq<char> {
    match c {
        ApiCallView::Create { .. } => "/students"@,
        ApiCallView::Update { id, .. } => "/students/"@ + id,
        ApiCallView::Remove { id } => "/students/"@ + id,
    }
}

impl ApiCall {
    /// The request path for this call.
    pub fn path(&self) -> (r: String)
        ensures
            r@ == call_path(self@),
    {
        let mut out = String::new();
        match self {
            ApiCall::Create { .. } => {
                out.append("/students");
                proof {
                    assert(out@ =~= call_path(self@));
                }
            },
            ApiCall::Update { id, .. } => {
                out.append("/students/");
                out.append(id.as_str());
                proof {
                    assert(out@ =~= call_path(self@));
                }
            },
            ApiCall::Remove { id } => {
                out.append("/students/");
                out.append(id.as_str());
                proof {
                    assert(out@ =~= call_path(self@));
                }
            },
        }
        out
    }
}

/// Mathematical image of an [`AppState`].
pub ghost struct StateView {
    pub students: Seq<StudentView>,
    pub draft_name: Seq<char>,
    pub draft_age: Seq<char>,
    pub draft_subject: Seq<char>,
    pub editing: Option<StudentView>,
}

/// The whole client-side state of the view.
pub struct AppState {
    /// The full, unfiltered snapshot of the last successful fetch.  It is
    /// never patched locally: only [`AppState::apply_fetch`] replaces it.
    pub students: Vec<Student>,
    /// Draft input for a new record's name.
    pub draft_name: String,
    /// Draft input for a new record's age, as typed.
    pub draft_age: String,
    /// Draft input for a new record's subject.
    pub draft_subject: String,
    /// The scratch copy of the record being edited, if any.
    pub editing: Option<Student>,
}

impl View for AppState {
    type V = StateView;

    open spec fn view(&self) -> StateView {
        StateView {
            students: student_views(self.students@),
            draft_name: self.draft_name@,
            draft_age: self.draft_age@,
            draft_subject: self.draft_subject@,
            editing: match self.editing {
                Some(s) => Some(s@),
                None => None,
            },
        }
    }
}

impl AppState {
    /// The state at mount: empty list, empty drafts, nothing being edited.
    pub fn new() -> (s: AppState)
        ensures
            s@.students =~= Seq::<StudentView>::empty(),
            s@.draft_name =~= Seq::<char>::empty(),
            s@.draft_age =~= Seq::<char>::empty(),
            s@.draft_subject =~= Seq::<char>::empty(),
            s@.editing is None,
    {
        AppState {
            students: Vec::new(),
            draft_name: String::new(),
            draft_age: String::new(),
            draft_subject: String::new(),
            editing: None,
        }
    }

    /// Typing in the draft name input.
    pub fn set_draft_name(&mut self, t: String)
        ensures
            final(self)@ == (StateView { draft_name: t@, ..old(self)@ }),
            final(self)@ == step(old(self)@, Op::SetDraftName(t@)),
    {
        self.draft_name = t;
    }

    /// Typing in the draft age input; the text is kept as typed.
    pub fn set_draft_age(&mut self, t: String)
        ensures
            final(self)@ == (StateView { draft_age: t@, ..old(self)@ }),
            final(self)@ == step(old(self)@, Op::SetDraftAge(t@)),
    {
        self.draft_age = t;
    }

    /// Typing in the draft subject input.
    pub fn set_draft_subject(&mut self, t: String)
        ensures
            final(self)@ == (StateView { draft_subject: t@, ..old(self)@ }),
            final(self)@ == step(old(self)@, Op::SetDraftSubject(t@)),
    {
        self.draft_subject = t;
    }

    /// An "Edit" click on row `i`: clone that row into the scratch copy.
    pub fn begin_edit(&mut self, i: usize)
        requires
            i < old(self)@.students.len(),
        ensures
            final(self)@ == (StateView {
                editing: Some(old(self)@.students[i as int]),
                ..old(self)@
            }),
            final(self)@ == step(old(self)@, Op::BeginEdit(i as int)),
    {
        let s = self.students[i].clone();
        self.editing = Some(s);
    }

    /// Typing in the edit form's name input: the scratch copy gets the new
    /// name, everything else stays.
    pub fn edit_name(&mut self, t: String)
        requires
            old(self)@.editing is Some,
        ensures
            final(self)@ == step(old(self)@, Op::EditName(t@)),
            final(self)@.editing == Some(
                StudentView { name: t@, ..old(self)@.editing->Some_0 },
            ),
            final(self)@.students == old(self)@.students,
            final(self)@.draft_name == old(self)@.draft_name,
            final(self)@.draft_age == old(self)@.draft_age,
            final(self)@.draft_subject == old(self)@.draft_subject,
    {
        let cur = match &self.editing {
            Some(e) => Some(e.clone()),
            None => None,
        };
        match cur {
            Some(mut e) => {
                e.name = t;
                self.editing = Some(e);
            },
            None => {},
        }
    }

    /// Typing in the edit form's age input: the text is parsed at once,
    /// falling back to 0, exactly as the create form will on submit.
    pub fn edit_age_text(&mut self, t: &str)
        requires
            old(self)@.editing is Some,
        ensures
            final(self)@ == step(old(self)@, Op::EditAgeText(t@)),
            final(self)@.editing == Some(
                StudentView { age: age_of_text(t@), ..old(self)@.editing->Some_0 },
            ),
            final(self)@.students == old(self)@.students,
            final(self)@.draft_name == old(self)@.draft_name,
            final(self)@.draft_age == old(self)@.draft_age,
            final(self)@.draft_subject == old(self)@.draft_subject,
    {
        let cur = match &self.editing {
            Some(e) => Some(e.clone()),
            None => None,
        };
        match cur {
            Some(mut e) => {
                e.age = parse_age(t);
                self.editing = Some(e);
            },
            None => {},
        }
    }

    /// Typing in the edit form's subject input.
    pub fn edit_subject(&mut self, t: String)
        requires
            old(self)@.editing is Some,
        ensures
            final(self)@ == step(old(self)@, Op::EditSubject(t@)),
            final(self)@.editing == Some(
                StudentView { subject: t@, ..old(self)@.editing->Some_0 },
            ),
            final(self)@.students == old(self)@.students,
            final(self)@.draft_name == old(self)@.draft_name,
            final(self)@.draft_age == old(self)@.draft_age,
            final(self)@.draft_subject == old(self)@.draft_subject,
    {
        let cur = match &self.editing {
            Some(e) => Some(e.clone()),
            None => None,
        };
        match cur {
            Some(mut e) => {
                e.subject = t;
                self.editing = Some(e);
            },
            None => {},
        }
    }

    /// A "Cancel" click: the scratch copy is discarded, nothing else
    /// changes, and no request is issued.
    pub fn cancel_edit(&mut self)
        ensures
            final(self)@ == (StateView { editing: None, ..old(self)@ }),
            final(self)@ == step(old(self)@, Op::CancelEdit),
    {
        self.editing = None;
    }

    /// An "Add" click: the draft fields become the create request's body
    /// (age parsed with fallback 0), and the drafts are cleared whatever
    /// the request's outcome will be.
    pub fn submit_create(&mut self) -> (c: ApiCall)
        ensures
            c@ == (ApiCallView::Create {
                body: create_json(
                    old(self)@.draft_name,
                    age_of_text(old(self)@.draft_age),
                    old(self)@.draft_subject,
                ),
            }),
            final(self)@ == (StateView {
                draft_name: Seq::<char>::empty(),
                draft_age: Seq::<char>::empty(),
                draft_subject: Seq::<char>::empty(),
                ..old(self)@
            }),
            final(self)@ == step(old(self)@, Op::SubmitCreate),
    {
        let age = parse_age(self.draft_age.as_str());
        let body = encode_create(self.draft_name.as_str(), age, self.draft_subject.as_str());
        self.draft_name = String::new();
        self.draft_age = String::new();
        self.draft_subject = String::new();
        ApiCall::Create { body }
    }

    /// An "Update" click: the scratch copy is sent, as a put of its full
    /// JSON record to its own endpoint, and edit mode ends at once.
    pub fn submit_update(&mut self) -> (c: ApiCall)
        requires
            old(self)@.editing is Some,
            old(self)@.editing->Some_0.id is Some,
        ensures
            c@ == (ApiCallView::Update {
                id: old(self)@.editing->Some_0.id->Some_0,
                body: student_json(old(self)@.editing->Some_0),
            }),
            final(self)@ == (StateView { editing: None, ..old(self)@ }),
            final(self)@ == step(old(self)@, Op::SubmitUpdate),
    {
        let cur = match &self.editing {
            Some(e) => Some(e.clone()),
            None => None,
        };
        match cur {
            Some(e) => {
                let body = encode_student(&e);
                let id = match e.id {
                    Some(id) => id,
                    None => String::new(),
                };
                self.editing = None;
                ApiCall::Update { id, body }
            },
            None => ApiCall::Remove { id: String::new() },
        }
    }

    /// A "Delete" click on row `i`: nothing changes locally; the request
    /// for the row's endpoint is handed back.  The row must already have
    /// an identifier.
    pub fn request_delete(&self, i: usize) -> (c: ApiCall)
        requires
            i < self@.students.len(),
            self@.students[i as int].id is Some,
        ensures
            c@ == (ApiCallView::Remove { id: self@.students[i as int].id->Some_0 }),
    {
        match &self.students[i].id {
            Some(id) => ApiCall::Remove { id: id.clone() },
            None => ApiCall::Remove { id: String::new() },
        }
    }

    /// The outcome of a fetch of the full list: a successful fetch
    /// replaces the snapshot wholesale; a failed or undecodable one leaves
    /// the previous snapshot in place.  Drafts and the scratch copy are
    /// untouched either way.
    pub fn apply_fetch(&mut self, r: Option<Vec<Student>>)
        ensures
            final(self)@ == (match r {
                Some(l) => StateView { students: student_views(l@), ..old(self)@ },
                None => old(self)@,
            }),
            final(self)@ == step(
                old(self)@,
                Op::Fetch(
                    match r {
                        Some(l) => Some(student_views(l@)),
                        None => None,
                    },
                ),
            ),
    {
        match r {
            Some(l) => {
                self.students = l;
            },
            None => {},
        }
    }

    /// The outcome of a fetch, straight from the response text: `None`
    /// for a failed request.  The snapshot is replaced exactly when the
    /// text decodes as a student list, and kept otherwise.
    pub fn apply_fetch_text(&mut self, text: Option<&str>)
        ensures
            final(self)@ == (match text {
                Some(t) => match spec_parse_students(t@) {
                    Some(l) => StateView { students: l, ..old(self)@ },
                    None => old(self)@,
                },
                None => old(self)@,
            }),
    {
        match text {
            Some(t) => {
                let r = parse_students(t);
                self.apply_fetch(r);
            },
            None => {
                self.apply_fetch(None);
            },
        }
    }
}

} // verus!
