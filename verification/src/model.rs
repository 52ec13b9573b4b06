//! The student record as the view holds it: an optional identifier assigned
//! by the remote store, a name, a small non-negative age, and a subject.

use vstd::prelude::*;

verus! {

/// Mathematical image of a [`Student`]: every contract in this crate speaks
/// of records through this ghost structure.
pub ghost struct StudentView {
    pub id: Option<Seq<char>>,
    pub name: Seq<char>,
    pub age: u8,
    pub subject: Seq<char>,
}

/// The views of a sequence of records, element by element.
pub open spec fn student_views(s: Seq<Student>) -> Seq<StudentView> {
    s.map_values(|st: Student| st@)
}

/// One student record. `id` is `None` exactly while the record has never
/// been persisted; once the remote store assigns an identifier it is
/// carried verbatim and never changed locally.
#[derive(Debug, PartialEq)]
pub struct Student {
    pub id: Option<String>,
    pub name: String,
    pub age: u8,
    pub subject: String,
}

impl View for Student {
    type V = StudentView;

    open spec fn view(&self) -> StudentView {
        StudentView {
            id: match self.id {
                Some(s) => Some(s@),
                None => None,
            },
            name: self.name@,
            age: self.age,
            subject: self.subject@,
        }
    }
}

impl Clone for Student {
    fn clone(&self) -> (r: Self)
        ensures
            r@ == self@,
    {
        Student {
            id: match &self.id {
                Some(s) => Some(s.clone()),
                None => None,
            },
            name: self.name.clone(),
            age: self.age,
            subject: self.subject.clone(),
        }
    }
}

} // verus!
