//! Scenario tests for the view's state transitions.

use student_list::model::Student;
use student_list::render::{render_rows, row_text};
use student_list::state::{ApiCall, AppState};

fn ana() -> Student {
    Student {
        id: Some("1".to_string()),
        name: "Ana".to_string(),
        age: 20,
        subject: "Math".to_string(),
    }
}

fn leo() -> Student {
    Student {
        id: Some("2".to_string()),
        name: "Leo".to_string(),
        age: 15,
        subject: "Science".to_string(),
    }
}

#[test]
fn create_parses_age_text() {
    let mut st = AppState::new();
    st.set_draft_name("Ana".to_string());
    st.set_draft_age("20".to_string());
    st.set_draft_subject("Math".to_string());
    let call = st.submit_create();
    assert_eq!(
        call,
        ApiCall::Create { body: "{\"name\":\"Ana\",\"age\":20,\"subject\":\"Math\"}".to_string() }
    );
}

#[test]
fn create_bad_age_text_defaults_to_zero() {
    let mut st = AppState::new();
    st.set_draft_name("Bob".to_string());
    st.set_draft_age("abc".to_string());
    st.set_draft_subject("Art".to_string());
    let call = st.submit_create();
    assert_eq!(
        call,
        ApiCall::Create { body: "{\"name\":\"Bob\",\"age\":0,\"subject\":\"Art\"}".to_string() }
    );
}

#[test]
fn delete_targets_the_rows_endpoint_and_resync_removes_it() {
    let mut st = AppState::new();
    st.apply_fetch(Some(vec![ana(), leo()]));
    let call = st.request_delete(0);
    assert_eq!(call, ApiCall::Remove { id: "1".to_string() });
    assert_eq!(call.path(), "/students/1");
    // the local list is untouched until the follow-up fetch answers
    assert_eq!(st.students.len(), 2);
    // the backend honored the delete: the next fetch lacks the record
    st.apply_fetch(Some(vec![leo()]));
    let rows = render_rows(&st);
    assert_eq!(rows, vec!["Leo - 15 a\u{f1}os - Science".to_string()]);
}

#[test]
fn edit_then_cancel_changes_nothing_and_issues_no_call() {
    let mut st = AppState::new();
    st.apply_fetch(Some(vec![ana()]));
    let before = st.students.clone();
    st.begin_edit(0);
    assert_eq!(st.editing, Some(ana()));
    // cancel returns no request value at all: zero network calls
    st.cancel_edit();
    assert_eq!(st.editing, None);
    assert_eq!(st.students, before);
}

#[test]
fn edit_name_then_update_puts_full_record_once() {
    let mut st = AppState::new();
    st.apply_fetch(Some(vec![ana()]));
    st.begin_edit(0);
    st.edit_name("Anna".to_string());
    let call = st.submit_update();
    assert_eq!(
        call,
        ApiCall::Update {
            id: "1".to_string(),
            body: "{\"_id\":{\"$oid\":\"1\"},\"name\":\"Anna\",\"age\":20,\"subject\":\"Math\"}"
                .to_string(),
        }
    );
    assert_eq!(call.path(), "/students/1");
    assert_eq!(st.editing, None);
    // other fields of the record were preserved in the body above; the
    // local list still holds the old name until the follow-up fetch
    assert_eq!(st.students, vec![ana()]);
}

#[test]
fn edit_age_and_subject_touch_only_the_scratch_copy() {
    let mut st = AppState::new();
    st.apply_fetch(Some(vec![ana()]));
    st.begin_edit(0);
    st.edit_age_text("21");
    st.edit_subject("Physics".to_string());
    assert_eq!(
        st.editing,
        Some(Student {
            id: Some("1".to_string()),
            name: "Ana".to_string(),
            age: 21,
            subject: "Physics".to_string(),
        })
    );
    st.edit_age_text("oops");
    assert_eq!(st.editing.as_ref().unwrap().age, 0);
    assert_eq!(st.students, vec![ana()]);
}

#[test]
fn successful_add_resets_drafts_whatever_the_outcome() {
    let mut st = AppState::new();
    st.set_draft_name("Leo".to_string());
    st.set_draft_age("15".to_string());
    st.set_draft_subject("Science".to_string());
    let call = st.submit_create();
    assert_eq!(
        call,
        ApiCall::Create { body: "{\"name\":\"Leo\",\"age\":15,\"subject\":\"Science\"}".to_string() }
    );
    assert_eq!(call.path(), "/students");
    assert_eq!(st.draft_name, "");
    assert_eq!(st.draft_age, "");
    assert_eq!(st.draft_subject, "");
    // even when the follow-up fetch fails, drafts stay reset
    st.apply_fetch(None);
    assert_eq!(st.draft_name, "");
}

#[test]
fn rendered_list_is_exactly_the_last_successful_fetch() {
    let mut st = AppState::new();
    st.apply_fetch(Some(vec![ana(), leo()]));
    // a burst of user activity between fetches patches nothing
    st.set_draft_name("Zoe".to_string());
    let _create = st.submit_create();
    st.begin_edit(1);
    st.edit_name("Leon".to_string());
    let _update = st.submit_update();
    let _remove = st.request_delete(0);
    // a failed refresh keeps the old snapshot
    st.apply_fetch(None);
    let rows = render_rows(&st);
    assert_eq!(
        rows,
        vec![
            "Ana - 20 a\u{f1}os - Math".to_string(),
            "Leo - 15 a\u{f1}os - Science".to_string(),
        ]
    );
    // only a successful fetch replaces it
    st.apply_fetch(Some(vec![leo()]));
    assert_eq!(render_rows(&st), vec!["Leo - 15 a\u{f1}os - Science".to_string()]);
}

#[test]
fn row_text_formats_name_age_subject() {
    assert_eq!(row_text(&ana()), "Ana - 20 a\u{f1}os - Math");
    let newborn = Student {
        id: None,
        name: "Kim".to_string(),
        age: 0,
        subject: "".to_string(),
    };
    assert_eq!(row_text(&newborn), "Kim - 0 a\u{f1}os - ");
}
