//! Tests for the JSON wire format: rendering, decoding, and the round
//! trip between them, plus age-text parsing and rendering.

use student_list::decode::parse_students;
use student_list::json::{encode_create, encode_student};
use student_list::model::Student;
use student_list::numtext::{age_text, parse_age};
use student_list::state::AppState;

fn ana() -> Student {
    Student {
        id: Some("64a1".to_string()),
        name: "Ana".to_string(),
        age: 20,
        subject: "Math".to_string(),
    }
}

#[test]
fn encode_with_id_wraps_oid() {
    assert_eq!(
        encode_student(&ana()),
        "{\"_id\":{\"$oid\":\"64a1\"},\"name\":\"Ana\",\"age\":20,\"subject\":\"Math\"}"
    );
}

#[test]
fn encode_without_id_omits_the_member() {
    let s = Student {
        id: None,
        name: "Leo".to_string(),
        age: 15,
        subject: "Science".to_string(),
    };
    assert_eq!(encode_student(&s), "{\"name\":\"Leo\",\"age\":15,\"subject\":\"Science\"}");
    assert_eq!(
        encode_create("Leo", 15, "Science"),
        "{\"name\":\"Leo\",\"age\":15,\"subject\":\"Science\"}"
    );
}

#[test]
fn encode_escapes_quotes_backslashes_and_controls() {
    assert_eq!(
        encode_create("a\"b\\c\nd", 7, "x\u{1f}y"),
        "{\"name\":\"a\\\"b\\\\c\\u000ad\",\"age\":7,\"subject\":\"x\\u001fy\"}"
    );
}

#[test]
fn parse_empty_array() {
    assert_eq!(parse_students("[]"), Some(vec![]));
    assert_eq!(parse_students("  [ \t\r\n ]  "), Some(vec![]));
}

#[test]
fn parse_single_object_members_in_any_order() {
    let expected = vec![ana()];
    assert_eq!(
        parse_students("[{\"_id\":{\"$oid\":\"64a1\"},\"name\":\"Ana\",\"age\":20,\"subject\":\"Math\"}]"),
        Some(expected.clone())
    );
    assert_eq!(
        parse_students(
            " [ { \"subject\" : \"Math\" , \"age\" : 20 , \"_id\" : { \"$oid\" : \"64a1\" } , \"name\" : \"Ana\" } ] "
        ),
        Some(expected)
    );
}

#[test]
fn parse_missing_id_and_null_id_mean_absent() {
    let expected = vec![Student {
        id: None,
        name: "Leo".to_string(),
        age: 15,
        subject: "Science".to_string(),
    }];
    assert_eq!(
        parse_students("[{\"name\":\"Leo\",\"age\":15,\"subject\":\"Science\"}]"),
        Some(expected.clone())
    );
    assert_eq!(
        parse_students("[{\"_id\":null,\"name\":\"Leo\",\"age\":15,\"subject\":\"Science\"}]"),
        Some(expected)
    );
}

#[test]
fn parse_string_escapes() {
    let got = parse_students(
        "[{\"name\":\"a\\\"b\\\\c\\nd\\u0041\\u000a\",\"age\":1,\"subject\":\"s\\/t\\b\\f\\r\\te\"}]",
    )
    .unwrap();
    assert_eq!(got[0].name, "a\"b\\c\ndA\n");
    assert_eq!(got[0].subject, "s/t\u{8}\u{c}\r\te");
}

#[test]
fn parse_rejects_malformed_texts() {
    // not an array, unterminated, trailing text
    assert_eq!(parse_students(""), None);
    assert_eq!(parse_students("{}"), None);
    assert_eq!(parse_students("[{\"name\":\"A\",\"age\":1,\"subject\":\"s\"}"), None);
    assert_eq!(parse_students("[] trailing"), None);
    // a required member missing, an unknown member, a repeated member
    assert_eq!(parse_students("[{\"name\":\"A\",\"age\":1}]"), None);
    assert_eq!(parse_students("[{}]"), None);
    assert_eq!(
        parse_students("[{\"name\":\"A\",\"age\":1,\"subject\":\"s\",\"extra\":0}]"),
        None
    );
    assert_eq!(
        parse_students("[{\"name\":\"A\",\"name\":\"B\",\"age\":1,\"subject\":\"s\"}]"),
        None
    );
    // bad ages: out of range, leading zero, signed, fractional
    assert_eq!(parse_students("[{\"name\":\"A\",\"age\":256,\"subject\":\"s\"}]"), None);
    assert_eq!(parse_students("[{\"name\":\"A\",\"age\":01,\"subject\":\"s\"}]"), None);
    assert_eq!(parse_students("[{\"name\":\"A\",\"age\":-1,\"subject\":\"s\"}]"), None);
    assert_eq!(parse_students("[{\"name\":\"A\",\"age\":1.5,\"subject\":\"s\"}]"), None);
    // an escape outside the accepted range
    assert_eq!(parse_students("[{\"name\":\"\\u00e9\",\"age\":1,\"subject\":\"s\"}]"), None);
    // a raw control character inside a string
    assert_eq!(parse_students("[{\"name\":\"a\nb\",\"age\":1,\"subject\":\"s\"}]"), None);
}

#[test]
fn round_trip_through_the_wire_format() {
    let list = vec![
        ana(),
        Student {
            id: None,
            name: "quote \" back \\ slash".to_string(),
            age: 0,
            subject: "ni\u{f1}o\n".to_string(),
        },
        Student {
            id: Some("ffff".to_string()),
            name: "".to_string(),
            age: 255,
            subject: "".to_string(),
        },
    ];
    let mut text = String::from("[");
    for (k, s) in list.iter().enumerate() {
        if k > 0 {
            text.push(',');
        }
        text.push_str(&encode_student(s));
    }
    text.push(']');
    assert_eq!(parse_students(&text), Some(list));
}

#[test]
fn fetch_text_drives_the_snapshot() {
    let mut st = AppState::new();
    st.apply_fetch_text(Some("[{\"name\":\"Ana\",\"age\":20,\"subject\":\"Math\"}]"));
    assert_eq!(st.students.len(), 1);
    assert_eq!(st.students[0].name, "Ana");
    // an undecodable answer leaves the snapshot in place
    st.apply_fetch_text(Some("<html>oops</html>"));
    assert_eq!(st.students.len(), 1);
    st.apply_fetch_text(None);
    assert_eq!(st.students.len(), 1);
    st.apply_fetch_text(Some("[]"));
    assert_eq!(st.students.len(), 0);
}

#[test]
fn age_text_parsing_matches_the_form_rules() {
    assert_eq!(parse_age("20"), 20);
    assert_eq!(parse_age("abc"), 0);
    assert_eq!(parse_age(""), 0);
    assert_eq!(parse_age("0"), 0);
    assert_eq!(parse_age("255"), 255);
    assert_eq!(parse_age("256"), 0);
    assert_eq!(parse_age("999999999999"), 0);
    assert_eq!(parse_age("+20"), 20);
    assert_eq!(parse_age("+"), 0);
    assert_eq!(parse_age("-1"), 0);
    assert_eq!(parse_age(" 20"), 0);
    assert_eq!(parse_age("20 "), 0);
    assert_eq!(parse_age("007"), 7);
}

#[test]
fn age_rendering() {
    assert_eq!(age_text(0), "0");
    assert_eq!(age_text(9), "9");
    assert_eq!(age_text(10), "10");
    assert_eq!(age_text(15), "15");
    assert_eq!(age_text(100), "100");
    assert_eq!(age_text(255), "255");
}
