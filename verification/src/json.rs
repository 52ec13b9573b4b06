//! The JSON wire format for student records.
//!
//! The remote store speaks compact JSON objects whose identifier field is
//! wrapped as `{"$oid": "..."}` and omitted entirely while a record has no
//! identifier yet.  This module renders a record to exactly that text.

use vstd::prelude::*;
use vstd::string::{StrSliceExecFns, StringExecFns};
use crate::chars::{digit_char, digit_to_char, push_char};
use crate::model::{Student, StudentView};
use crate::numtext::dec_rep;

verus! {

/// The character for a hexadecimal digit, lower case.
pub open spec fn hex_char(d: int) -> char {
    if d < 10 {
        digit_char(d)
    } else if d == 10 {
        'a'
    } else if d == 11 {
        'b'
    } else if d == 12 {
        'c'
    } else if d == 13 {
        'd'
    } else if d == 14 {
        'e'
    } else {
        'f'
    }
}

/// JSON escape of one character: quote and backslash get a backslash,
/// control characters a `\u00XX` escape, every other character stands as
/// itself.
pub open spec fn esc_char(c: char) -> Seq<char> {
    if c == '"' {
        seq!['\\', '"']
    } else if c == '\\' {
        seq!['\\', '\\']
    } else if (c as u32) < 32 {
        seq!['\\', 'u', '0', '0', hex_char(c as u32 as int / 16), hex_char(c as u32 as int % 16)]
    } else {
        seq![c]
    }
}

/// The body of a JSON string: every character escaped in turn.
pub open spec fn json_escaped(s: Seq<char>) -> Seq<char>
    decreases s.len(),
{
    if s.len() == 0 {
        Seq::empty()
    } else {
        json_escaped(s.drop_last()) + esc_char(s.last())
    }
}

/// A JSON string literal for `s`: the escaped body between double quotes.
pub open spec fn json_string(s: Seq<char>) -> Seq<char> {
    seq!['"'] + json_escaped(s) + seq!['"']
}

/// The common tail of a student object: name, age and subject members,
/// and the closing brace.
pub open spec fn fields_json(name: Seq<char>, age: u8, subject: Seq<char>) -> Seq<char> {
    "\"name\":"@ + json_string(name) + ",\"age\":"@ + dec_rep(age as int) + ",\"subject\":"@
        + json_string(subject) + "}"@
}

/// The JSON body sent when creating a record: no identifier member at all.
pub open spec fn create_json(name: Seq<char>, age: u8, subject: Seq<char>) -> Seq<char> {
    "{"@ + fields_json(name, age, subject)
}

/// The JSON text of a full student record: with the wrapped identifier
/// when one is present, and without the member otherwise.
pub open spec fn student_json(v: StudentView) -> Seq<char> {
    match v.id {
        Some(id) => "{\"_id\":{\"$oid\":"@ + json_string(id) + "},"@
            + fields_json(v.name, v.age, v.subject),
        None => create_json(v.name, v.age, v.subject),
    }
}

/// The character for hexadecimal digit `d`, as an executable function.
fn hex_to_char(d: u8) -> (c: char)
    requires
        d < 16,
    ensures
        c == hex_char(d as int),
{
    if d < 10 {
        digit_to_char(d)
    } else {
        let letters = "abcdef";
        proof {
            reveal_strlit("abcdef");
        }
        letters.get_char((d - 10) as usize)
    }
}

/// Append the JSON string literal for `s` to `out`.
fn append_json_string(out: &mut String, s: &str)
    ensures
        final(out)@ == old(out)@ + json_string(s@),
{
    push_char(out, '"');
    let n = s.unicode_len();
    let mut i: usize = 0;
    while i < n
        invariant
            i <= n,
            n == s@.len(),
            out@ == old(out)@ + seq!['"'] + json_escaped(s@.take(i as int)),
        decreases n - i,
    {
        let c = s.get_char(i);
        proof {
            assert(s@.take(i + 1).drop_last() =~= s@.take(i as int));
            assert(s@.take(i + 1).last() == c);
        }
        if c == '"' {
            push_char(out, '\\');
            push_char(out, '"');
        } else if c == '\\' {
            push_char(out, '\\');
            push_char(out, '\\');
        } else {
            let u = c as u32;
            if u < 32 {
                push_char(out, '\\');
                push_char(out, 'u');
                push_char(out, '0');
                push_char(out, '0');
                let hi = (u / 16) as u8;
                let lo = (u % 16) as u8;
                let hc = digit_to_char(hi);
                push_char(out, hc);
                let lc = hex_to_char(lo);
                push_char(out, lc);
            } else {
                push_char(out, c);
            }
        }
        proof {
            assert(out@ =~= old(out)@ + seq!['"'] + json_escaped(s@.take(i + 1)));
        }
        i = i + 1;
    }
    proof {
        assert(s@.take(n as int) =~= s@);
    }
    push_char(out, '"');
    proof {
        assert(out@ =~= old(out)@ + json_string(s@));
    }
}

/// Append the name, age and subject members and the closing brace.
fn append_fields(out: &mut String, name: &str, age: u8, subject: &str)
    ensures
        final(out)@ == old(out)@ + fields_json(name@, age, subject@),
{
    out.append("\"name\":");
    append_json_string(out, name);
    out.append(",\"age\":");
    let at = crate::numtext::age_text(age);
    out.append(at.as_str());
    out.append(",\"subject\":");
    append_json_string(out, subject);
    out.append("}");
    proof {
        assert(out@ =~= old(out)@ + fields_json(name@, age, subject@));
    }
}

/// The request body for creating a record from the three draft fields.
pub fn encode_create(name: &str, age: u8, subject: &str) -> (r: String)
    ensures
        r@ == create_json(name@, age, subject@),
{
    let mut out = String::new();
    out.append("{");
    append_fields(&mut out, name, age, subject);
    proof {
        assert(out@ =~= create_json(name@, age, subject@));
    }
    out
}

/// The JSON text of a full student record, identifier included when
/// present.
pub fn encode_student(s: &Student) -> (r: String)
    ensures
        r@ == student_json(s@),
{
    let mut out = String::new();
    match &s.id {
        Some(id) => {
            out.append("{\"_id\":{\"$oid\":");
            append_json_string(&mut out, id.as_str());
            out.append("},");
        },
        None => {
            out.append("{");
        },
    }
    append_fields(&mut out, s.name.as_str(), s.age, s.subject.as_str());
    proof {
        assert(out@ =~= student_json(s@));
    }
    out
}

} // verus!
