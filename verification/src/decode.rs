//! Decoding the JSON list the remote store returns.
//!
//! The store answers a fetch with a JSON array of student objects, each
//! with members `_id` (optional, `null` or `{"$oid": "..."}`), `name`,
//! `age` and `subject`, in any order and with any amount of blank space.
//! The grammar here is the spec: the executable parser returns exactly
//! what the spec-level parser denotes, and `None` on any text outside the
//! grammar — a failed decode leaves the caller's snapshot untouched.
//!
//! Two deliberate narrowings against full JSON: a `\u` escape is accepted
//! only for a code below 128 (the texts this crate itself produces use
//! them only for control characters), and members outside the four known
//! ones are rejected rather than skipped.

use vstd::prelude::*;
use crate::model::{student_views, Student, StudentView};
use vstd::string::{StrSliceExecFns, StringExecFns};
use crate::chars::push_char;
use crate::numtext::{dec_val, is_dec_digit, lemma_dec_val_prefix};

verus! {

/// JSON blank space.
pub open spec fn is_ws(c: char) -> bool {
    c == ' ' || c == '\t' || c == '\n' || c == '\r'
}

/// The first position at or after `i` holding no blank space.
pub open spec fn skip_ws(t: Seq<char>, i: int) -> int
    decreases t.len() - i,
{
    if 0 <= i < t.len() && is_ws(t[i]) {
        skip_ws(t, i + 1)
    } else {
        i
    }
}

pub proof fn lemma_skip_ws(t: Seq<char>, i: int)
    requires
        i <= t.len(),
    ensures
        i <= skip_ws(t, i) <= t.len(),
    decreases t.len() - i,
{
    if 0 <= i < t.len() && is_ws(t[i]) {
        lemma_skip_ws(t, i + 1);
    }
}

/// A hexadecimal digit, either case.
pub open spec fn is_hex(c: char) -> bool {
    (48 <= c as u32 && c as u32 <= 57) || (97 <= c as u32 && c as u32 <= 102) || (65 <= c as u32
        && c as u32 <= 70)
}

/// Value of a hexadecimal digit character.
pub open spec fn hex_val(c: char) -> int {
    if 48 <= c as u32 && c as u32 <= 57 {
        c as u32 - 48
    } else if 97 <= c as u32 && c as u32 <= 102 {
        c as u32 - 87
    } else {
        c as u32 - 55
    }
}

/// The character a single-letter escape stands for.
pub open spec fn unesc(e: char) -> Option<char> {
    if e == '"' {
        Some('"')
    } else if e == '\\' {
        Some('\\')
    } else if e == '/' {
        Some('/')
    } else if e == 'b' {
        Some('\u{8}')
    } else if e == 'f' {
        Some('\u{c}')
    } else if e == 'n' {
        Some('\n')
    } else if e == 'r' {
        Some('\r')
    } else if e == 't' {
        Some('\t')
    } else {
        None
    }
}

/// The rest of a JSON string after its opening quote: the content read so
/// far is `acc`; the result is the full content and the position after
/// the closing quote.
pub open spec fn parse_string_body(t: Seq<char>, i: int, acc: Seq<char>) -> Option<
    (Seq<char>, int),
>
    decreases t.len() - i,
{
    if i < 0 || i >= t.len() {
        None
    } else {
        let c = t[i];
        if c == '"' {
            Some((acc, i + 1))
        } else if c == '\\' {
            if i + 1 >= t.len() {
                None
            } else {
                let e = t[i + 1];
                if e == 'u' {
                    if i + 6 <= t.len() && is_hex(t[i + 2]) && is_hex(t[i + 3]) && is_hex(
                        t[i + 4],
                    ) && is_hex(t[i + 5]) {
                        let v = hex_val(t[i + 2]) * 4096 + hex_val(t[i + 3]) * 256 + hex_val(
                            t[i + 4],
                        ) * 16 + hex_val(t[i + 5]);
                        if v < 128 {
                            parse_string_body(t, i + 6, acc.push((v as u8) as char))
                        } else {
                            None
                        }
                    } else {
                        None
                    }
                } else {
                    match unesc(e) {
                        Some(c2) => parse_string_body(t, i + 2, acc.push(c2)),
                        None => None,
                    }
                }
            }
        } else if (c as u32) < 32 {
            None
        } else {
            parse_string_body(t, i + 1, acc.push(c))
        }
    }
}

/// A JSON string starting at `i`: its content and the position after it.
pub open spec fn parse_string(t: Seq<char>, i: int) -> Option<(Seq<char>, int)> {
    if 0 <= i < t.len() && t[i] == '"' {
        parse_string_body(t, i + 1, Seq::empty())
    } else {
        None
    }
}

pub proof fn lemma_parse_string_body_advances(t: Seq<char>, i: int, acc: Seq<char>)
    ensures
        parse_string_body(t, i, acc) is Some ==> i < parse_string_body(t, i, acc)->Some_0.1
            <= t.len(),
    decreases t.len() - i,
{
    if 0 <= i < t.len() {
        let c = t[i];
        if c == '\\' && i + 1 < t.len() {
            let e = t[i + 1];
            if e == 'u' {
                if i + 6 <= t.len() && is_hex(t[i + 2]) && is_hex(t[i + 3]) && is_hex(t[i + 4])
                    && is_hex(t[i + 5]) {
                    let v = hex_val(t[i + 2]) * 4096 + hex_val(t[i + 3]) * 256 + hex_val(t[i + 4])
                        * 16 + hex_val(t[i + 5]);
                    if v < 128 {
                        lemma_parse_string_body_advances(t, i + 6, acc.push((v as u8) as char));
                    }
                }
            } else {
                match unesc(e) {
                    Some(c2) => {
                        lemma_parse_string_body_advances(t, i + 2, acc.push(c2));
                    },
                    None => {},
                }
            }
        } else if c != '"' && c != '\\' && (c as u32) >= 32 {
            lemma_parse_string_body_advances(t, i + 1, acc.push(c));
        }
    }
}

pub proof fn lemma_parse_string_advances(t: Seq<char>, i: int)
    ensures
        parse_string(t, i) is Some ==> i < parse_string(t, i)->Some_0.1 <= t.len(),
{
    if 0 <= i < t.len() && t[i] == '"' {
        lemma_parse_string_body_advances(t, i + 1, Seq::empty());
    }
}

/// The first position at or after `i` holding no decimal digit.
pub open spec fn digits_end(t: Seq<char>, i: int) -> int
    decreases t.len() - i,
{
    if 0 <= i < t.len() && is_dec_digit(t[i]) {
        digits_end(t, i + 1)
    } else {
        i
    }
}

pub proof fn lemma_digits_end(t: Seq<char>, i: int)
    requires
        0 <= i <= t.len(),
    ensures
        i <= digits_end(t, i) <= t.len(),
        forall|k: int| i <= k < digits_end(t, i) ==> is_dec_digit(#[trigger] t[k]),
    decreases t.len() - i,
{
    if 0 <= i < t.len() && is_dec_digit(t[i]) {
        lemma_digits_end(t, i + 1);
    }
}

/// A JSON age number at `i`: one or more digits, no sign, no leading
/// zero, value at most 255; its value and the position after it.
pub open spec fn parse_age_num(t: Seq<char>, i: int) -> Option<(u8, int)> {
    let j = digits_end(t, i);
    if j == i {
        None
    } else if t[i] == '0' && j > i + 1 {
        None
    } else if dec_val(t.subrange(i, j)) <= 255 {
        Some((dec_val(t.subrange(i, j)) as u8, j))
    } else {
        None
    }
}

/// The value of an `_id` member: `null` for a record the caller treats as
/// identifierless, or the wrapped identifier object.
pub open spec fn parse_id_value(t: Seq<char>, i: int) -> Option<(Option<Seq<char>>, int)> {
    if 0 <= i < t.len() && t[i] == 'n' {
        if i + 4 <= t.len() && t[i + 1] == 'u' && t[i + 2] == 'l' && t[i + 3] == 'l' {
            Some((None, i + 4))
        } else {
            None
        }
    } else if 0 <= i < t.len() && t[i] == '{' {
        let j = skip_ws(t, i + 1);
        match parse_string(t, j) {
            Some((key, j2)) => if key == "$oid"@ {
                let j3 = skip_ws(t, j2);
                if j3 < t.len() && t[j3] == ':' {
                    let j4 = skip_ws(t, j3 + 1);
                    match parse_string(t, j4) {
                        Some((oid, j5)) => {
                            let j6 = skip_ws(t, j5);
                            if j6 < t.len() && t[j6] == '}' {
                                Some((Some(oid), j6 + 1))
                            } else {
                                None
                            }
                        },
                        None => None,
                    }
                } else {
                    None
                }
            } else {
                None
            },
            None => None,
        }
    } else {
        None
    }
}

pub proof fn lemma_parse_id_value_advances(t: Seq<char>, i: int)
    requires
        0 <= i <= t.len(),
    ensures
        parse_id_value(t, i) is Some ==> i < parse_id_value(t, i)->Some_0.1 <= t.len(),
{
    if 0 <= i < t.len() && t[i] == '{' {
        lemma_skip_ws(t, i + 1);
        let j = skip_ws(t, i + 1);
        lemma_parse_string_advances(t, j);
        match parse_string(t, j) {
            Some((key, j2)) => {
                lemma_skip_ws(t, j2);
                let j3 = skip_ws(t, j2);
                if j3 < t.len() && t[j3] == ':' {
                    lemma_skip_ws(t, j3 + 1);
                    let j4 = skip_ws(t, j3 + 1);
                    lemma_parse_string_advances(t, j4);
                    match parse_string(t, j4) {
                        Some((oid, j5)) => {
                            lemma_skip_ws(t, j5);
                        },
                        None => {},
                    }
                }
            },
            None => {},
        }
    }
}

/// What has been read of one student object so far: each member at most
/// once, the identifier member itself possibly `null`.
pub ghost struct PartialStudent {
    pub id: Option<Option<Seq<char>>>,
    pub name: Option<Seq<char>>,
    pub age: Option<u8>,
    pub subject: Option<Seq<char>>,
}

/// A partial record with no member read yet.
pub open spec fn empty_partial() -> PartialStudent {
    PartialStudent { id: None, name: None, age: None, subject: None }
}

/// One member (key, colon, value) starting at `i`, folded into `p`.  An
/// unknown or repeated key refuses the whole text.
pub open spec fn parse_member(t: Seq<char>, i: int, p: PartialStudent) -> Option<
    (PartialStudent, int),
> {
    match parse_string(t, i) {
        Some((key, j)) => {
            let j2 = skip_ws(t, j);
            if j2 < t.len() && t[j2] == ':' {
                let j3 = skip_ws(t, j2 + 1);
                if key == "_id"@ {
                    if p.id is Some {
                        None
                    } else {
                        match parse_id_value(t, j3) {
                            Some((v, j4)) => Some((PartialStudent { id: Some(v), ..p }, j4)),
                            None => None,
                        }
                    }
                } else if key == "name"@ {
                    if p.name is Some {
                        None
                    } else {
                        match parse_string(t, j3) {
                            Some((v, j4)) => Some((PartialStudent { name: Some(v), ..p }, j4)),
                            None => None,
                        }
                    }
                } else if key == "age"@ {
                    if p.age is Some {
                        None
                    } else {
                        match parse_age_num(t, j3) {
                            Some((v, j4)) => Some((PartialStudent { age: Some(v), ..p }, j4)),
                            None => None,
                        }
                    }
                } else if key == "subject"@ {
                    if p.subject is Some {
                        None
                    } else {
                        match parse_string(t, j3) {
                            Some((v, j4)) => Some((PartialStudent { subject: Some(v), ..p }, j4)),
                            None => None,
                        }
                    }
                } else {
                    None
                }
            } else {
                None
            }
        },
        None => None,
    }
}

pub proof fn lemma_parse_member_advances(t: Seq<char>, i: int, p: PartialStudent)
    requires
        0 <= i <= t.len(),
    ensures
        parse_member(t, i, p) is Some ==> i < parse_member(t, i, p)->Some_0.1 <= t.len(),
{
    lemma_parse_string_advances(t, i);
    match parse_string(t, i) {
        Some((key, j)) => {
            lemma_skip_ws(t, j);
            let j2 = skip_ws(t, j);
            if j2 < t.len() && t[j2] == ':' {
                lemma_skip_ws(t, j2 + 1);
                let j3 = skip_ws(t, j2 + 1);
                lemma_parse_id_value_advances(t, j3);
                lemma_parse_string_advances(t, j3);
                lemma_digits_end(t, j3);
            }
        },
        None => {},
    }
}

/// The members of one object from `i` on (the first member's key starts
/// at `i`), through the closing brace.
pub open spec fn parse_members(t: Seq<char>, i: int, p: PartialStudent) -> Option<
    (PartialStudent, int),
>
    decreases t.len() - i,
    via parse_members_dec
{
    match parse_member(t, i, p) {
        Some((p2, j)) => {
            let j2 = skip_ws(t, j);
            if j2 < t.len() && t[j2] == ',' {
                let j3 = skip_ws(t, j2 + 1);
                parse_members(t, j3, p2)
            } else if j2 < t.len() && t[j2] == '}' {
                Some((p2, j2 + 1))
            } else {
                None
            }
        },
        None => None,
    }
}

#[via_fn]
proof fn parse_members_dec(t: Seq<char>, i: int, p: PartialStudent) {
    if 0 <= i <= t.len() {
        lemma_parse_member_advances(t, i, p);
        match parse_member(t, i, p) {
            Some((p2, j)) => {
                lemma_skip_ws(t, j);
                let j2 = skip_ws(t, j);
                if j2 < t.len() && t[j2] == ',' {
                    lemma_skip_ws(t, j2 + 1);
                }
            },
            None => {},
        }
    } else if i < 0 {
        lemma_parse_member_advances_low(t, i, p);
    }
}

/// Below position 0 no member parses: a string cannot start there.
pub proof fn lemma_parse_member_advances_low(t: Seq<char>, i: int, p: PartialStudent)
    requires
        i < 0,
    ensures
        parse_member(t, i, p) is None,
{
}

pub proof fn lemma_parse_members_advances(t: Seq<char>, i: int, p: PartialStudent)
    requires
        0 <= i <= t.len(),
    ensures
        parse_members(t, i, p) is Some ==> i < parse_members(t, i, p)->Some_0.1 <= t.len(),
    decreases t.len() - i,
{
    lemma_parse_member_advances(t, i, p);
    match parse_member(t, i, p) {
        Some((p2, j)) => {
            lemma_skip_ws(t, j);
            let j2 = skip_ws(t, j);
            if j2 < t.len() && t[j2] == ',' {
                lemma_skip_ws(t, j2 + 1);
                let j3 = skip_ws(t, j2 + 1);
                lemma_parse_members_advances(t, j3, p2);
            }
        },
        None => {},
    }
}

/// The record a fully read object denotes: `name`, `age` and `subject`
/// are required, the identifier defaults to absent.
pub open spec fn student_of(p: PartialStudent) -> Option<StudentView> {
    if p.name is Some && p.age is Some && p.subject is Some {
        Some(
            StudentView {
                id: match p.id {
                    Some(v) => v,
                    None => None,
                },
                name: p.name->Some_0,
                age: p.age->Some_0,
                subject: p.subject->Some_0,
            },
        )
    } else {
        None
    }
}

/// One student object starting at `i`.  An object without the required
/// members — in particular an empty one — refuses the text.
pub open spec fn parse_object(t: Seq<char>, i: int) -> Option<(StudentView, int)> {
    if 0 <= i < t.len() && t[i] == '{' {
        let j = skip_ws(t, i + 1);
        match parse_members(t, j, empty_partial()) {
            Some((p, j2)) => match student_of(p) {
                Some(v) => Some((v, j2)),
                None => None,
            },
            None => None,
        }
    } else {
        None
    }
}

pub proof fn lemma_parse_object_advances(t: Seq<char>, i: int)
    requires
        0 <= i <= t.len(),
    ensures
        parse_object(t, i) is Some ==> i < parse_object(t, i)->Some_0.1 <= t.len(),
{
    if 0 <= i < t.len() && t[i] == '{' {
        lemma_skip_ws(t, i + 1);
        let j = skip_ws(t, i + 1);
        lemma_parse_members_advances(t, j, empty_partial());
    }
}

/// The elements of a non-empty array from `i` on (the first object starts
/// at `i`), through the closing bracket.
pub open spec fn parse_array_rest(t: Seq<char>, i: int, acc: Seq<StudentView>) -> Option<
    (Seq<StudentView>, int),
>
    decreases t.len() - i,
    via parse_array_rest_dec
{
    match parse_object(t, i) {
        Some((v, j)) => {
            let j2 = skip_ws(t, j);
            if j2 < t.len() && t[j2] == ',' {
                let j3 = skip_ws(t, j2 + 1);
                parse_array_rest(t, j3, acc.push(v))
            } else if j2 < t.len() && t[j2] == ']' {
                Some((acc.push(v), j2 + 1))
            } else {
                None
            }
        },
        None => None,
    }
}

#[via_fn]
proof fn parse_array_rest_dec(t: Seq<char>, i: int, acc: Seq<StudentView>) {
    if 0 <= i <= t.len() {
        lemma_parse_object_advances(t, i);
        match parse_object(t, i) {
            Some((v, j)) => {
                lemma_skip_ws(t, j);
                let j2 = skip_ws(t, j);
                if j2 < t.len() && t[j2] == ',' {
                    lemma_skip_ws(t, j2 + 1);
                }
            },
            None => {},
        }
    }
}

/// What a whole response text denotes: the fetched records, or nothing
/// when any part of the text falls outside the grammar.  The entire text
/// must be one array with nothing but blank space around it.
pub open spec fn spec_parse_students(t: Seq<char>) -> Option<Seq<StudentView>> {
    let i = skip_ws(t, 0);
    if i < t.len() && t[i] == '[' {
        let j = skip_ws(t, i + 1);
        if j < t.len() && t[j] == ']' {
            if skip_ws(t, j + 1) == t.len() {
                Some(Seq::empty())
            } else {
                None
            }
        } else {
            match parse_array_rest(t, j, Seq::empty()) {
                Some((l, j2)) => if skip_ws(t, j2) == t.len() {
                    Some(l)
                } else {
                    None
                },
                None => None,
            }
        }
    } else {
        None
    }
}

/// View of an optional identifier as the spec parser speaks of it.
pub open spec fn id_view(o: Option<String>) -> Option<Seq<char>> {
    match o {
        Some(s) => Some(s@),
        None => None,
    }
}

/// The first position at or after `i` with no blank space, executably.
fn skip_ws_at(s: &str, i: usize) -> (r: usize)
    requires
        i <= s@.len(),
    ensures
        r as int == skip_ws(s@, i as int),
        i <= r <= s@.len(),
{
    let n = s.unicode_len();
    let mut j = i;
    let mut done = false;
    while !done
        invariant
            i <= j <= n,
            n == s@.len(),
            skip_ws(s@, i as int) == skip_ws(s@, j as int),
            done ==> skip_ws(s@, j as int) == j as int,
        decreases n - j + (if done { 0int } else { 1int }),
    {
        if j < n {
            let c = s.get_char(j);
            if c == ' ' || c == '\t' || c == '\n' || c == '\r' {
                j = j + 1;
            } else {
                done = true;
            }
        } else {
            done = true;
        }
    }
    proof {
        lemma_skip_ws(s@, i as int);
    }
    j
}

/// Value of a hexadecimal digit character, executably.
fn hex_digit_val(c: char) -> (r: Option<u8>)
    ensures
        r is Some ==> is_hex(c) && hex_val(c) == r->Some_0 as int,
        r is None ==> !is_hex(c),
{
    let u = c as u32;
    if 48 <= u && u <= 57 {
        Some((u - 48) as u8)
    } else if 97 <= u && u <= 102 {
        Some((u - 87) as u8)
    } else if 65 <= u && u <= 70 {
        Some((u - 55) as u8)
    } else {
        None
    }
}

/// A JSON string starting at `i`, executably: exactly what the spec
/// grammar denotes there.
fn parse_string_at(s: &str, i: usize) -> (r: Option<(String, usize)>)
    requires
        i <= s@.len(),
    ensures
        r is Some ==> parse_string(s@, i as int) == Some(
            (r->Some_0.0@, r->Some_0.1 as int),
        ) && i < r->Some_0.1 <= s@.len(),
        r is None ==> parse_string(s@, i as int) is None,
{
    let n = s.unicode_len();
    if !(i < n && s.get_char(i) == '"') {
        return None;
    }
    let mut acc = String::new();
    let mut j = i + 1;
    loop
        invariant
            i + 1 <= j <= n,
            n == s@.len(),
            i < n,
            parse_string_body(s@, (i + 1) as int, Seq::empty()) == parse_string_body(
                s@,
                j as int,
                acc@,
            ),
            s@[i as int] == '"',
        decreases n - j,
    {
        if j >= n {
            return None;
        }
        let c = s.get_char(j);
        if c == '"' {
            return Some((acc, j + 1));
        }
        if c == '\\' {
            if j + 1 >= n {
                return None;
            }
            let e = s.get_char(j + 1);
            if e == 'u' {
                if n - j < 6 {
                    return None;
                }
                let h1 = hex_digit_val(s.get_char(j + 2));
                let h2 = hex_digit_val(s.get_char(j + 3));
                let h3 = hex_digit_val(s.get_char(j + 4));
                let h4 = hex_digit_val(s.get_char(j + 5));
                match (h1, h2, h3, h4) {
                    (Some(a), Some(b), Some(cc), Some(d)) => {
                        let v: u32 = a as u32 * 4096 + b as u32 * 256 + cc as u32 * 16 + d as u32;
                        if v >= 128 {
                            return None;
                        }
                        let c2 = (v as u8) as char;
                        push_char(&mut acc, c2);
                        j = j + 6;
                    },
                    _ => {
                        return None;
                    },
                }
            } else {
                let c2 = if e == '"' {
                    Some('"')
                } else if e == '\\' {
                    Some('\\')
                } else if e == '/' {
                    Some('/')
                } else if e == 'b' {
                    Some('\u{8}')
                } else if e == 'f' {
                    Some('\u{c}')
                } else if e == 'n' {
                    Some('\n')
                } else if e == 'r' {
                    Some('\r')
                } else if e == 't' {
                    Some('\t')
                } else {
                    None
                };
                match c2 {
                    Some(c3) => {
                        push_char(&mut acc, c3);
                        j = j + 2;
                    },
                    None => {
                        return None;
                    },
                }
            }
        } else {
            let u = c as u32;
            if u < 32 {
                return None;
            }
            push_char(&mut acc, c);
            j = j + 1;
        }
    }
}

/// A JSON age number at `i`, executably.
fn parse_age_at(s: &str, i: usize) -> (r: Option<(u8, usize)>)
    requires
        i <= s@.len(),
    ensures
        r is Some ==> parse_age_num(s@, i as int) == Some(
            (r->Some_0.0, r->Some_0.1 as int),
        ) && i < r->Some_0.1 <= s@.len(),
        r is None ==> parse_age_num(s@, i as int) is None,
{
    let n = s.unicode_len();
    let mut j = i;
    let mut done = false;
    while !done
        invariant
            i <= j <= n,
            n == s@.len(),
            digits_end(s@, i as int) == digits_end(s@, j as int),
            done ==> digits_end(s@, j as int) == j as int,
        decreases n - j + (if done { 0int } else { 1int }),
    {
        if j < n {
            let c = s.get_char(j);
            let u = c as u32;
            if 48 <= u && u <= 57 {
                j = j + 1;
            } else {
                done = true;
            }
        } else {
            done = true;
        }
    }
    proof {
        lemma_digits_end(s@, i as int);
    }
    if j == i {
        return None;
    }
    if s.get_char(i) == '0' && j > i + 1 {
        return None;
    }
    let ghost sub = s@.subrange(i as int, j as int);
    let mut acc: u32 = 0;
    let mut k = i;
    while k < j
        invariant
            i <= k <= j <= n,
            n == s@.len(),
            j as int == digits_end(s@, i as int),
            forall|m: int| i <= m < j ==> is_dec_digit(#[trigger] s@[m]),
            sub == s@.subrange(i as int, j as int),
            acc <= 255,
            acc as int == dec_val(sub.take(k - i)),
        decreases j - k,
    {
        let c = s.get_char(k);
        let u = c as u32;
        let d = u - 48;
        let next = acc * 10 + d;
        proof {
            assert(sub.take(k - i + 1).drop_last() =~= sub.take(k - i));
            assert(sub.take(k - i + 1).last() == s@[k as int]);
        }
        if next > 255 {
            proof {
                assert(forall|m: int| 0 <= m < sub.len() ==> is_dec_digit(#[trigger] sub[m]));
                lemma_dec_val_prefix(sub, k - i + 1);
            }
            return None;
        }
        acc = next;
        k = k + 1;
    }
    proof {
        assert(sub.take(j - i) =~= sub);
    }
    Some((acc as u8, j))
}

/// The value of an `_id` member at `i`, executably.
fn parse_id_value_at(s: &str, i: usize) -> (r: Option<(Option<String>, usize)>)
    requires
        i <= s@.len(),
    ensures
        r is Some ==> parse_id_value(s@, i as int) == Some(
            (id_view(r->Some_0.0), r->Some_0.1 as int),
        ) && i < r->Some_0.1 <= s@.len(),
        r is None ==> parse_id_value(s@, i as int) is None,
{
    let n = s.unicode_len();
    if i < n && s.get_char(i) == 'n' {
        if n - i >= 4 && s.get_char(i + 1) == 'u' && s.get_char(i + 2) == 'l' && s.get_char(i + 3)
            == 'l' {
            Some((None, i + 4))
        } else {
            None
        }
    } else if i < n && s.get_char(i) == '{' {
        let j = skip_ws_at(s, i + 1);
        match parse_string_at(s, j) {
            Some((key, j2)) => {
                let oid_key = String::from_str("$oid");
                proof {
                    reveal_strlit("$oid");
                }
                if !(key == oid_key) {
                    return None;
                }
                let j3 = skip_ws_at(s, j2);
                if j3 < n && s.get_char(j3) == ':' {
                    let j4 = skip_ws_at(s, j3 + 1);
                    match parse_string_at(s, j4) {
                        Some((oid, j5)) => {
                            let j6 = skip_ws_at(s, j5);
                            if j6 < n && s.get_char(j6) == '}' {
                                Some((Some(oid), j6 + 1))
                            } else {
                                None
                            }
                        },
                        None => None,
                    }
                } else {
                    None
                }
            },
            None => None,
        }
    } else {
        None
    }
}

/// The members of one student object read so far, executably.
struct Slots {
    id: Option<Option<String>>,
    name: Option<String>,
    age: Option<u8>,
    subject: Option<String>,
}

impl View for Slots {
    type V = PartialStudent;

    closed spec fn view(&self) -> PartialStudent {
        PartialStudent {
            id: match self.id {
                Some(v) => Some(id_view(v)),
                None => None,
            },
            name: match self.name {
                Some(v) => Some(v@),
                None => None,
            },
            age: self.age,
            subject: match self.subject {
                Some(v) => Some(v@),
                None => None,
            },
        }
    }
}

/// One member starting at `i`, folded into the slots, executably.
fn parse_member_at(s: &str, i: usize, slots: Slots) -> (r: Option<(Slots, usize)>)
    requires
        i <= s@.len(),
    ensures
        r is Some ==> parse_member(s@, i as int, slots@) == Some(
            (r->Some_0.0@, r->Some_0.1 as int),
        ) && i < r->Some_0.1 <= s@.len(),
        r is None ==> parse_member(s@, i as int, slots@) is None,
{
    let n = s.unicode_len();
    let key_pair = match parse_string_at(s, i) {
        Some(p) => p,
        None => {
            return None;
        },
    };
    let (key, j) = key_pair;
    let j2 = skip_ws_at(s, j);
    if !(j2 < n && s.get_char(j2) == ':') {
        return None;
    }
    let j3 = skip_ws_at(s, j2 + 1);
    proof {
        reveal_strlit("_id");
        reveal_strlit("name");
        reveal_strlit("age");
        reveal_strlit("subject");
    }
    if key == String::from_str("_id") {
        if slots.id.is_some() {
            None
        } else {
            match parse_id_value_at(s, j3) {
                Some((v, j4)) => Some((Slots { id: Some(v), ..slots }, j4)),
                None => None,
            }
        }
    } else if key == String::from_str("name") {
        if slots.name.is_some() {
            None
        } else {
            match parse_string_at(s, j3) {
                Some((v, j4)) => Some((Slots { name: Some(v), ..slots }, j4)),
                None => None,
            }
        }
    } else if key == String::from_str("age") {
        if slots.age.is_some() {
            None
        } else {
            match parse_age_at(s, j3) {
                Some((v, j4)) => Some((Slots { age: Some(v), ..slots }, j4)),
                None => None,
            }
        }
    } else if key == String::from_str("subject") {
        if slots.subject.is_some() {
            None
        } else {
            match parse_string_at(s, j3) {
                Some((v, j4)) => Some((Slots { subject: Some(v), ..slots }, j4)),
                None => None,
            }
        }
    } else {
        None
    }
}

/// One student object starting at `i`, executably.
fn parse_object_at(s: &str, i: usize) -> (r: Option<(Student, usize)>)
    requires
        i <= s@.len(),
    ensures
        r is Some ==> parse_object(s@, i as int) == Some(
            (r->Some_0.0@, r->Some_0.1 as int),
        ) && i < r->Some_0.1 <= s@.len(),
        r is None ==> parse_object(s@, i as int) is None,
{
    let n = s.unicode_len();
    if !(i < n && s.get_char(i) == '{') {
        return None;
    }
    let j0 = skip_ws_at(s, i + 1);
    let mut slots = Slots { id: None, name: None, age: None, subject: None };
    let mut j = j0;
    proof {
        assert(slots@ == empty_partial());
    }
    loop
        invariant
            i < j0 <= j <= n,
            n == s@.len(),
            i < n,
            s@[i as int] == '{',
            j0 as int == skip_ws(s@, i + 1),
            parse_members(s@, j0 as int, empty_partial()) == parse_members(s@, j as int, slots@),
        decreases n - j,
    {
        match parse_member_at(s, j, slots) {
            Some((s2, j2)) => {
                slots = s2;
                let j3 = skip_ws_at(s, j2);
                if j3 < n && s.get_char(j3) == ',' {
                    let j4 = skip_ws_at(s, j3 + 1);
                    j = j4;
                } else if j3 < n && s.get_char(j3) == '}' {
                    let ghost p = slots@;
                    let name = match slots.name {
                        Some(v) => v,
                        None => {
                            return None;
                        },
                    };
                    let age = match slots.age {
                        Some(v) => v,
                        None => {
                            return None;
                        },
                    };
                    let subject = match slots.subject {
                        Some(v) => v,
                        None => {
                            return None;
                        },
                    };
                    let id = match slots.id {
                        Some(v) => v,
                        None => None,
                    };
                    let st = Student { id, name, age, subject };
                    proof {
                        assert(student_of(p) == Some(st@));
                    }
                    return Some((st, j3 + 1));
                } else {
                    return None;
                }
            },
            None => {
                return None;
            },
        }
    }
}

/// Decode a whole response text: the fetched records in order, or `None`
/// on any text outside the grammar.
pub fn parse_students(s: &str) -> (r: Option<Vec<Student>>)
    ensures
        r is Some ==> spec_parse_students(s@) == Some(student_views(r->Some_0@)),
        r is None ==> spec_parse_students(s@) is None,
{
    let n = s.unicode_len();
    let i = skip_ws_at(s, 0);
    if !(i < n && s.get_char(i) == '[') {
        return None;
    }
    let j0 = skip_ws_at(s, i + 1);
    if j0 < n && s.get_char(j0) == ']' {
        let e = skip_ws_at(s, j0 + 1);
        if e == n {
            let out: Vec<Student> = Vec::new();
            proof {
                assert(student_views(out@) =~= Seq::<StudentView>::empty());
            }
            return Some(out);
        } else {
            return None;
        }
    }
    let mut acc: Vec<Student> = Vec::new();
    let mut j = j0;
    proof {
        assert(student_views(acc@) =~= Seq::<StudentView>::empty());
    }
    loop
        invariant
            j0 <= j <= n,
            n == s@.len(),
            i < n,
            s@[i as int] == '[',
            i as int == skip_ws(s@, 0),
            j0 as int == skip_ws(s@, i + 1),
            !(j0 < n && s@[j0 as int] == ']'),
            parse_array_rest(s@, j0 as int, Seq::empty()) == parse_array_rest(
                s@,
                j as int,
                student_views(acc@),
            ),
        decreases n - j,
    {
        match parse_object_at(s, j) {
            Some((st, j2)) => {
                let ghost prev = student_views(acc@);
                acc.push(st);
                proof {
                    assert(student_views(acc@) =~= prev.push(st@));
                }
                let j3 = skip_ws_at(s, j2);
                if j3 < n && s.get_char(j3) == ',' {
                    let j4 = skip_ws_at(s, j3 + 1);
                    j = j4;
                } else if j3 < n && s.get_char(j3) == ']' {
                    let e = skip_ws_at(s, j3 + 1);
                    if e == n {
                        return Some(acc);
                    } else {
                        return None;
                    }
                } else {
                    return None;
                }
            },
            None => {
                return None;
            },
        }
    }
}

} // verus!
