//! The decoder inverts the encoder.
//!
//! A store that returns records exactly as this crate renders them is
//! decoded back to the same records: the escaping, the number format and
//! the object layout of the two sides agree.  [`lemma_round_trip`] states
//! it for a whole answer; the lemmas before it walk the grammar piece by
//! piece.

use vstd::prelude::*;
use crate::decode::{
    digits_end, parse_string, parse_string_body, skip_ws,
};
use crate::decode::{
    empty_partial, hex_val, is_hex, parse_age_num, parse_array_rest, parse_id_value,
    parse_member, parse_members, parse_object, spec_parse_students, student_of, PartialStudent,
};
use crate::numtext::{dec_rep, is_dec_digit, lemma_dec_rep_val};
use crate::json::{esc_char, fields_json, hex_char, json_escaped, json_string, student_json};
use crate::model::StudentView;

verus! {

/// A character the escaper passes through unchanged.
pub open spec fn plain_char(c: char) -> bool {
    c != '"' && c != '\\' && (c as u32) >= 32
}

/// Escaping a text of plain characters changes nothing.
pub proof fn lemma_escaped_plain(s: Seq<char>)
    requires
        forall|k: int| 0 <= k < s.len() ==> plain_char(#[trigger] s[k]),
    ensures
        json_escaped(s) == s,
    decreases s.len(),
{
    if s.len() > 0 {
        lemma_escaped_plain(s.drop_last());
        assert(esc_char(s.last()) =~= seq![s.last()]);
        assert(json_escaped(s) =~= s);
    }
}

/// A subrange equal to a concatenation splits into two subranges.
pub proof fn lemma_subrange_split(t: Seq<char>, i: int, a: Seq<char>, b: Seq<char>)
    requires
        0 <= i,
        i + a.len() + b.len() <= t.len(),
        t.subrange(i, i + a.len() + b.len()) == a + b,
    ensures
        t.subrange(i, i + a.len()) == a,
        t.subrange(i + a.len(), i + a.len() + b.len()) == b,
{
    let la = a.len() as int;
    let lb = b.len() as int;
    let big = t.subrange(i, i + la + lb);
    assert(t.subrange(i, i + la) =~= a) by {
        assert(forall|k: int| 0 <= k < la ==> t[i + k] == #[trigger] (a + b)[k]);
    }
    assert forall|m: int| 0 <= m < lb implies t.subrange(i + la, i + la + lb)[m] == b[m] by {
        assert(big[la + m] == t[i + la + m]);
        assert((a + b)[la + m] == b[m]);
    }
    assert(t.subrange(i + la, i + la + lb) =~= b);
}

/// Escaping reads one character at a time from the left as well.
pub proof fn lemma_escaped_uncons(s: Seq<char>)
    requires
        s.len() > 0,
    ensures
        json_escaped(s) == esc_char(s[0]) + json_escaped(s.drop_first()),
    decreases s.len(),
{
    if s.len() == 1 {
        assert(s.drop_last() =~= Seq::<char>::empty());
        assert(s.drop_first() =~= Seq::<char>::empty());
        assert(json_escaped(s) =~= esc_char(s[0]) + json_escaped(s.drop_first()));
    } else {
        lemma_escaped_uncons(s.drop_last());
        assert(s.drop_last()[0] == s[0]);
        assert(s.drop_last().drop_first() =~= s.drop_first().drop_last());
        assert(s.drop_first().last() == s.last());
        assert(json_escaped(s.drop_first()) == json_escaped(s.drop_first().drop_last())
            + esc_char(s.last()));
        assert(json_escaped(s) =~= esc_char(s[0]) + json_escaped(s.drop_first()));
    }
}

/// One character of a subrange equality, read off pointwise.
pub proof fn lemma_subrange_char(t: Seq<char>, i: int, a: Seq<char>, k: int)
    requires
        0 <= i,
        i + a.len() <= t.len(),
        t.subrange(i, i + a.len()) == a,
        0 <= k < a.len(),
    ensures
        t[i + k] == a[k],
{
    assert(t.subrange(i, i + a.len())[k] == t[i + k]);
}

/// The encoder's hexadecimal digits are what the decoder reads back.
pub proof fn lemma_hex_char_val(d: int)
    requires
        0 <= d < 16,
    ensures
        is_hex(hex_char(d)),
        hex_val(hex_char(d)) == d,
{
}


/// A character below 128 survives the trip through its code.
pub proof fn lemma_char_code_round(c: char)
    requires
        (c as u32) < 128,
    ensures
        (((c as u32) as u8) as char) == c,
{
}

/// Reading a string body over escaped content recovers the content: the
/// decoder's string scanner inverts the encoder's escaper.
pub proof fn lemma_unescape(t: Seq<char>, i: int, s: Seq<char>, acc: Seq<char>)
    requires
        0 <= i,
        i + json_escaped(s).len() + 1 <= t.len(),
        t.subrange(i, i + json_escaped(s).len()) == json_escaped(s),
        t[i + json_escaped(s).len()] == '"',
    ensures
        parse_string_body(t, i, acc) == Some((acc + s, i + json_escaped(s).len() + 1)),
    decreases s.len(),
{
    let je = json_escaped(s);
    if s.len() == 0 {
        assert(je =~= Seq::<char>::empty());
        assert(t.subrange(i, i) =~= Seq::<char>::empty());
        assert(t[i] == '"');
        assert(acc + s =~= acc);
    } else {
        let c = s[0];
        let rest = s.drop_first();
        let e = esc_char(c);
        let jr = json_escaped(rest);
        lemma_escaped_uncons(s);
        lemma_subrange_split(t, i, e, jr);
        let i2 = i + e.len();
        assert(t.subrange(i2, i2 + jr.len()) == jr);
        assert(i2 + jr.len() == i + je.len());
        if c == '"' {
            lemma_subrange_char(t, i, e, 0);
            lemma_subrange_char(t, i, e, 1);
            assert(t[i] == '\\' && t[i + 1] == '"');
            lemma_unescape(t, i + 2, rest, acc.push(c));
            assert(acc.push(c) + rest =~= acc + s);
        } else if c == '\\' {
            lemma_subrange_char(t, i, e, 0);
            lemma_subrange_char(t, i, e, 1);
            assert(t[i] == '\\' && t[i + 1] == '\\');
            lemma_unescape(t, i + 2, rest, acc.push(c));
            assert(acc.push(c) + rest =~= acc + s);
        } else if (c as u32) < 32 {
            let hi = (c as u32) as int / 16;
            let lo = (c as u32) as int % 16;
            lemma_subrange_char(t, i, e, 0);
            lemma_subrange_char(t, i, e, 1);
            lemma_subrange_char(t, i, e, 2);
            lemma_subrange_char(t, i, e, 3);
            lemma_subrange_char(t, i, e, 4);
            lemma_subrange_char(t, i, e, 5);
            assert(t[i] == '\\' && t[i + 1] == 'u');
            assert(t[i + 2] == '0' && t[i + 3] == '0');
            assert(t[i + 4] == hex_char(hi) && t[i + 5] == hex_char(lo));
            lemma_hex_char_val(hi);
            lemma_hex_char_val(lo);
            assert(hex_val('0') == 0);
            let v = hex_val(t[i + 2]) * 4096 + hex_val(t[i + 3]) * 256 + hex_val(t[i + 4]) * 16
                + hex_val(t[i + 5]);
            assert(v == c as u32);
            assert(v as u8 == (c as u32) as u8);
            lemma_char_code_round(c);
            assert(((v as u8) as char) == c);
            lemma_unescape(t, i + 6, rest, acc.push(c));
            assert(acc.push(c) + rest =~= acc + s);
        } else {
            assert(e =~= seq![c]);
            lemma_subrange_char(t, i, e, 0);
            assert(t[i] == c);
            lemma_unescape(t, i + 1, rest, acc.push(c));
            assert(acc.push(c) + rest =~= acc + s);
        }
    }
}

/// Reading a string over an encoded string literal recovers the text.
pub proof fn lemma_parse_string_of_encoded(t: Seq<char>, i: int, s: Seq<char>)
    requires
        0 <= i,
        i + json_string(s).len() <= t.len(),
        t.subrange(i, i + json_string(s).len()) == json_string(s),
    ensures
        parse_string(t, i) == Some((s, i + json_string(s).len())),
{
    let js = json_string(s);
    let je = json_escaped(s);
    assert(js =~= seq!['"'] + (je + seq!['"']));
    lemma_subrange_split(t, i, seq!['"'], je + seq!['"']);
    assert(t.subrange(i, i + 1) == seq!['"']);
    lemma_subrange_char(t, i, seq!['"'], 0);
    assert(t[i] == '"');
    lemma_subrange_split(t, i + 1, je, seq!['"']);
    lemma_subrange_char(t, i + 1 + je.len(), seq!['"'], 0);
    assert(t[i + 1 + je.len()] == '"');
    lemma_unescape(t, i + 1, s, Seq::empty());
    assert(Seq::empty() + s =~= s);
    assert(parse_string(t, i) == Some((s, i + js.len())));
}

/// A run of digits followed by a non-digit ends exactly there.
pub proof fn lemma_digits_end_of(t: Seq<char>, i: int, j: int)
    requires
        0 <= i <= j <= t.len(),
        forall|k: int| i <= k < j ==> is_dec_digit(#[trigger] t[k]),
        j == t.len() || !is_dec_digit(t[j]),
    ensures
        digits_end(t, i) == j,
    decreases j - i,
{
    if i < j {
        assert(is_dec_digit(t[i]));
        lemma_digits_end_of(t, i + 1, j);
    }
}

/// A rendered number above zero never starts with a zero digit.
pub proof fn lemma_dec_rep_first(m: int)
    requires
        m >= 1,
    ensures
        dec_rep(m)[0] != '0',
    decreases m,
{
    if m >= 10 {
        lemma_dec_rep_val(m / 10);
        lemma_dec_rep_first(m / 10);
        assert(dec_rep(m)[0] == dec_rep(m / 10)[0]);
    }
}

/// Reading a number over a rendered age recovers the age: the decoder's
/// number scanner inverts the encoder's decimal rendering.
pub proof fn lemma_parse_age_of_encoded(t: Seq<char>, i: int, n: u8)
    requires
        0 <= i,
        i + dec_rep(n as int).len() < t.len(),
        t.subrange(i, i + dec_rep(n as int).len()) == dec_rep(n as int),
        !is_dec_digit(t[i + dec_rep(n as int).len()]),
    ensures
        parse_age_num(t, i) == Some((n, i + dec_rep(n as int).len())),
{
    let d = dec_rep(n as int);
    lemma_dec_rep_val(n as int);
    assert forall|k: int| i <= k < i + d.len() implies is_dec_digit(t[k]) by {
        lemma_subrange_char(t, i, d, k - i);
        assert(is_dec_digit(d[k - i]));
    }
    lemma_digits_end_of(t, i, i + d.len());
    lemma_subrange_char(t, i, d, 0);
    if t[i] == '0' {
        if n as int >= 1 {
            lemma_dec_rep_first(n as int);
        }
        assert(n == 0);
        assert(d.len() == 1);
    }
    assert(t.subrange(i, digits_end(t, i)) == d);
}

/// A string of plain characters is rendered as itself between quotes.
pub proof fn lemma_json_string_plain(s: Seq<char>)
    requires
        forall|k: int| 0 <= k < s.len() ==> plain_char(#[trigger] s[k]),
    ensures
        json_string(s) == seq!['"'] + s + seq!['"'],
{
    lemma_escaped_plain(s);
    assert(json_string(s) =~= seq!['"'] + s + seq!['"']);
}

/// Reading members over the encoded name, age and subject members fills
/// exactly those three slots and consumes through the closing brace.
#[verifier::rlimit(100)]
pub proof fn lemma_parse_fields(
    t: Seq<char>,
    i: int,
    name: Seq<char>,
    age: u8,
    subject: Seq<char>,
    p: PartialStudent,
)
    requires
        0 <= i,
        p.name is None,
        p.age is None,
        p.subject is None,
        i + fields_json(name, age, subject).len() <= t.len(),
        t.subrange(i, i + fields_json(name, age, subject).len()) == fields_json(
            name,
            age,
            subject,
        ),
    ensures
        parse_members(t, i, p) == Some(
            (
                PartialStudent {
                    name: Some(name),
                    age: Some(age),
                    subject: Some(subject),
                    ..p
                },
                i + fields_json(name, age, subject).len(),
            ),
        ),
{
    reveal_strlit("name");
    reveal_strlit("age");
    reveal_strlit("subject");
    reveal_strlit("_id");
    reveal_strlit("\"name\":");
    reveal_strlit(",\"age\":");
    reveal_strlit(",\"subject\":");
    reveal_strlit("}");
    assert forall|k: int| 0 <= k < "name"@.len() implies plain_char("name"@[k]) by {}
    assert forall|k: int| 0 <= k < "age"@.len() implies plain_char("age"@[k]) by {}
    assert forall|k: int| 0 <= k < "subject"@.len() implies plain_char("subject"@[k]) by {}
    lemma_json_string_plain("name"@);
    lemma_json_string_plain("age"@);
    lemma_json_string_plain("subject"@);
    let kn = json_string("name"@);
    let ka = json_string("age"@);
    let ks = json_string("subject"@);
    let nj = json_string(name);
    let ad = dec_rep(age as int);
    let sj = json_string(subject);
    let colon = seq![':'];
    let comma = seq![','];
    let rbrace = seq!['}'];
    let f = fields_json(name, age, subject);
    assert(kn.len() == 6 && ka.len() == 5 && ks.len() == 9);
    let i1 = i + kn.len();
    let i2 = i1 + 1;
    let i3 = i2 + nj.len();
    let i4 = i3 + 1;
    let i5 = i4 + ka.len();
    let i6 = i5 + 1;
    let i7 = i6 + ad.len();
    let i8 = i7 + 1;
    let i9 = i8 + ks.len();
    let i10 = i9 + 1;
    let i11 = i10 + sj.len();
    let i12 = i11 + 1;
    assert(f.len() == i12 - i);
    // peel the text piece by piece
    let r1 = colon + nj + comma + ka + colon + ad + comma + ks + colon + sj + rbrace;
    assert(f =~= kn + r1);
    lemma_subrange_split(t, i, kn, r1);
    let r2 = nj + comma + ka + colon + ad + comma + ks + colon + sj + rbrace;
    assert(r1 =~= colon + r2);
    lemma_subrange_split(t, i1, colon, r2);
    let r3 = comma + ka + colon + ad + comma + ks + colon + sj + rbrace;
    assert(r2 =~= nj + r3);
    lemma_subrange_split(t, i2, nj, r3);
    let r4 = ka + colon + ad + comma + ks + colon + sj + rbrace;
    assert(r3 =~= comma + r4);
    lemma_subrange_split(t, i3, comma, r4);
    let r5 = colon + ad + comma + ks + colon + sj + rbrace;
    assert(r4 =~= ka + r5);
    lemma_subrange_split(t, i4, ka, r5);
    let r6 = ad + comma + ks + colon + sj + rbrace;
    assert(r5 =~= colon + r6);
    lemma_subrange_split(t, i5, colon, r6);
    let r7 = comma + ks + colon + sj + rbrace;
    assert(r6 =~= ad + r7);
    lemma_subrange_split(t, i6, ad, r7);
    let r8 = ks + colon + sj + rbrace;
    assert(r7 =~= comma + r8);
    lemma_subrange_split(t, i7, comma, r8);
    let r9 = colon + sj + rbrace;
    assert(r8 =~= ks + r9);
    lemma_subrange_split(t, i8, ks, r9);
    let r10 = sj + rbrace;
    assert(r9 =~= colon + r10);
    lemma_subrange_split(t, i9, colon, r10);
    lemma_subrange_split(t, i10, sj, rbrace);
    // the punctuation characters
    lemma_subrange_char(t, i1, colon, 0);
    lemma_subrange_char(t, i3, comma, 0);
    lemma_subrange_char(t, i5, colon, 0);
    lemma_subrange_char(t, i7, comma, 0);
    lemma_subrange_char(t, i9, colon, 0);
    lemma_subrange_char(t, i11, rbrace, 0);
    // the opening quotes after each separator, so blank-space skipping
    // stands still everywhere
    lemma_subrange_char(t, i2, nj, 0);
    lemma_subrange_char(t, i4, ka, 0);
    lemma_subrange_char(t, i8, ks, 0);
    lemma_subrange_char(t, i10, sj, 0);
    assert(nj[0] == '"' && ka[0] == '"' && ks[0] == '"' && sj[0] == '"');
    lemma_subrange_char(t, i6, ad, 0);
    lemma_dec_rep_val(age as int);
    assert(is_dec_digit(ad[0]));
    // member one: the name
    lemma_parse_string_of_encoded(t, i, "name"@);
    assert(skip_ws(t, i1) == i1);
    assert(skip_ws(t, i2) == i2);
    assert("name"@ != "_id"@);
    lemma_parse_string_of_encoded(t, i2, name);
    let p1 = PartialStudent { name: Some(name), ..p };
    assert(parse_member(t, i, p) == Some((p1, i3)));
    assert(skip_ws(t, i3) == i3);
    assert(skip_ws(t, i4) == i4);
    assert(parse_members(t, i, p) == parse_members(t, i4, p1));
    // member two: the age
    lemma_parse_string_of_encoded(t, i4, "age"@);
    assert(skip_ws(t, i5) == i5);
    assert(skip_ws(t, i6) == i6);
    assert("age"@ != "_id"@ && "age"@ != "name"@);
    assert(!is_dec_digit(t[i7]));
    lemma_parse_age_of_encoded(t, i6, age);
    let p2 = PartialStudent { age: Some(age), ..p1 };
    assert(parse_member(t, i4, p1) == Some((p2, i7)));
    assert(skip_ws(t, i7) == i7);
    assert(skip_ws(t, i8) == i8);
    assert(parse_members(t, i4, p1) == parse_members(t, i8, p2));
    // member three: the subject
    lemma_parse_string_of_encoded(t, i8, "subject"@);
    assert(skip_ws(t, i9) == i9);
    assert(skip_ws(t, i10) == i10);
    assert("subject"@ != "_id"@ && "subject"@ != "name"@ && "subject"@ != "age"@);
    lemma_parse_string_of_encoded(t, i10, subject);
    let p3 = PartialStudent { subject: Some(subject), ..p2 };
    assert(parse_member(t, i8, p2) == Some((p3, i11)));
    assert(skip_ws(t, i11) == i11);
    assert(parse_members(t, i8, p2) == Some((p3, i12)));
}

/// An encoded record always opens with a brace.
pub proof fn lemma_student_json_first(v: StudentView)
    ensures
        student_json(v).len() >= 1,
        student_json(v)[0] == '{',
{
    reveal_strlit("{");
    reveal_strlit("{\"_id\":{\"$oid\":");
    match v.id {
        Some(oid) => {
            assert(student_json(v)[0] == "{\"_id\":{\"$oid\":"@[0]);
        },
        None => {
            assert(student_json(v)[0] == "{"@[0]);
        },
    }
}

/// Reading one object over an encoded record recovers the record.
#[verifier::rlimit(100)]
pub proof fn lemma_parse_object_of_encoded(t: Seq<char>, i: int, v: StudentView)
    requires
        0 <= i,
        i + student_json(v).len() <= t.len(),
        t.subrange(i, i + student_json(v).len()) == student_json(v),
    ensures
        parse_object(t, i) == Some((v, i + student_json(v).len())),
{
    let sv = student_json(v);
    let f = fields_json(v.name, v.age, v.subject);
    reveal_strlit("\"name\":");
    assert(f[0] == '"');
    match v.id {
        None => {
            reveal_strlit("{");
            assert(sv =~= seq!['{'] + f);
            lemma_subrange_split(t, i, seq!['{'], f);
            lemma_subrange_char(t, i, seq!['{'], 0);
            assert(t[i] == '{');
            lemma_subrange_char(t, i + 1, f, 0);
            assert(skip_ws(t, i + 1) == i + 1);
            lemma_parse_fields(t, i + 1, v.name, v.age, v.subject, empty_partial());
            let pf = PartialStudent {
                name: Some(v.name),
                age: Some(v.age),
                subject: Some(v.subject),
                ..empty_partial()
            };
            assert(student_of(pf) == Some(v));
        },
        Some(oid) => {
            reveal_strlit("{\"_id\":{\"$oid\":");
            reveal_strlit("},");
            reveal_strlit("_id");
            reveal_strlit("$oid");
            assert forall|k: int| 0 <= k < "_id"@.len() implies plain_char("_id"@[k]) by {}
            assert forall|k: int| 0 <= k < "$oid"@.len() implies plain_char("$oid"@[k]) by {}
            lemma_json_string_plain("_id"@);
            lemma_json_string_plain("$oid"@);
            let kid = json_string("_id"@);
            let koid = json_string("$oid"@);
            let oj = json_string(oid);
            assert(kid.len() == 5 && koid.len() == 6);
            let j1 = i + 1;
            let j2 = j1 + kid.len();
            let j3 = j2 + 1;
            let j4 = j3 + 1;
            let j5 = j4 + koid.len();
            let j6 = j5 + 1;
            let j7 = j6 + oj.len();
            let j8 = j7 + 1;
            let j9 = j8 + 1;
            let j10 = j9 + f.len();
            assert(sv.len() == j10 - i);
            let r1 = kid + seq![':'] + seq!['{'] + koid + seq![':'] + oj + seq!['}'] + seq![',']
                + f;
            assert(sv =~= seq!['{'] + r1);
            lemma_subrange_split(t, i, seq!['{'], r1);
            let r2 = seq![':'] + seq!['{'] + koid + seq![':'] + oj + seq!['}'] + seq![','] + f;
            assert(r1 =~= kid + r2);
            lemma_subrange_split(t, j1, kid, r2);
            let r3 = seq!['{'] + koid + seq![':'] + oj + seq!['}'] + seq![','] + f;
            assert(r2 =~= seq![':'] + r3);
            lemma_subrange_split(t, j2, seq![':'], r3);
            let r4 = koid + seq![':'] + oj + seq!['}'] + seq![','] + f;
            assert(r3 =~= seq!['{'] + r4);
            lemma_subrange_split(t, j3, seq!['{'], r4);
            let r5 = seq![':'] + oj + seq!['}'] + seq![','] + f;
            assert(r4 =~= koid + r5);
            lemma_subrange_split(t, j4, koid, r5);
            let r6 = oj + seq!['}'] + seq![','] + f;
            assert(r5 =~= seq![':'] + r6);
            lemma_subrange_split(t, j5, seq![':'], r6);
            let r7 = seq!['}'] + seq![','] + f;
            assert(r6 =~= oj + r7);
            lemma_subrange_split(t, j6, oj, r7);
            let r8 = seq![','] + f;
            assert(r7 =~= seq!['}'] + r8);
            lemma_subrange_split(t, j7, seq!['}'], r8);
            assert(r8 =~= seq![','] + f);
            lemma_subrange_split(t, j8, seq![','], f);
            lemma_subrange_char(t, i, seq!['{'], 0);
            lemma_subrange_char(t, j1, kid, 0);
            lemma_subrange_char(t, j2, seq![':'], 0);
            lemma_subrange_char(t, j3, seq!['{'], 0);
            lemma_subrange_char(t, j4, koid, 0);
            lemma_subrange_char(t, j5, seq![':'], 0);
            lemma_subrange_char(t, j6, oj, 0);
            lemma_subrange_char(t, j7, seq!['}'], 0);
            lemma_subrange_char(t, j8, seq![','], 0);
            lemma_subrange_char(t, j9, f, 0);
            assert(kid[0] == '"' && koid[0] == '"' && oj[0] == '"');
            assert(t[i] == '{' && t[j2] == ':' && t[j3] == '{' && t[j5] == ':' && t[j7] == '}'
                && t[j8] == ',' && t[j9] == '"');
            assert(skip_ws(t, j1) == j1);
            lemma_parse_string_of_encoded(t, j1, "_id"@);
            assert(skip_ws(t, j2) == j2);
            assert(skip_ws(t, j3) == j3);
            // the identifier value
            lemma_parse_string_of_encoded(t, j4, "$oid"@);
            assert(skip_ws(t, j4) == j4);
            assert(skip_ws(t, j5) == j5);
            assert(skip_ws(t, j6) == j6);
            lemma_parse_string_of_encoded(t, j6, oid);
            assert(skip_ws(t, j7) == j7);
            assert(parse_id_value(t, j3) == Some((Some(oid), j8)));
            let p1 = PartialStudent { id: Some(Some(oid)), ..empty_partial() };
            assert(parse_member(t, j1, empty_partial()) == Some((p1, j8)));
            assert(skip_ws(t, j8) == j8);
            assert(skip_ws(t, j9) == j9);
            assert(parse_members(t, j1, empty_partial()) == parse_members(t, j9, p1));
            lemma_parse_fields(t, j9, v.name, v.age, v.subject, p1);
            let p3 = PartialStudent {
                name: Some(v.name),
                age: Some(v.age),
                subject: Some(v.subject),
                ..p1
            };
            assert(student_of(p3) == Some(v));
            assert(skip_ws(t, i + 1) == j1);
            assert(parse_object(t, i) == Some((v, j10)));
        },
    }
}

/// No two distinct records share a wire text: decoding is a left inverse
/// of encoding, so encoding cannot conflate records.
pub proof fn lemma_encode_injective(v1: StudentView, v2: StudentView)
    requires
        student_json(v1) == student_json(v2),
    ensures
        v1 == v2,
{
    let t = student_json(v1);
    assert(t.subrange(0, t.len() as int) =~= t);
    lemma_parse_object_of_encoded(t, 0, v1);
    lemma_parse_object_of_encoded(t, 0, v2);
}

/// The wire text of a whole answer, as a store that echoes this crate's
/// own rendering would produce it: the records' objects between commas,
/// in brackets.
pub open spec fn wire_items(l: Seq<StudentView>) -> Seq<char>
    decreases l.len(),
{
    if l.len() == 0 {
        Seq::empty()
    } else if l.len() == 1 {
        student_json(l[0])
    } else {
        student_json(l[0]) + seq![','] + wire_items(l.drop_first())
    }
}

/// The whole answer: the items in brackets.
pub open spec fn wire_json(l: Seq<StudentView>) -> Seq<char> {
    seq!['['] + wire_items(l) + seq![']']
}

/// Reading array elements over encoded records recovers the records.
#[verifier::rlimit(100)]
pub proof fn lemma_parse_items(t: Seq<char>, i: int, l: Seq<StudentView>, acc: Seq<StudentView>)
    requires
        l.len() >= 1,
        0 <= i,
        i + wire_items(l).len() + 1 <= t.len(),
        t.subrange(i, i + wire_items(l).len()) == wire_items(l),
        t[i + wire_items(l).len()] == ']',
    ensures
        parse_array_rest(t, i, acc) == Some((acc + l, i + wire_items(l).len() + 1)),
    decreases l.len(),
{
    let w = wire_items(l);
    let s0 = student_json(l[0]);
    if l.len() == 1 {
        assert(w == s0);
        lemma_parse_object_of_encoded(t, i, l[0]);
        assert(skip_ws(t, i + s0.len()) == i + s0.len());
        assert(acc.push(l[0]) =~= acc + l);
    } else {
        let rest = l.drop_first();
        let wr = wire_items(rest);
        assert(w =~= s0 + (seq![','] + wr));
        lemma_subrange_split(t, i, s0, seq![','] + wr);
        let i2 = i + s0.len();
        lemma_subrange_split(t, i2, seq![','], wr);
        lemma_subrange_char(t, i2, seq![','], 0);
        let i3 = i2 + 1;
        lemma_parse_object_of_encoded(t, i, l[0]);
        assert(t[i2] == ',');
        assert(skip_ws(t, i2) == i2);
        lemma_student_json_first(rest[0]);
        assert(wr[0] == student_json(rest[0])[0]);
        lemma_subrange_char(t, i3, wr, 0);
        assert(t[i3] == '{');
        assert(skip_ws(t, i3) == i3);
        lemma_parse_items(t, i3, rest, acc.push(l[0]));
        assert(acc.push(l[0]) + rest =~= acc + l);
    }
}

/// The round trip: an answer holding exactly this crate's rendering of a
/// record list decodes back to that list.
pub proof fn lemma_round_trip(l: Seq<StudentView>)
    ensures
        spec_parse_students(wire_json(l)) == Some(l),
{
    let t = wire_json(l);
    let w = wire_items(l);
    assert(t.subrange(0, t.len() as int) =~= t);
    assert(t =~= seq!['['] + (w + seq![']']));
    lemma_subrange_split(t, 0, seq!['['], w + seq![']']);
    lemma_subrange_split(t, 1, w, seq![']']);
    lemma_subrange_char(t, 0, seq!['['], 0);
    lemma_subrange_char(t, 1 + w.len() as int, seq![']'], 0);
    assert(t[0] == '[');
    assert(t[1 + w.len() as int] == ']');
    assert(skip_ws(t, 0) == 0);
    if l.len() == 0 {
        assert(w =~= Seq::<char>::empty());
        assert(t.len() == 2);
        assert(skip_ws(t, 1) == 1);
        assert(skip_ws(t, 2) == 2);
        assert(Seq::<StudentView>::empty() =~= l);
    } else {
        lemma_student_json_first(l[0]);
        assert(w[0] == student_json(l[0])[0]);
        lemma_subrange_char(t, 1, w, 0);
        assert(t[1] == '{');
        assert(skip_ws(t, 1) == 1);
        lemma_parse_items(t, 1, l, Seq::empty());
        assert(skip_ws(t, t.len() as int) == t.len());
        assert(Seq::<StudentView>::empty() + l =~= l);
    }
}

} // verus!
