//! Decimal text for ages: parsing free-form age input the way the form
//! does (silently falling back to 0), and rendering an age for display.

use vstd::prelude::*;
use vstd::string::StrSliceExecFns;
use crate::chars::{digit_char, digit_to_char, push_char};

verus! {

/// A decimal digit character.
pub open spec fn is_dec_digit(c: char) -> bool {
    48 <= c as u32 && c as u32 <= 57
}

/// Numeric value of a digit character.
pub open spec fn digit_val(c: char) -> int {
    c as u32 - 48
}

/// Value of a sequence of digit characters read in base 10.
pub open spec fn dec_val(s: Seq<char>) -> int
    decreases s.len(),
{
    if s.len() == 0 {
        0
    } else {
        dec_val(s.drop_last()) * 10 + digit_val(s.last())
    }
}

/// Every character of `s` is a decimal digit.
pub open spec fn all_digits(s: Seq<char>) -> bool {
    forall|i: int| 0 <= i < s.len() ==> is_dec_digit(#[trigger] s[i])
}

/// The digits of an unsigned number text: a single leading `+` is allowed
/// and ignored.
pub open spec fn unsigned_body(s: Seq<char>) -> Seq<char> {
    if s.len() > 0 && s[0] == '+' {
        s.drop_first()
    } else {
        s
    }
}

/// Whether `s` is text that parses as a `u8`: optionally signed with `+`,
/// then one or more digits, with value at most 255.
pub open spec fn parses_to_u8(s: Seq<char>) -> bool {
    let b = unsigned_body(s);
    b.len() > 0 && all_digits(b) && dec_val(b) <= 255
}

/// The age the form derives from free-form text: its numeric value when the
/// text parses as a `u8`, and 0 on any parse failure.
pub open spec fn age_of_text(s: Seq<char>) -> u8 {
    if parses_to_u8(s) {
        dec_val(unsigned_body(s)) as u8
    } else {
        0
    }
}

pub proof fn lemma_dec_val_nonneg(s: Seq<char>)
    requires
        all_digits(s),
    ensures
        dec_val(s) >= 0,
    decreases s.len(),
{
    if s.len() > 0 {
        assert(all_digits(s.drop_last())) by {
            assert(forall|i: int|
                0 <= i < s.len() - 1 ==> s.drop_last()[i] == #[trigger] s[i]);
        }
        lemma_dec_val_nonneg(s.drop_last());
    }
}

/// Reading more digits can only increase the value.
pub proof fn lemma_dec_val_prefix(s: Seq<char>, i: int)
    requires
        all_digits(s),
        0 <= i <= s.len(),
    ensures
        dec_val(s.take(i)) <= dec_val(s),
    decreases s.len() - i,
{
    if i == s.len() {
        assert(s.take(i) =~= s);
    } else {
        assert(s.take(i + 1).drop_last() =~= s.take(i));
        assert(s.take(i + 1).last() == s[i]);
        assert(all_digits(s.take(i))) by {
            assert(forall|j: int|
                0 <= j < i ==> s.take(i)[j] == #[trigger] s[j]);
        }
        lemma_dec_val_nonneg(s.take(i));
        assert(dec_val(s.take(i)) <= dec_val(s.take(i + 1)));
        lemma_dec_val_prefix(s, i + 1);
    }
}

/// Parse an age the way the form does: the numeric value when the text is
/// an unsigned decimal number at most 255, and 0 otherwise.
pub fn parse_age(t: &str) -> (r: u8)
    ensures
        r == age_of_text(t@),
{
    let n = t.unicode_len();
    let ghost body = unsigned_body(t@);
    let start: usize = if n > 0 && t.get_char(0) == '+' {
        1
    } else {
        0
    };
    assert(body =~= t@.subrange(start as int, n as int));
    if start == n {
        // no digits at all
        assert(!parses_to_u8(t@));
        return 0;
    }
    let mut acc: u32 = 0;
    let mut i: usize = start;
    while i < n
        invariant
            start <= i <= n,
            n == t@.len(),
            body == unsigned_body(t@),
            body == t@.subrange(start as int, n as int),
            all_digits(body.take(i - start)),
            acc <= 255,
            acc as int == dec_val(body.take(i - start)),
        decreases n - i,
    {
        let c = t.get_char(i);
        let u = c as u32;
        if u < 48 || u > 57 {
            // a non-digit character: the text does not parse, the age is 0
            assert(body[i - start] == c);
            assert(!is_dec_digit(c));
            assert(!all_digits(body));
            assert(!parses_to_u8(t@));
            return 0;
        }
        let d = u - 48;
        let next = acc * 10 + d;
        proof {
            assert(body.take(i - start + 1).drop_last() =~= body.take(i - start));
            assert(body.take(i - start + 1).last() == body[i - start]);
        }
        if next > 255 {
            // the value overflows a u8: the text does not parse, the age is 0
            assert(!parses_to_u8(t@)) by {
                if parses_to_u8(t@) {
                    lemma_dec_val_prefix(body, i - start + 1);
                }
            }
            return 0;
        }
        acc = next;
        i = i + 1;
    }
    assert(body.take(n - start) =~= body);
    assert(parses_to_u8(t@));
    acc as u8
}

/// Every character of a decimal rendering is a digit, the first is never
/// a sign, and the rendering reads back as the number itself.
pub proof fn lemma_dec_rep_val(n: int)
    requires
        n >= 0,
    ensures
        dec_rep(n).len() >= 1,
        all_digits(dec_rep(n)),
        dec_rep(n)[0] != '+',
        dec_val(dec_rep(n)) == n,
    decreases n,
{
    if n < 10 {
        let t0 = seq![digit_char(n)];
        assert(dec_rep(n) =~= t0);
        assert(t0.drop_last() =~= Seq::<char>::empty());
        assert(t0.last() == digit_char(n));
        assert(dec_val(t0) == digit_val(digit_char(n))) by {
            reveal_with_fuel(dec_val, 2);
        }
    } else {
        lemma_dec_rep_val(n / 10);
        let pre = dec_rep(n / 10);
        let d = digit_char(n % 10);
        assert(dec_rep(n) == pre.push(d));
        assert(dec_rep(n).drop_last() =~= pre);
        assert(dec_rep(n).last() == d);
        assert(dec_val(dec_rep(n)) == dec_val(pre) * 10 + digit_val(d));
        assert(dec_val(dec_rep(n)) == n);
        assert(all_digits(dec_rep(n))) by {
            assert(forall|i: int|
                0 <= i < pre.len() ==> dec_rep(n)[i] == #[trigger] pre[i]);
        }
        assert(dec_rep(n)[0] == pre[0]);
    }
}

/// The age text the edit form redisplays parses back to the same age:
/// rendering an age and reading the text again is the identity.
pub proof fn lemma_age_text_round_trip(n: u8)
    ensures
        age_of_text(dec_rep(n as int)) == n,
{
    lemma_dec_rep_val(n as int);
    let t = dec_rep(n as int);
    assert(unsigned_body(t) == t);
    assert(parses_to_u8(t));
}

/// The decimal text of a non-negative number, without sign or padding.
pub open spec fn dec_rep(n: int) -> Seq<char>
    decreases n,
{
    if n < 10 {
        seq![digit_char(n)]
    } else {
        dec_rep(n / 10).push(digit_char(n % 10))
    }
}

/// Render an age as decimal text, as the list rows show it.
pub fn age_text(n: u8) -> (r: String)
    ensures
        r@ == dec_rep(n as int),
{
    proof {
        reveal_with_fuel(dec_rep, 4);
    }
    let mut s = String::new();
    if n >= 100 {
        let c = digit_to_char(n / 100);
        push_char(&mut s, c);
    }
    if n >= 10 {
        let c = digit_to_char((n / 10) % 10);
        push_char(&mut s, c);
    }
    let c = digit_to_char(n % 10);
    push_char(&mut s, c);
    proof {
        assert(s@ =~= dec_rep(n as int)) by {
            reveal_with_fuel(dec_rep, 4);
        }
    }
    s
}

} // verus!
