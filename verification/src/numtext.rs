//! Whole numbers written in decimal digits: their values, and reading a
//! bounded one out of text.
use vstd::prelude::*;

verus! {

pub open spec fn is_digit(c: char) -> bool {
    '0' <= c && c <= '9'
}

pub open spec fn digit_value(c: char) -> nat {
    (c as int - '0' as int) as nat
}

/// The value of a digit string.
pub open spec fn digits_value(d: Seq<char>) -> nat
    decreases d.len(),
{
    if d.len() == 0 {
        0
    } else {
        digits_value(d.drop_last()) * 10 + digit_value(d.last())
    }
}

/// Number of leading digits.
pub open spec fn lead_digits(s: Seq<char>) -> nat
    decreases s.len(),
{
    if s.len() > 0 && is_digit(s[0]) {
        1 + lead_digits(s.drop_first())
    } else {
        0
    }
}

proof fn lemma_lead_digits(s: Seq<char>)
    ensures
        lead_digits(s) <= s.len(),
        forall|j: int| 0 <= j < lead_digits(s) ==> is_digit(#[trigger] s[j]),
        lead_digits(s) < s.len() ==> !is_digit(s[lead_digits(s) as int]),
    decreases s.len(),
{
    if s.len() > 0 && is_digit(s[0]) {
        lemma_lead_digits(s.drop_first());
        assert forall|j: int| 0 <= j < lead_digits(s) implies is_digit(#[trigger] s[j]) by {
            if j > 0 {
                assert(s[j] == s.drop_first()[j - 1]);
            }
        }
    }
}

proof fn lemma_lead_digits_is(s: Seq<char>, i: int)
    requires
        0 <= i <= s.len(),
        forall|j: int| 0 <= j < i ==> is_digit(#[trigger] s[j]),
        i == s.len() || !is_digit(s[i]),
    ensures
        lead_digits(s) == i,
    decreases s.len(),
{
    if i > 0 {
        assert(is_digit(s[0]));
        assert forall|j: int| 0 <= j < i - 1 implies is_digit(#[trigger] s.drop_first()[j]) by {
            assert(s.drop_first()[j] == s[j + 1]);
        }
        if i - 1 < s.len() - 1 {
            assert(s.drop_first()[i - 1] == s[i]);
        }
        lemma_lead_digits_is(s.drop_first(), i - 1);
    }
}

fn is_digit_char(c: char) -> (r: bool)
    ensures
        r == is_digit(c),
{
    '0' <= c && c <= '9'
}

fn digit_u64(c: char) -> (r: u64)
    requires
        is_digit(c),
    ensures
        r == digit_value(c),
        r < 10,
{
    (c as u64) - ('0' as u64)
}

/// The value of unsigned integer text as Rust's `FromStr` reads it: an
/// optional `+`, then one or more ASCII digits.
pub open spec fn uint_text(s: Seq<char>) -> Option<nat> {
    let d = if s.len() > 0 && s[0] == '+' {
        s.drop_first()
    } else {
        s
    };
    if d.len() >= 1 && lead_digits(d) == d.len() {
        Some(digits_value(d))
    } else {
        None
    }
}

/// `uint_text` within a bound.
pub open spec fn uint_within(s: Seq<char>, max: u64) -> Option<u64> {
    match uint_text(s) {
        Some(n) => if n <= max {
            Some(n as u64)
        } else {
            None
        },
        None => None,
    }
}

proof fn lemma_digits_grow(d: Seq<char>, i: int)
    requires
        0 <= i <= d.len(),
    ensures
        digits_value(d) >= digits_value(d.take(i)),
    decreases d.len() - i,
{
    if i < d.len() {
        lemma_digits_grow(d, i + 1);
        assert(d.take(i + 1).drop_last() =~= d.take(i));
        let v = digits_value(d.take(i));
        assert(v * 10 >= v) by (nonlinear_arith)
            requires
                v >= 0,
        ;
    } else {
        assert(d.take(i) =~= d);
    }
}

/// Parses unsigned integer text, as `u64::from_str` or `u32::from_str` does
/// with `max` the type's largest value.
pub fn parse_uint(s: &str, max: u64) -> (r: Option<u64>)
    ensures
        r == uint_within(s@, max),
{
    let t = crate::text::chars_of(s);
    let mut start: usize = 0;
    if t.len() > 0 && t[0] == '+' {
        start = 1;
    }
    let ghost d = if t@.len() > 0 && t@[0] == '+' {
        t@.drop_first()
    } else {
        t@
    };
    assert(d =~= t@.skip(start as int));
    if start >= t.len() {
        return None;
    }
    let mut value: u64 = 0;
    let mut i = start;
    while i < t.len()
        invariant
            start <= i <= t.len(),
            start < t.len(),
            d == t@.skip(start as int),
            forall|j: int| start <= j < i ==> is_digit(#[trigger] t@[j]),
            value == digits_value(d.take(i - start)),
            value <= max,
        decreases t.len() - i,
    {
        let c = t[i];
        if !is_digit_char(c) {
            proof {
                lemma_lead_digits(d);
                assert(d[i - start] == c);
                if lead_digits(d) == d.len() {
                    assert(is_digit(d[i - start]));
                }
            }
            return None;
        }
        let dv = digit_u64(c);
        assert(d.take(i + 1 - start).drop_last() =~= d.take(i - start));
        assert(d.take(i + 1 - start).last() == c);
        if dv > max || value > (max - dv) / 10 {
            proof {
                let nv = digits_value(d.take(i + 1 - start));
                assert(nv == value * 10 + dv);
                if dv <= max {
                    assert(value * 10 + dv > max) by (nonlinear_arith)
                        requires
                            value > (max - dv) / 10,
                            dv <= max,
                    ;
                }
                lemma_digits_grow(d, i + 1 - start);
                if uint_text(t@) is Some {
                    assert(uint_text(t@) == Some(digits_value(d)));
                }
            }
            return None;
        }
        assert(value * 10 + dv <= max) by (nonlinear_arith)
            requires
                value <= (max - dv) / 10,
                dv <= max,
        ;
        value = value * 10 + dv;
        i += 1;
    }
    proof {
        assert(d.take(i - start) =~= d);
        assert forall|j: int| 0 <= j < d.len() implies is_digit(#[trigger] d[j]) by {
            assert(d[j] == t@[j + start]);
        }
        lemma_lead_digits_is(d, d.len() as int);
    }
    Some(value)
}

} // verus!
