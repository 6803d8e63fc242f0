//! Decimal integers in text, read the way `str::parse` reads them for `u32`
//! and `i64`: an optional sign (`+`, and `-` for signed types) followed by
//! one or more ASCII digits whose value fits the type.

use vstd::prelude::*;

use crate::text::chars_of;

verus! {

/// `c` is an ASCII decimal digit.
pub open spec fn is_digit(c: char) -> bool {
    '0' <= c && c <= '9'
}

/// Every character of `s` is a decimal digit.
pub open spec fn all_digits(s: Seq<char>) -> bool {
    forall|i: int| 0 <= i < s.len() ==> is_digit(#[trigger] s[i])
}

/// The value of the digit character `c`.
pub open spec fn digit_value(c: char) -> int {
    (c as int) - ('0' as int)
}

/// The value of a string of decimal digits, most significant first.
pub open spec fn digits_value(s: Seq<char>) -> int
    decreases s.len(),
{
    if s.len() == 0 {
        0
    } else {
        digits_value(s.drop_last()) * 10 + digit_value(s.last())
    }
}

/// What follows a leading sign character `sign`, when there is one and
/// something follows it; `s` itself otherwise.
pub open spec fn after_sign(s: Seq<char>, sign: char) -> Seq<char> {
    if s.len() >= 2 && s[0] == sign {
        s.drop_first()
    } else {
        s
    }
}

/// `u32::from_str` on `s`: `None` where the text is refused (empty, a sign
/// alone, a character that is not a digit, or a value over `u32::MAX`).
pub open spec fn parse_u32(s: Seq<char>) -> Option<u32> {
    let d = after_sign(s, '+');
    if d.len() > 0 && all_digits(d) && digits_value(d) <= u32::MAX {
        Some(digits_value(d) as u32)
    } else {
        None
    }
}

/// `i64::from_str` on `s`: `None` where the text is refused.
pub open spec fn parse_i64(s: Seq<char>) -> Option<i64> {
    let neg = s.len() >= 2 && s[0] == '-';
    let d = if neg { s.drop_first() } else { after_sign(s, '+') };
    let v = if neg { -digits_value(d) } else { digits_value(d) };
    if d.len() > 0 && all_digits(d) && i64::MIN <= v <= i64::MAX {
        Some(v as i64)
    } else {
        None
    }
}

/// Adding digits to a string of digits never lowers its value.
pub proof fn lemma_digits_value_grows(s: Seq<char>, k: int)
    requires
        all_digits(s),
        0 <= k <= s.len(),
    ensures
        digits_value(s.take(k)) <= digits_value(s),
        0 <= digits_value(s.take(k)),
    decreases s.len(),
{
    if s.len() == 0 {
        assert(s.take(k) =~= s);
    } else if k == s.len() {
        assert(s.take(k) =~= s);
        lemma_digits_value_nonneg(s);
    } else {
        let t = s.drop_last();
        assert(all_digits(t)) by {
            assert forall|i: int| 0 <= i < t.len() implies is_digit(#[trigger] t[i]) by {
                assert(t[i] == s[i]);
            }
        }
        lemma_digits_value_grows(t, k);
        assert(t.take(k) =~= s.take(k));
        assert(is_digit(s[s.len() - 1]));
        lemma_digits_value_nonneg(t);
    }
}

/// The value of a string of digits is not negative.
pub proof fn lemma_digits_value_nonneg(s: Seq<char>)
    requires
        all_digits(s),
    ensures
        0 <= digits_value(s),
    decreases s.len(),
{
    if s.len() > 0 {
        let t = s.drop_last();
        assert forall|i: int| 0 <= i < t.len() implies is_digit(#[trigger] t[i]) by {
            assert(t[i] == s[i]);
        }
        lemma_digits_value_nonneg(t);
        assert(is_digit(s[s.len() - 1]));
    }
}

/// One more digit: the value of the longer prefix.
proof fn lemma_digits_step(d: Seq<char>, i: int)
    requires
        0 <= i < d.len(),
    ensures
        digits_value(d.take(i + 1)) == digits_value(d.take(i)) * 10 + digit_value(d[i]),
{
    let t = d.take(i + 1);
    assert(t.drop_last() =~= d.take(i));
    assert(t.last() == d[i]);
}

/// Reads the digits `d[from..]` while the value stays at most `bound`.
/// Returns the value when every character is a digit and the value is
/// within `bound`, `None` otherwise.
fn digits_up_to(d: &[char], from: usize, bound: u128) -> (r: Option<u128>)
    requires
        from <= d.len(),
        bound <= u64::MAX,
    ensures
        ({
            let t = d@.skip(from as int);
            match r {
                Some(v) => all_digits(t) && v == digits_value(t) && v <= bound,
                None => !(all_digits(t) && digits_value(t) <= bound),
            }
        }),
{
    let ghost t = d@.skip(from as int);
    let mut acc: u128 = 0;
    let mut i: usize = from;
    while i < d.len()
        invariant
            from <= i <= d.len(),
            bound <= u64::MAX,
            t == d@.skip(from as int),
            all_digits(t.take(i - from)),
            acc == digits_value(t.take(i - from)),
            acc <= bound,
        decreases d.len() - i,
    {
        let c = d[i];
        proof {
            lemma_digits_step(t, i - from);
            assert(t[i - from] == c);
        }
        if !('0' <= c && c <= '9') {
            proof {
                assert(!is_digit(t[i - from]));
            }
            return None;
        }
        let dv = (c as u32 - '0' as u32) as u128;
        let next = acc * 10 + dv;
        if next > bound {
            proof {
                if all_digits(t) {
                    lemma_digits_value_grows(t, i - from + 1);
                }
            }
            return None;
        }
        proof {
            assert forall|j: int| 0 <= j < t.take(i - from + 1).len() implies is_digit(
                #[trigger] t.take(i - from + 1)[j],
            ) by {
                if j < i - from {
                    assert(t.take(i - from + 1)[j] == t.take(i - from)[j]);
                }
            }
        }
        acc = next;
        i += 1;
    }
    assert(t.take(i - from) =~= t);
    Some(acc)
}

/// `u32::from_str`, written out: the value of `s`, or `None` where the text
/// is refused.
pub fn parse_u32_text(s: &str) -> (r: Option<u32>)
    ensures
        r == parse_u32(s@),
{
    let cs = chars_of(s);
    let from: usize = if cs.len() >= 2 && cs[0] == '+' { 1 } else { 0 };
    proof {
        assert(cs@.skip(from as int) =~= after_sign(s@, '+'));
    }
    if from >= cs.len() {
        return None;
    }
    match digits_up_to(cs.as_slice(), from, 0xffff_ffffu128) {
        Some(v) => Some(v as u32),
        None => None,
    }
}

/// `i64::from_str`, written out: the value of `s`, or `None` where the text
/// is refused.
pub fn parse_i64_text(s: &str) -> (r: Option<i64>)
    ensures
        r == parse_i64(s@),
{
    let cs = chars_of(s);
    let neg = cs.len() >= 2 && cs[0] == '-';
    let from: usize = if cs.len() >= 2 && (cs[0] == '-' || cs[0] == '+') { 1 } else { 0 };
    proof {
        if neg {
            assert(cs@.skip(1) =~= s@.drop_first());
        } else {
            assert(cs@.skip(from as int) =~= after_sign(s@, '+'));
        }
    }
    if from >= cs.len() {
        return None;
    }
    let bound: u128 = if neg { 0x8000_0000_0000_0000u128 } else { 0x7fff_ffff_ffff_ffffu128 };
    match digits_up_to(cs.as_slice(), from, bound) {
        Some(v) => {
            if neg {
                if v == 0x8000_0000_0000_0000u128 {
                    Some(i64::MIN)
                } else {
                    Some(-(v as i64))
                }
            } else {
                Some(v as i64)
            }
        },
        None => None,
    }
}

} // verus!
