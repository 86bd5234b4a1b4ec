//! Decimal text for process and session ids.
//!
//! State-store entries embed a session id as decimal text; rediscovering a
//! running project means reading that text back. Printing and parsing are
//! verified inverses of each other (for the parser, on every input that
//! denotes an in-range value).

use vstd::prelude::*;

verus! {

/// Whether `c` is a decimal digit.
pub open spec fn is_digit(c: char) -> bool {
    48 <= c as int <= 57
}

/// The value of a digit character.
pub open spec fn digit_val(c: char) -> int {
    c as int - 48
}

/// Whether every character of `s` is a decimal digit.
pub open spec fn all_digits(s: Seq<char>) -> bool {
    forall|i: int| 0 <= i < s.len() ==> is_digit(s[i])
}

/// The number denoted by a digit string, most significant digit first.
pub open spec fn digits_val(s: Seq<char>) -> int
    decreases s.len(),
{
    if s.len() == 0 {
        0
    } else {
        digits_val(s.drop_last()) * 10 + digit_val(s.last())
    }
}

/// The digit character for a value between 0 and 9.
pub open spec fn digit_char(d: int) -> char {
    if d == 0 {
        '0'
    } else if d == 1 {
        '1'
    } else if d == 2 {
        '2'
    } else if d == 3 {
        '3'
    } else if d == 4 {
        '4'
    } else if d == 5 {
        '5'
    } else if d == 6 {
        '6'
    } else if d == 7 {
        '7'
    } else if d == 8 {
        '8'
    } else {
        '9'
    }
}

/// The canonical decimal text of a non-negative number: no leading zeros
/// except for zero itself.
pub open spec fn dec_rep(n: int) -> Seq<char>
    decreases n,
{
    if n < 10 {
        seq![digit_char(n)]
    } else {
        dec_rep(n / 10).push(digit_char(n % 10))
    }
}

/// The canonical decimal text of a signed number.
pub open spec fn int_rep(v: int) -> Seq<char> {
    if v < 0 {
        seq!['-'] + dec_rep(-v)
    } else {
        dec_rep(v)
    }
}

/// The digits of decimal text: everything after an optional leading sign.
pub open spec fn spec_parse_body(s: Seq<char>) -> Seq<char> {
    if s.len() > 0 && (s[0] == '-' || s[0] == '+') {
        s.drop_first()
    } else {
        s
    }
}

/// What parsing decimal text yields: the denoted value when the text is an
/// optional sign followed by at least one digit and the value lies within
/// the signed 32-bit range, and nothing otherwise.
pub open spec fn spec_parse_i32(s: Seq<char>) -> Option<int> {
    let neg = s.len() > 0 && s[0] == '-';
    let body = spec_parse_body(s);
    if body.len() > 0 && all_digits(body) {
        let v = if neg {
            -digits_val(body)
        } else {
            digits_val(body)
        };
        if -0x8000_0000 <= v <= 0x7fff_ffff {
            Some(v)
        } else {
            None
        }
    } else {
        None
    }
}

/// A digit string denotes a non-negative number.
proof fn lemma_digits_val_nonneg(s: Seq<char>)
    requires
        all_digits(s),
    ensures
        digits_val(s) >= 0,
    decreases s.len(),
{
    if s.len() > 0 {
        assert(all_digits(s.drop_last()));
        lemma_digits_val_nonneg(s.drop_last());
    }
}

/// Extending a digit string on the right multiplies its value by ten and
/// adds the new digit.
proof fn lemma_digits_val_push(s: Seq<char>, c: char)
    ensures
        digits_val(s.push(c)) == digits_val(s) * 10 + digit_val(c),
{
    assert(s.push(c).drop_last() =~= s);
    assert(s.push(c).last() == c);
}

/// A prefix of a digit string never denotes more than the whole string.
proof fn lemma_digits_val_prefix(s: Seq<char>, i: int)
    requires
        all_digits(s),
        0 <= i <= s.len(),
    ensures
        digits_val(s.subrange(0, i)) <= digits_val(s),
    decreases s.len() - i,
{
    if i < s.len() {
        let a = s.subrange(0, i);
        let b = s.subrange(0, i + 1);
        assert(b.drop_last() =~= a);
        assert(all_digits(a));
        lemma_digits_val_nonneg(a);
        assert(is_digit(s[i]));
        assert(digits_val(b) == digits_val(a) * 10 + digit_val(s[i]));
        lemma_digits_val_prefix(s, i + 1);
    } else {
        assert(s.subrange(0, i) =~= s);
    }
}

/// The canonical decimal text of `n` is made of digits and denotes `n`.
pub proof fn lemma_dec_rep_val(n: int)
    requires
        n >= 0,
    ensures
        all_digits(dec_rep(n)),
        digits_val(dec_rep(n)) == n,
        dec_rep(n).len() >= 1,
    decreases n,
{
    if n < 10 {
        let s = dec_rep(n);
        assert(s =~= seq![digit_char(n)]);
        assert(s.drop_last() =~= Seq::<char>::empty());
        assert(digits_val(Seq::<char>::empty()) == 0);
        assert(s.last() == digit_char(n));
        assert(digit_val(digit_char(n)) == n);
        assert(digits_val(s) == digit_val(digit_char(n)));
    } else {
        vstd::arithmetic::div_mod::lemma_fundamental_div_mod(n, 10);
        assert(0 <= n % 10 < 10) by {
            vstd::arithmetic::div_mod::lemma_mod_bound(n, 10);
        }
        assert(n / 10 >= 1) by {
            vstd::arithmetic::div_mod::lemma_div_non_zero(n, 10);
        }
        assert(n / 10 < n) by {
            vstd::arithmetic::div_mod::lemma_div_decreases(n, 10);
        }
        lemma_dec_rep_val(n / 10);
        lemma_digits_val_push(dec_rep(n / 10), digit_char(n % 10));
        assert forall|i: int| 0 <= i < dec_rep(n).len() implies is_digit(dec_rep(n)[i]) by {
            if i < dec_rep(n / 10).len() {
                assert(dec_rep(n)[i] == dec_rep(n / 10)[i]);
            }
        }
    }
}

/// Parsing the canonical decimal text of an in-range value gives that value
/// back.
pub proof fn lemma_parse_int_rep(v: int)
    requires
        -0x8000_0000 <= v <= 0x7fff_ffff,
    ensures
        spec_parse_i32(int_rep(v)) == Some(v),
{
    if v < 0 {
        lemma_dec_rep_val(-v);
        let s = int_rep(v);
        assert(s[0] == '-');
        assert(s.drop_first() =~= dec_rep(-v));
    } else {
        lemma_dec_rep_val(v);
        let s = int_rep(v);
        assert(is_digit(s[0]));
    }
}

/// The text of one digit.
fn digit_str(d: u32) -> (r: &'static str)
    requires
        d < 10,
    ensures
        r@ =~= seq![digit_char(d as int)],
{
    proof {
        reveal_strlit("0");
        reveal_strlit("1");
        reveal_strlit("2");
        reveal_strlit("3");
        reveal_strlit("4");
        reveal_strlit("5");
        reveal_strlit("6");
        reveal_strlit("7");
        reveal_strlit("8");
        reveal_strlit("9");
    }
    match d {
        0 => "0",
        1 => "1",
        2 => "2",
        3 => "3",
        4 => "4",
        5 => "5",
        6 => "6",
        7 => "7",
        8 => "8",
        _ => "9",
    }
}

/// The decimal text of a non-negative number.
pub fn u32_to_decimal(n: u32) -> (r: String)
    ensures
        r@ == dec_rep(n as int),
    decreases n,
{
    if n < 10 {
        digit_str(n).to_owned()
    } else {
        proof {
            vstd::arithmetic::div_mod::lemma_mod_bound(n as int, 10);
        }
        let mut s = u32_to_decimal(n / 10);
        s.append(digit_str(n % 10));
        proof {
            assert(s@ =~= dec_rep(n as int / 10).push(digit_char(n as int % 10)));
        }
        s
    }
}

/// The decimal text of a signed number, with a leading minus sign when it is
/// negative.
pub fn i32_to_decimal(v: i32) -> (r: String)
    ensures
        r@ == int_rep(v as int),
{
    if v >= 0 {
        u32_to_decimal(v as u32)
    } else {
        let magnitude: u32 = (-(v as i64)) as u32;
        proof {
            reveal_strlit("-");
        }
        let mut s: String = "-".to_owned();
        s.append(u32_to_decimal(magnitude).as_str());
        proof {
            assert(s@ =~= seq!['-'] + dec_rep(-(v as int)));
        }
        s
    }
}

/// Parse decimal text as a signed 32-bit value: an optional sign followed by
/// at least one digit, rejected when malformed or out of range.
pub fn parse_i32(s: &str) -> (r: Option<i32>)
    ensures
        r is Some <==> spec_parse_i32(s@) is Some,
        r matches Some(w) ==> spec_parse_i32(s@) == Some(w as int),
{
    let len = s.unicode_len();
    let ghost view = s@;
    let mut start: usize = 0;
    let mut neg = false;
    if len > 0 {
        let c = s.get_char(0);
        if c == '-' {
            neg = true;
            start = 1;
        } else if c == '+' {
            start = 1;
        }
    }
    let ghost body = if start == 1 {
        view.drop_first()
    } else {
        view
    };
    if start >= len {
        assert(spec_parse_body(view).len() == 0);
        return None;
    }
    assert(body =~= view.subrange(start as int, len as int));
    assert(body == spec_parse_body(view));
    let mut acc: u64 = 0;
    let mut j: usize = start;
    while j < len
        invariant
            start <= j <= len,
            start < len,
            start <= 1,
            len == view.len(),
            s@ == view,
            (start == 1) == (len > 0 && (view[0] == '-' || view[0] == '+')),
            neg == (len > 0 && view[0] == '-'),
            body == view.subrange(start as int, len as int),
            body == spec_parse_body(view),
            all_digits(view.subrange(start as int, j as int)),
            acc as int == digits_val(view.subrange(start as int, j as int)),
            acc <= 0x8000_0000,
        decreases len - j,
    {
        let c = s.get_char(j);
        let d = c as u32;
        if d < 48 || d > 57 {
            assert(!is_digit(body[j as int - start as int]));
            return None;
        }
        proof {
            let prefix = view.subrange(start as int, j as int);
            let next = view.subrange(start as int, j as int + 1);
            assert(next.drop_last() =~= prefix);
            assert(next.last() == view[j as int]);
            lemma_digits_val_push(prefix, view[j as int]);
        }
        acc = acc * 10 + (d - 48) as u64;
        j = j + 1;
        if acc > 0x8000_0000 {
            proof {
                let prefix = view.subrange(start as int, j as int);
                if all_digits(body) {
                    lemma_digits_val_prefix(body, j - start as int);
                    assert(body.subrange(0, j - start as int) =~= prefix);
                }
            }
            return None;
        }
    }
    assert(view.subrange(start as int, j as int) =~= body);
    proof {
        lemma_digits_val_nonneg(body);
    }
    if neg {
        Some((-(acc as i64)) as i32)
    } else {
        if acc <= 0x7fff_ffff {
            Some(acc as i32)
        } else {
            None
        }
    }
}

} // verus!
