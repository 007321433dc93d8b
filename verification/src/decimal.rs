//! Decimal notation for signed integers: how an identifier is written into a
//! command or a directory name, and how it is read back from a manifest.

use crate::text::chars_of;
use vstd::prelude::*;

verus! {

/// `c` is one of the ten decimal digits.
pub open spec fn is_digit(c: char) -> bool {
    '0' <= c && c <= '9'
}

/// The number a decimal digit stands for.
pub open spec fn digit_value(c: char) -> int {
    c as int - '0' as int
}

/// The decimal digit that stands for `d`, for `0 <= d <= 9`.
pub open spec fn digit_char(d: int) -> char {
    ('0' as int + d) as char
}

/// Every character of `s` is a decimal digit.
pub open spec fn all_digits(s: Seq<char>) -> bool {
    forall|i: int| 0 <= i < s.len() ==> is_digit(#[trigger] s[i])
}

/// The digits of `n`, most significant first, without leading zeros.
pub open spec fn digits_of(n: nat) -> Seq<char>
    decreases n,
{
    if n < 10 {
        seq![digit_char(n as int)]
    } else {
        digits_of(n / 10).push(digit_char((n % 10) as int))
    }
}

/// The decimal notation of `n`: a minus sign when `n` is negative, then the
/// digits of its magnitude.
pub open spec fn decimal(n: int) -> Seq<char> {
    if n < 0 {
        seq!['-'] + digits_of((-n) as nat)
    } else {
        digits_of(n as nat)
    }
}

/// The number that a run of digits denotes; leading zeros are allowed.
pub open spec fn digits_value(s: Seq<char>) -> int
    decreases s.len(),
{
    if s.len() == 0 {
        0
    } else {
        digits_value(s.drop_last()) * 10 + digit_value(s.last())
    }
}

/// The integer that `s` denotes: an optional `+` or `-`, then at least one
/// digit and nothing else. `None` for any other text.
pub open spec fn signed_value(s: Seq<char>) -> Option<int> {
    if s.len() > 0 && (s[0] == '-' || s[0] == '+') {
        let body = s.skip(1);
        if body.len() > 0 && all_digits(body) {
            if s[0] == '-' {
                Some(-digits_value(body))
            } else {
                Some(digits_value(body))
            }
        } else {
            None
        }
    } else if s.len() > 0 && all_digits(s) {
        Some(digits_value(s))
    } else {
        None
    }
}

/// The 64-bit signed integer that `s` denotes, if it denotes an integer and
/// that integer fits.
pub open spec fn parsed_i64(s: Seq<char>) -> Option<i64> {
    match signed_value(s) {
        Some(v) => if i64::MIN <= v <= i64::MAX {
            Some(v as i64)
        } else {
            None
        },
        None => None,
    }
}

/// The digits of a number are digits, and there is at least one.
pub proof fn lemma_digits_of_shape(n: nat)
    ensures
        digits_of(n).len() >= 1,
        all_digits(digits_of(n)),
    decreases n,
{
    if n >= 10 {
        lemma_digits_of_shape(n / 10);
    }
}

/// Reading the digits of a number gives the number back.
pub proof fn lemma_digits_round_trip(n: nat)
    ensures
        digits_value(digits_of(n)) == n,
    decreases n,
{
    if n < 10 {
        let s = digits_of(n);
        assert(s.drop_last() =~= Seq::<char>::empty());
        assert(digits_value(s.drop_last()) == 0);
    } else {
        lemma_digits_round_trip(n / 10);
        let s = digits_of(n);
        assert(s.drop_last() =~= digits_of(n / 10));
    }
}

/// A decimal notation starts with a digit or a minus sign, goes on with
/// digits only, and holds at least one digit.
pub proof fn lemma_decimal_shape(n: int)
    ensures
        decimal(n).len() >= 1,
        is_digit(decimal(n)[0]) || decimal(n)[0] == '-',
        forall|i: int| 1 <= i < decimal(n).len() ==> is_digit(#[trigger] decimal(n)[i]),
{
    if n < 0 {
        lemma_digits_of_shape((-n) as nat);
    } else {
        lemma_digits_of_shape(n as nat);
    }
}

/// Reading a decimal notation gives the integer back.
pub proof fn lemma_decimal_round_trip(n: int)
    ensures
        signed_value(decimal(n)) == Some(n),
{
    if n < 0 {
        let m = (-n) as nat;
        lemma_digits_of_shape(m);
        lemma_digits_round_trip(m);
        assert(decimal(n).skip(1) =~= digits_of(m));
    } else {
        lemma_digits_of_shape(n as nat);
        lemma_digits_round_trip(n as nat);
    }
}

/// Two integers with the same decimal notation are the same integer.
pub proof fn lemma_decimal_injective(a: int, b: int)
    requires
        decimal(a) == decimal(b),
    ensures
        a == b,
{
    lemma_decimal_round_trip(a);
    lemma_decimal_round_trip(b);
}

/// A decimal notation stops where the digits stop: if two notations each
/// stand at the start of `text` and each is followed there by a character
/// that is not a digit, they are notations of the same integer.
pub proof fn lemma_decimal_delimited(text: Seq<char>, a: int, b: int)
    requires
        decimal(a).is_prefix_of(text),
        decimal(b).is_prefix_of(text),
        decimal(a).len() < text.len(),
        decimal(b).len() < text.len(),
        !is_digit(text[decimal(a).len() as int]),
        !is_digit(text[decimal(b).len() as int]),
    ensures
        a == b,
{
    let da = decimal(a);
    let db = decimal(b);
    lemma_decimal_shape(a);
    lemma_decimal_shape(b);
    if da.len() < db.len() {
        assert(text[da.len() as int] == db[da.len() as int]);
    } else if db.len() < da.len() {
        assert(text[db.len() as int] == da[db.len() as int]);
    } else {
        assert(da =~= db);
        lemma_decimal_injective(a, b);
    }
}

/// A run of digits denotes at least as much as any beginning of it, and no
/// beginning denotes a negative number.
proof fn lemma_digits_value_grows(s: Seq<char>, k: int)
    requires
        all_digits(s),
        0 <= k <= s.len(),
    ensures
        0 <= digits_value(s.take(k)) <= digits_value(s),
    decreases s.len(),
{
    if s.len() == 0 {
        assert(s.take(k) =~= s);
    } else {
        lemma_digits_value_grows(s.drop_last(), if k == s.len() { k - 1 } else { k });
        if k == s.len() {
            assert(s.take(k) =~= s);
            assert(s.drop_last().take(k - 1) =~= s.drop_last());
        } else {
            assert(s.drop_last().take(k) =~= s.take(k));
        }
    }
}

/// Taking one more character multiplies by ten and adds the character's value.
proof fn lemma_digits_value_step(s: Seq<char>, k: int)
    requires
        0 <= k < s.len(),
    ensures
        digits_value(s.take(k + 1)) == digits_value(s.take(k)) * 10 + digit_value(s[k]),
{
    assert(s.take(k + 1).drop_last() =~= s.take(k));
}

/// The largest magnitude an `i64` can have: that of `i64::MIN`.
pub const MAX_MAGNITUDE: u64 = 9223372036854775808;

/// The text of one digit.
fn digit_text(d: u8) -> (r: &'static str)
    requires
        d < 10,
    ensures
        r@ == seq![digit_char(d as int)],
{
    proof {
        reveal_strlit("0");
        reveal_strlit("1");
        reveal_strlit("2");
        reveal_strlit("3");
        reveal_strlit("4");
        reveal_strlit("5");
        reveal_strlit("6");
        reveal_strlit("7");
        reveal_strlit("8");
        reveal_strlit("9");
    }
    let r = match d {
        0 => "0",
        1 => "1",
        2 => "2",
        3 => "3",
        4 => "4",
        5 => "5",
        6 => "6",
        7 => "7",
        8 => "8",
        _ => "9",
    };
    assert(r@ =~= seq![digit_char(d as int)]);
    r
}

/// Appends the digits of `n` to `out`.
pub fn append_digits(out: &mut String, n: u64)
    ensures
        final(out)@ == old(out)@ + digits_of(n as nat),
    decreases n,
{
    if n >= 10 {
        append_digits(out, n / 10);
    }
    let d: u8 = (n % 10) as u8;
    out.append(digit_text(d));
    assert(out@ =~= old(out)@ + digits_of(n as nat));
}

/// Appends the decimal notation of `n` to `out`.
pub fn append_decimal(out: &mut String, n: i64)
    ensures
        final(out)@ == old(out)@ + decimal(n as int),
{
    if n < 0 {
        proof {
            reveal_strlit("-");
        }
        out.append("-");
        let magnitude: u64 = if n == i64::MIN {
            MAX_MAGNITUDE
        } else {
            (-n) as u64
        };
        append_digits(out, magnitude);
        assert(out@ =~= old(out)@ + decimal(n as int));
    } else {
        append_digits(out, n as u64);
    }
}

/// The decimal notation of `n`, as `n` is written in a command and in the name
/// of a directory.
pub fn format_i64(n: i64) -> (r: String)
    ensures
        r@ == decimal(n as int),
{
    let mut out = String::new();
    append_decimal(&mut out, n);
    assert(out@ =~= decimal(n as int));
    out
}

/// The decimal digit `c` stands for, if it is one.
pub fn digit_of(c: char) -> (r: Option<u8>)
    ensures
        r is Some <==> is_digit(c),
        r matches Some(d) ==> d == digit_value(c) && d < 10,
{
    if '0' <= c && c <= '9' {
        Some((c as u32 - '0' as u32) as u8)
    } else {
        None
    }
}

/// Reads the characters of `chars` from `from` up to `to` as a 64-bit signed
/// integer.
pub fn parse_i64_in(chars: &Vec<char>, from: usize, to: usize) -> (r: Option<i64>)
    requires
        from <= to <= chars.len(),
    ensures
        r == parsed_i64(chars@.subrange(from as int, to as int)),
{
    let ghost s = chars@.subrange(from as int, to as int);
    if from == to {
        return None;
    }
    let first = chars[from];
    assert(first == s[0]);
    let negative = first == '-';
    let start: usize = if first == '-' || first == '+' {
        from + 1
    } else {
        from
    };
    let ghost body = chars@.subrange(start as int, to as int);
    assert(body =~= if first == '-' || first == '+' {
        s.skip(1)
    } else {
        s
    });
    if start == to {
        return None;
    }
    let mut magnitude: u64 = 0;
    let mut i: usize = start;
    assert(body.take(0) =~= Seq::<char>::empty());
    while i < to
        invariant
            from <= start <= i <= to <= chars.len(),
            s == chars@.subrange(from as int, to as int),
            body == chars@.subrange(start as int, to as int),
            body == if s[0] == '-' || s[0] == '+' {
                s.skip(1)
            } else {
                s
            },
            negative == (s[0] == '-'),
            all_digits(body.take(i - start)),
            magnitude == digits_value(body.take(i - start)),
            magnitude <= MAX_MAGNITUDE,
        decreases to - i,
    {
        let ghost k = i - start;
        assert(body[k] == chars[i as int]);
        proof {
            lemma_digits_value_step(body, k);
        }
        match digit_of(chars[i]) {
            None => {
                assert(!is_digit(body[k]));
                return None;
            },
            Some(d) => {
                assert forall|j: int| 0 <= j < body.take(k + 1).len() implies is_digit(
                    #[trigger] body.take(k + 1)[j],
                ) by {
                    if j < k {
                        assert(body.take(k + 1)[j] == body.take(k)[j]);
                    }
                }
                let wide: u128 = magnitude as u128 * 10 + d as u128;
                if wide > MAX_MAGNITUDE as u128 {
                    proof {
                        if all_digits(body) {
                            lemma_digits_value_grows(body, k + 1);
                        }
                    }
                    return None;
                }
                magnitude = wide as u64;
            },
        }
        i = i + 1;
    }
    assert(body.take(i - start) =~= body);
    if negative {
        if magnitude == MAX_MAGNITUDE {
            Some(i64::MIN)
        } else {
            Some(-(magnitude as i64))
        }
    } else if magnitude == MAX_MAGNITUDE {
        None
    } else {
        Some(magnitude as i64)
    }
}

/// Reads `text` as a 64-bit signed integer: an optional sign, then digits.
pub fn parse_i64(text: &str) -> (r: Option<i64>)
    ensures
        r == parsed_i64(text@),
{
    let chars = chars_of(text);
    assert(chars@.subrange(0, chars@.len() as int) =~= chars@);
    parse_i64_in(&chars, 0, chars.len())
}

} // verus!
