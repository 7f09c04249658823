//! Numbers written in decimal and in hexadecimal digits.
use vstd::prelude::*;

use crate::text;
use crate::text::{lemma_before_behind, text_before};

verus! {

/// The character of a decimal digit.
pub open spec fn digit_char(d: int) -> char {
    if d == 0 {
        '0'
    } else if d == 1 {
        '1'
    } else if d == 2 {
        '2'
    } else if d == 3 {
        '3'
    } else if d == 4 {
        '4'
    } else if d == 5 {
        '5'
    } else if d == 6 {
        '6'
    } else if d == 7 {
        '7'
    } else if d == 8 {
        '8'
    } else {
        '9'
    }
}

/// A decimal digit.
pub open spec fn is_digit(c: char) -> bool {
    '0' <= c <= '9'
}

/// The value of a decimal digit.
pub open spec fn digit_value(c: char) -> int {
    c as int - '0' as int
}

/// A natural number in decimal digits, without leading zeros.
pub open spec fn digits(n: nat) -> Seq<char>
    decreases n,
{
    if n < 10 {
        seq![digit_char(n as int)]
    } else {
        digits(n / 10).push(digit_char((n % 10) as int))
    }
}

/// An integer in decimal, with a minus sign where it is negative.
pub open spec fn decimal(n: int) -> Seq<char> {
    if n < 0 {
        seq!['-'] + digits((-n) as nat)
    } else {
        digits(n as nat)
    }
}

/// `n` zeros.
pub open spec fn zeros(n: int) -> Seq<char> {
    Seq::new(
        if n > 0 {
            n as nat
        } else {
            0
        },
        |i: int| '0',
    )
}

/// An integer in decimal, filled up with zeros behind its sign to `width`
/// characters.
pub open spec fn zero_filled(n: int, width: int) -> Seq<char> {
    if n < 0 {
        seq!['-'] + zeros(width - 1 - digits((-n) as nat).len()) + digits((-n) as nat)
    } else {
        zeros(width - digits(n as nat).len()) + digits(n as nat)
    }
}

/// A natural number that `width` decimal digits can hold.
pub open spec fn fits(n: int, width: int) -> bool
    decreases width,
{
    if width <= 1 {
        width == 1 && 0 <= n < 10
    } else {
        n >= 0 && fits(n / 10, width - 1)
    }
}

proof fn lemma_zero_filled_step(n: int, width: int)
    requires
        fits(n, width),
        width > 1,
    ensures
        zero_filled(n, width) == zero_filled(n / 10, width - 1) + seq![digit_char(n % 10)],
{
    let d = digit_char(n % 10);
    if n >= 10 {
        assert(digits(n as nat) == digits((n / 10) as nat).push(d));
    } else {
        assert(digits(0nat) =~= seq!['0']);
        assert(zeros(width - 2) + seq!['0'] =~= zeros(width - 1));
    }
    assert(zero_filled(n, width) =~= zero_filled(n / 10, width - 1) + seq![d]);
}

/// Numbers filled up to the same width sort as texts as they do as numbers.
pub proof fn lemma_zero_filled_order(a: int, b: int, width: int)
    requires
        fits(a, width),
        fits(b, width),
    ensures
        zero_filled(a, width).len() == width,
        zero_filled(b, width).len() == width,
        text_before(zero_filled(a, width), zero_filled(b, width)) == (a < b),
        (zero_filled(a, width) == zero_filled(b, width)) == (a == b),
    decreases width,
{
    let x = seq![digit_char(a % 10)];
    let y = seq![digit_char(b % 10)];
    assert(text_before(x, y) == (a % 10 < b % 10)) by {
        assert(x[0] == digit_char(a % 10) && y[0] == digit_char(b % 10));
        reveal_with_fuel(text_before, 2);
    }
    assert((x == y) == (a % 10 == b % 10)) by {
        assert(x[0] == digit_char(a % 10) && y[0] == digit_char(b % 10));
    }
    if width > 1 {
        lemma_zero_filled_step(a, width);
        lemma_zero_filled_step(b, width);
        lemma_zero_filled_order(a / 10, b / 10, width - 1);
        lemma_before_behind(
            zero_filled(a / 10, width - 1),
            zero_filled(b / 10, width - 1),
            x,
            y,
        );
    } else {
        assert(zero_filled(a, 1) =~= x);
        assert(zero_filled(b, 1) =~= y);
    }
}

fn digit_to_char(d: u64) -> (r: char)
    requires
        d < 10,
    ensures
        r == digit_char(d as int),
{
    if d == 0 {
        '0'
    } else if d == 1 {
        '1'
    } else if d == 2 {
        '2'
    } else if d == 3 {
        '3'
    } else if d == 4 {
        '4'
    } else if d == 5 {
        '5'
    } else if d == 6 {
        '6'
    } else if d == 7 {
        '7'
    } else if d == 8 {
        '8'
    } else {
        '9'
    }
}

/// Appends a natural number in decimal.
pub fn push_digits(out: &mut String, n: u64)
    ensures
        final(out)@ == old(out)@ + digits(n as nat),
    decreases n,
{
    if n >= 10 {
        push_digits(out, n / 10);
    }
    out.push(digit_to_char(n % 10));
    assert(final(out)@ =~= old(out)@ + digits(n as nat));
}

/// A natural number in decimal.
pub fn decimal_u64(n: u64) -> (r: String)
    ensures
        r@ == decimal(n as int),
{
    let mut out = String::new();
    push_digits(&mut out, n);
    assert(out@ =~= digits(n as nat));
    out
}

/// The magnitude of an integer.
fn magnitude(n: i64) -> (r: u64)
    ensures
        r == if n < 0 {
            -(n as int)
        } else {
            n as int
        },
{
    if n == i64::MIN {
        0x8000_0000_0000_0000u64
    } else if n < 0 {
        (0 - n) as u64
    } else {
        n as u64
    }
}

/// An integer in decimal.
pub fn decimal_i64(n: i64) -> (r: String)
    ensures
        r@ == decimal(n as int),
{
    let mut out = String::new();
    if n < 0 {
        out.push('-');
    }
    push_digits(&mut out, magnitude(n));
    assert(out@ =~= decimal(n as int));
    out
}

/// An integer in decimal, filled up with zeros to `width` characters.
pub fn zero_filled_i64(n: i64, width: usize) -> (r: String)
    ensures
        r@ == zero_filled(n as int, width as int),
{
    let mut body = String::new();
    push_digits(&mut body, magnitude(n));
    assert(body@ =~= digits(magnitude_of(n as int)));
    let mut out = String::new();
    let mut have: usize = body.as_str().unicode_len();
    if n < 0 {
        out.push('-');
    }
    let used: usize = if n < 0 {
        1
    } else {
        0
    };
    let ghost sign = out@;
    let mut filled: usize = 0;
    while have < width && filled < width - have && used < width - have - filled
        invariant
            have == body@.len(),
            out@ == sign + zeros(filled as int),
            filled > 0 ==> used + have + filled <= width,
            used <= 1,
        decreases width - filled,
    {
        out.push('0');
        filled = filled + 1;
        assert(out@ =~= sign + zeros(filled as int));
    }
    assert(zeros(filled as int) =~= zeros(width - used - have));
    out.append(body.as_str());
    assert(out@ =~= zero_filled(n as int, width as int));
    out
}

/// The magnitude of an integer.
pub open spec fn magnitude_of(n: int) -> nat {
    if n < 0 {
        (-n) as nat
    } else {
        n as nat
    }
}

/// The number that a run of decimal digits stands for.
pub open spec fn digits_value(s: Seq<char>) -> int
    decreases s.len(),
{
    if s.len() == 0 {
        0
    } else {
        digits_value(s.drop_last()) * 10 + digit_value(s.last())
    }
}

/// A text of decimal digits alone.
pub open spec fn all_digits(s: Seq<char>) -> bool {
    forall|i: int| 0 <= i < s.len() ==> is_digit(#[trigger] s[i])
}

/// What follows an optional sign.
pub open spec fn unsigned_part(s: Seq<char>) -> Seq<char> {
    if s.len() > 0 && (s[0] == '+' || s[0] == '-') {
        s.drop_first()
    } else {
        s
    }
}

/// The integer that a text stands for: an optional sign and at least one
/// decimal digit.
pub open spec fn integer_of(s: Seq<char>) -> Option<int> {
    if unsigned_part(s).len() == 0 || !all_digits(unsigned_part(s)) {
        None
    } else if s[0] == '-' {
        Some(-digits_value(unsigned_part(s)))
    } else {
        Some(digits_value(unsigned_part(s)))
    }
}

/// The `i32` that a text stands for, where it stands for one.
pub open spec fn i32_of(s: Seq<char>) -> Option<i32> {
    match integer_of(s) {
        Some(n) if i32::MIN <= n <= i32::MAX => Some(n as i32),
        _ => None,
    }
}

proof fn lemma_prefix_value(s: Seq<char>, i: int)
    requires
        all_digits(s),
        0 <= i <= s.len(),
    ensures
        0 <= digits_value(s.take(i)) <= digits_value(s),
    decreases s.len() - i, i,
{
    if i < s.len() {
        lemma_prefix_value(s, i + 1);
        assert(s.take(i + 1).drop_last() =~= s.take(i));
        assert(s.take(i + 1).last() == s[i]);
        if i > 0 {
            assert(digits_value(s.take(i)) >= 0) by {
                lemma_value_not_negative(s.take(i));
            }
        }
    } else {
        assert(s.take(i) =~= s);
        lemma_value_not_negative(s);
    }
}

proof fn lemma_value_not_negative(s: Seq<char>)
    requires
        all_digits(s),
    ensures
        digits_value(s) >= 0,
    decreases s.len(),
{
    if s.len() > 0 {
        assert forall|i: int| 0 <= i < s.drop_last().len() implies is_digit(
            #[trigger] s.drop_last()[i],
        ) by {
            assert(is_digit(s[i]));
        }
        lemma_value_not_negative(s.drop_last());
        assert(is_digit(s[s.len() - 1]));
    }
}

/// Reads an `i32` in decimal.
pub fn parse_i32(s: &str) -> (r: Option<i32>)
    ensures
        r == i32_of(s@),
{
    let chars = text::chars_of(s);
    let n = chars.len();
    let signed: bool = n > 0 && (chars[0] == '+' || chars[0] == '-');
    let negative: bool = n > 0 && chars[0] == '-';
    let start: usize = if signed {
        1
    } else {
        0
    };
    let ghost body = unsigned_part(s@);
    assert(body =~= s@.skip(start as int));
    if start == n {
        return None;
    }
    let mut value: i64 = 0;
    let mut i: usize = start;
    assert(body.take(0) =~= Seq::<char>::empty());
    while i < n
        invariant
            n == chars@.len(),
            chars@ == s@,
            start <= i <= n,
            body == s@.skip(start as int),
            body == unsigned_part(s@),
            value == digits_value(body.take(i - start)),
            0 <= value <= 0x8000_0000,
            forall|k: int| 0 <= k < i - start ==> is_digit(#[trigger] body[k]),
        decreases n - i,
    {
        let c = chars[i];
        assert(body[i - start] == c);
        if !('0' <= c && c <= '9') {
            assert(!is_digit(body[i - start]));
            return None;
        }
        assert(body.take(i - start + 1).drop_last() =~= body.take(i - start));
        assert(body.take(i - start + 1).last() == c);
        value = value * 10 + (c as u32 - '0' as u32) as i64;
        i = i + 1;
        if value > 0x8000_0000 {
            proof {
                if all_digits(body) {
                    lemma_prefix_value(body, i - start);
                }
            }
            return None;
        }
    }
    assert(body.take(i - start) =~= body);
    if negative {
        Some((0 - value) as i32)
    } else if value <= 0x7fff_ffff {
        Some(value as i32)
    } else {
        None
    }
}

proof fn lemma_digits_are_digits(n: nat)
    ensures
        all_digits(digits(n)),
        digits(n).len() >= 1,
        digits_value(digits(n)) == n,
    decreases n,
{
    if n >= 10 {
        lemma_digits_are_digits(n / 10);
        assert(digits(n).drop_last() =~= digits(n / 10));
        assert forall|i: int| 0 <= i < digits(n).len() implies is_digit(#[trigger] digits(n)[i]) by {
            if i < digits(n / 10).len() {
                assert(is_digit(digits(n / 10)[i]));
            }
        }
    } else {
        assert(digits(n).drop_last() =~= Seq::<char>::empty());
        assert(digits_value(Seq::<char>::empty()) == 0);
    }
}

/// Reading an `i32` that was written in decimal gives it back.
pub proof fn law_decimal_round_trip(n: i32)
    ensures
        i32_of(decimal(n as int)) == Some(n),
{
    lemma_digits_are_digits(magnitude_of(n as int));
    let body = digits(magnitude_of(n as int));
    assert(is_digit(body[0]));
    if n < 0 {
        assert(decimal(n as int).drop_first() =~= body);
    }
    assert(unsigned_part(decimal(n as int)) == body);
}

/// A number in decimal is made of digits behind an optional minus sign.
pub proof fn lemma_decimal_chars(n: int)
    ensures
        decimal(n).len() > 0,
        forall|i: int|
            0 <= i < decimal(n).len() ==> is_digit(#[trigger] decimal(n)[i]) || decimal(n)[i]
                == '-',
{
    lemma_digits_are_digits(magnitude_of(n));
    let body = digits(magnitude_of(n));
    assert forall|i: int| 0 <= i < decimal(n).len() implies is_digit(#[trigger] decimal(n)[i])
        || decimal(n)[i] == '-' by {
        if n >= 0 {
            assert(is_digit(body[i]));
        } else if i > 0 {
            assert(is_digit(body[i - 1]));
        }
    }
}

/// Different numbers have different decimal forms.
pub proof fn law_decimal_injective(a: int, b: int)
    requires
        decimal(a) == decimal(b),
    ensures
        a == b,
{
    lemma_digits_are_digits(magnitude_of(a));
    lemma_digits_are_digits(magnitude_of(b));
    assert(is_digit(digits(magnitude_of(a))[0]));
    assert(is_digit(digits(magnitude_of(b))[0]));
    if a < 0 {
        assert(decimal(a)[0] == '-');
        assert(decimal(a).drop_first() =~= digits(magnitude_of(a)));
    }
    if b < 0 {
        assert(decimal(b)[0] == '-');
        assert(decimal(b).drop_first() =~= digits(magnitude_of(b)));
    }
}

/// A number is read digit by digit: one more digit behind it makes it ten times as large
/// and adds the digit. A minus sign makes it negative and a plus sign changes nothing.
pub proof fn law_digits_are_read_in_turn(s: Seq<char>, d: int)
    requires
        0 <= d < 10,
        all_digits(s),
    ensures
        integer_of(seq![digit_char(d)]) == Some(d),
        s.len() > 0 ==> integer_of(s) is Some && integer_of(s.push(digit_char(d))) == Some(
            integer_of(s)->0 * 10 + d,
        ),
        s.len() > 0 ==> integer_of(seq!['-'] + s) == Some(-integer_of(s)->0),
        s.len() > 0 ==> integer_of(seq!['+'] + s) == integer_of(s),
{
    let one = seq![digit_char(d)];
    assert(one.drop_last() =~= Seq::<char>::empty());
    assert(digits_value(Seq::<char>::empty()) == 0);
    assert(digits_value(one) == d);
    assert(is_digit(one[0]));
    if s.len() > 0 {
        assert(is_digit(s[0]));
        let t = s.push(digit_char(d));
        assert(t.drop_last() =~= s);
        assert(all_digits(t));
        assert(t[0] == s[0]);
        assert((seq!['-'] + s).drop_first() =~= s);
        assert((seq!['+'] + s).drop_first() =~= s);
    }
}

/// A text is a number only if it has a digit and, behind an optional sign, nothing else;
/// it is an `i32` where that number is in range.
pub proof fn law_only_numbers_are_read(s: Seq<char>, i: int)
    ensures
        s.len() == 0 ==> i32_of(s) is None,
        s == seq!['-'] || s == seq!['+'] ==> i32_of(s) is None,
        1 <= i < s.len() && !is_digit(s[i]) ==> i32_of(s) is None,
        s.len() > 0 && !is_digit(s[0]) && s[0] != '-' && s[0] != '+' ==> i32_of(s) is None,
        i32_of(s) is Some <==> integer_of(s) is Some && i32::MIN <= integer_of(s)->0 <= i32::MAX,
        i32_of(s) matches Some(n) ==> integer_of(s) == Some(n as int),
{
    let u = unsigned_part(s);
    if 1 <= i < s.len() && !is_digit(s[i]) {
        if u == s {
            assert(!is_digit(u[i]));
        } else {
            assert(u[i - 1] == s[i]);
        }
    }
    if s.len() > 0 && !is_digit(s[0]) && s[0] != '-' && s[0] != '+' {
        assert(u == s);
        assert(!is_digit(u[0]));
    }
}

/// A number filled up with zeros is at least as wide as asked, ends in its digits, and has
/// nothing but zeros before them.
pub proof fn law_zeros_fill_up(n: int, width: int, i: int)
    requires
        n >= 0,
    ensures
        ({
            let s = zero_filled(n, width);
            let d = digits(n as nat);
            &&& s.len() == if d.len() < width {
                width
            } else {
                d.len() as int
            }
            &&& s.skip(s.len() - d.len()) == d
            &&& 0 <= i < s.len() - d.len() ==> s[i] == '0'
            &&& d == decimal(n)
        }),
{
    let s = zero_filled(n, width);
    let d = digits(n as nat);
    assert(s.skip(s.len() - d.len()) =~= d);
}

} // verus!
