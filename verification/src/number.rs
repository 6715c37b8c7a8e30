//! Numbers written as text: reading and writing integers in a radix.

use vstd::prelude::*;

use crate::text;

verus! {

/// The value of `c` as a digit in `radix`, if it is one.
pub open spec fn digit(c: char, radix: int) -> Option<int> {
    let n = c as int;
    let v = if 48 <= n <= 57 {
        n - 48
    } else if 97 <= n <= 122 {
        n - 87
    } else if 65 <= n <= 90 {
        n - 55
    } else {
        radix
    };
    if v < radix {
        Some(v)
    } else {
        None
    }
}

/// Whether every character of `s` is a digit in `radix`.
pub open spec fn all_digits(s: Seq<char>, radix: int) -> bool {
    forall|i: int| 0 <= i < s.len() ==> digit(#[trigger] s[i], radix) is Some
}

/// The number that the digits of `s` denote.
pub open spec fn value(s: Seq<char>, radix: int) -> int
    decreases s.len(),
{
    if s.len() == 0 {
        0
    } else {
        value(s.drop_last(), radix) * radix + digit(s.last(), radix)->0
    }
}

/// What an unsigned integer type with the largest value `max` reads from `s`:
/// an optional plus sign and at least one digit.
pub open spec fn parse_unsigned(s: Seq<char>, radix: int, max: int) -> Option<int> {
    let body = if s.len() > 0 && s[0] == '+' {
        s.skip(1)
    } else {
        s
    };
    if body.len() > 0 && all_digits(body, radix) && value(body, radix) <= max {
        Some(value(body, radix))
    } else {
        None
    }
}

/// What a signed integer type with the given bounds reads from `s`: an optional
/// sign and at least one decimal digit.
pub open spec fn parse_signed(s: Seq<char>, min: int, max: int) -> Option<int> {
    if s.len() > 0 && s[0] == '-' {
        let body = s.skip(1);
        if body.len() > 0 && all_digits(body, 10) && -value(body, 10) >= min {
            Some(-value(body, 10))
        } else {
            None
        }
    } else {
        parse_unsigned(s, 10, max)
    }
}

/// Reading more digits never makes the number smaller.
proof fn lemma_value_grows(s: Seq<char>, radix: int, i: int)
    requires
        radix >= 1,
        all_digits(s, radix),
        0 <= i <= s.len(),
    ensures
        0 <= value(s.take(i), radix) <= value(s, radix),
    decreases s.len(),
{
    if i == s.len() {
        assert(s.take(i) =~= s);
        if s.len() > 0 {
            let t = s.drop_last();
            assert forall|j: int| 0 <= j < t.len() implies digit(#[trigger] t[j], radix) is Some by {
                assert(t[j] == s[j]);
            }
            lemma_value_grows(t, radix, i - 1);
            let x = value(t, radix);
            assert(t.take(i - 1) =~= t);
            assert(digit(s[s.len() - 1], radix) is Some);
            assert(x * radix >= 0) by (nonlinear_arith)
                requires
                    x >= 0,
                    radix >= 1,
            ;
        }
    } else {
        let t = s.drop_last();
        assert forall|j: int| 0 <= j < t.len() implies digit(#[trigger] t[j], radix) is Some by {
            assert(t[j] == s[j]);
        }
        lemma_value_grows(t, radix, i);
        assert(t.take(i) =~= s.take(i));
        assert(digit(s[s.len() - 1], radix) is Some);
        let x = value(t, radix);
        assert(x * radix >= x) by (nonlinear_arith)
            requires
                x >= 0,
                radix >= 1,
        ;
    }
}

/// The value of a character as a digit.
pub fn digit_of(c: char, radix: u32) -> (r: Option<u32>)
    requires
        radix <= 36,
    ensures
        match r {
            Some(v) => digit(c, radix as int) == Some(v as int) && v < radix,
            None => digit(c, radix as int) is None,
        },
{
    let n: u32 = c as u32;
    let v: u32 = if 48 <= n && n <= 57 {
        n - 48
    } else if 97 <= n && n <= 122 {
        n - 87
    } else if 65 <= n && n <= 90 {
        n - 55
    } else {
        radix
    };
    if v < radix {
        Some(v)
    } else {
        None
    }
}

/// The number that the digits from `from` on denote, if it fits into a `u64`.
fn digits_value(s: &Vec<char>, from: usize, radix: u32) -> (r: Option<u64>)
    requires
        from <= s.len(),
        2 <= radix <= 36,
    ensures
        ({
            let body = s@.skip(from as int);
            match r {
                Some(v) => body.len() > 0 && all_digits(body, radix as int) && value(
                    body,
                    radix as int,
                ) == v,
                None => body.len() == 0 || !all_digits(body, radix as int) || value(
                    body,
                    radix as int,
                ) > u64::MAX,
            }
        }),
{
    if from == s.len() {
        return None;
    }
    let ghost body = s@.skip(from as int);
    let mut acc: u64 = 0;
    let mut i: usize = from;
    while i < s.len()
        invariant
            from <= i <= s.len(),
            2 <= radix <= 36,
            body == s@.skip(from as int),
            body.len() > 0,
            acc == value(body.take(i - from), radix as int),
            forall|j: int| 0 <= j < i - from ==> digit(#[trigger] body[j], radix as int) is Some,
        decreases s.len() - i,
    {
        let ghost k = i - from;
        assert(body[k] == s@[i as int]);
        match digit_of(s[i], radix) {
            None => {
                return None;
            },
            Some(d) => {
                proof {
                    assert(acc * radix <= 0xffff_ffff_ffff_ffff * 36) by (nonlinear_arith)
                        requires
                            acc <= 0xffff_ffff_ffff_ffff,
                            radix <= 36,
                    ;
                    assert(acc * radix >= 0) by (nonlinear_arith);
                }
                let wide: u128 = acc as u128 * radix as u128 + d as u128;
                proof {
                    assert(body.take(k + 1).drop_last() =~= body.take(k));
                    assert(body.take(k + 1).last() == body[k]);
                }
                if wide > u64::MAX as u128 {
                    proof {
                        if all_digits(body, radix as int) {
                            lemma_value_grows(body, radix as int, k + 1);
                        }
                    }
                    return None;
                }
                acc = wide as u64;
                i += 1;
            },
        }
    }
    proof {
        assert(body.take(body.len() as int) =~= body);
    }
    Some(acc)
}

/// Reads a `u64` in the given radix.
pub fn parse_u64_chars(s: &Vec<char>, radix: u32) -> (r: Option<u64>)
    requires
        2 <= radix <= 36,
    ensures
        match r {
            Some(v) => parse_unsigned(s@, radix as int, u64::MAX as int) == Some(v as int),
            None => parse_unsigned(s@, radix as int, u64::MAX as int) is None,
        },
{
    proof {
        assert(s@.skip(0) =~= s@);
    }
    if s.len() > 0 && s[0] == '+' {
        digits_value(s, 1, radix)
    } else {
        digits_value(s, 0, radix)
    }
}

/// Reads a `u32` in the given radix.
pub fn parse_u32_chars(s: &Vec<char>, radix: u32) -> (r: Option<u32>)
    requires
        2 <= radix <= 36,
    ensures
        match r {
            Some(v) => parse_unsigned(s@, radix as int, u32::MAX as int) == Some(v as int),
            None => parse_unsigned(s@, radix as int, u32::MAX as int) is None,
        },
{
    match parse_u64_chars(s, radix) {
        Some(v) => if v <= u32::MAX as u64 {
            Some(v as u32)
        } else {
            None
        },
        None => None,
    }
}

/// Reads a `usize` in decimal.
pub fn parse_usize_chars(s: &Vec<char>) -> (r: Option<usize>)
    ensures
        match r {
            Some(v) => parse_unsigned(s@, 10, usize::MAX as int) == Some(v as int),
            None => parse_unsigned(s@, 10, usize::MAX as int) is None,
        },
{
    match parse_u64_chars(s, 10) {
        Some(v) => if v <= usize::MAX as u64 {
            Some(v as usize)
        } else {
            None
        },
        None => None,
    }
}

/// Reads an `i32` in decimal.
pub fn parse_i32_chars(s: &Vec<char>) -> (r: Option<i32>)
    ensures
        match r {
            Some(v) => parse_signed(s@, i32::MIN as int, i32::MAX as int) == Some(v as int),
            None => parse_signed(s@, i32::MIN as int, i32::MAX as int) is None,
        },
{
    if s.len() > 0 && s[0] == '-' {
        match digits_value(s, 1, 10) {
            Some(v) => if v <= 0x8000_0000 {
                Some((-(v as i64)) as i32)
            } else {
                None
            },
            None => None,
        }
    } else {
        match parse_u32_chars(s, 10) {
            Some(v) => if v <= i32::MAX as u32 {
                Some(v as i32)
            } else {
                None
            },
            None => None,
        }
    }
}

/// Reads an `i64` in decimal.
pub fn parse_i64_chars(s: &Vec<char>) -> (r: Option<i64>)
    ensures
        match r {
            Some(v) => parse_signed(s@, i64::MIN as int, i64::MAX as int) == Some(v as int),
            None => parse_signed(s@, i64::MIN as int, i64::MAX as int) is None,
        },
{
    if s.len() > 0 && s[0] == '-' {
        match digits_value(s, 1, 10) {
            Some(v) => if v <= 0x8000_0000_0000_0000 {
                Some((-(v as i128)) as i64)
            } else {
                None
            },
            None => None,
        }
    } else {
        match parse_u64_chars(s, 10) {
            Some(v) => if v <= i64::MAX as u64 {
                Some(v as i64)
            } else {
                None
            },
            None => None,
        }
    }
}

/// Reads a `u16` in the given radix.
pub fn parse_u16_chars(s: &Vec<char>, radix: u32) -> (r: Option<u16>)
    requires
        2 <= radix <= 36,
    ensures
        match r {
            Some(v) => parse_unsigned(s@, radix as int, u16::MAX as int) == Some(v as int),
            None => parse_unsigned(s@, radix as int, u16::MAX as int) is None,
        },
{
    match parse_u64_chars(s, radix) {
        Some(v) => if v <= u16::MAX as u64 {
            Some(v as u16)
        } else {
            None
        },
        None => None,
    }
}

/// Reads an `i8` in decimal.
pub fn parse_i8_chars(s: &Vec<char>) -> (r: Option<i8>)
    ensures
        match r {
            Some(v) => parse_signed(s@, i8::MIN as int, i8::MAX as int) == Some(v as int),
            None => parse_signed(s@, i8::MIN as int, i8::MAX as int) is None,
        },
{
    proof {
        let body = if s@.len() > 0 && (s@[0] == '-' || s@[0] == '+') {
            s@.skip(1)
        } else {
            s@
        };
        if all_digits(body, 10) {
            lemma_value_grows(body, 10, 0);
        }
    }
    match parse_i32_chars(s) {
        Some(v) => if -128 <= v && v <= 127 {
            Some(v as i8)
        } else {
            None
        },
        None => None,
    }
}

/// Reads a `u64` in decimal.
pub fn parse_u64(s: &str) -> (r: Option<u64>)
    ensures
        match r {
            Some(v) => parse_unsigned(s@, 10, u64::MAX as int) == Some(v as int),
            None => parse_unsigned(s@, 10, u64::MAX as int) is None,
        },
{
    parse_u64_chars(&text::to_chars(s), 10)
}

/// Reads a `u32` in decimal.
pub fn parse_u32(s: &str) -> (r: Option<u32>)
    ensures
        match r {
            Some(v) => parse_unsigned(s@, 10, u32::MAX as int) == Some(v as int),
            None => parse_unsigned(s@, 10, u32::MAX as int) is None,
        },
{
    parse_u32_chars(&text::to_chars(s), 10)
}

/// Reads a `usize` in decimal.
pub fn parse_usize(s: &str) -> (r: Option<usize>)
    ensures
        match r {
            Some(v) => parse_unsigned(s@, 10, usize::MAX as int) == Some(v as int),
            None => parse_unsigned(s@, 10, usize::MAX as int) is None,
        },
{
    parse_usize_chars(&text::to_chars(s))
}

// Writing --------------------------------------------------------------------

/// The character for a digit value below sixteen.
pub open spec fn digit_char(d: int) -> char {
    if d < 10 {
        (48 + d) as char
    } else {
        (87 + d) as char
    }
}

/// `n` in the given radix, with lower-case letters and without leading zeros.
pub open spec fn number_text(n: int, radix: int) -> Seq<char>
    decreases n,
    when n >= 0 && radix >= 2
    via number_text_decreases
{
    if n < radix {
        seq![digit_char(n)]
    } else {
        number_text(n / radix, radix).push(digit_char(n % radix))
    }
}

#[via_fn]
proof fn number_text_decreases(n: int, radix: int) {
    if n >= radix && radix >= 2 {
        assert(0 <= n / radix < n) by (nonlinear_arith)
            requires
                n >= radix,
                radix >= 2,
        ;
    }
}

/// `s` with as many zeros before it as it takes to reach `width`.
pub open spec fn pad_zeros(s: Seq<char>, width: int) -> Seq<char> {
    if s.len() >= width {
        s
    } else {
        Seq::new((width - s.len()) as nat, |i: int| '0') + s
    }
}

/// What is written is read back: the text of a number consists of digits
/// (at least one) that denote it.
pub proof fn lemma_number_text(n: int, radix: int)
    requires
        0 <= n,
        radix == 10 || radix == 16,
    ensures
        number_text(n, radix).len() > 0,
        all_digits(number_text(n, radix), radix),
        value(number_text(n, radix), radix) == n,
    decreases n,
{
    if n < radix {
        let s = number_text(n, radix);
        assert(s.drop_last() =~= Seq::<char>::empty());
        assert(value(s.drop_last(), radix) == 0);
        assert(s.last() == digit_char(n));
        assert(0 * radix == 0);
    } else {
        assert(0 <= n / radix < n && n == (n / radix) * radix + n % radix && 0 <= n % radix
            < radix) by (nonlinear_arith)
            requires
                n >= radix,
                radix == 10 || radix == 16,
        ;
        lemma_number_text(n / radix, radix);
        let t = number_text(n / radix, radix);
        let s = number_text(n, radix);
        assert(s.drop_last() =~= t);
        assert forall|i: int| 0 <= i < s.len() implies digit(#[trigger] s[i], radix) is Some by {
            if i < t.len() {
                assert(s[i] == t[i]);
            }
        }
    }
}

/// Leading zeros change neither that a text consists of digits nor its value.
pub proof fn lemma_pad_zeros(s: Seq<char>, radix: int, width: int)
    requires
        all_digits(s, radix),
        radix == 10 || radix == 16,
    ensures
        all_digits(pad_zeros(s, width), radix),
        value(pad_zeros(s, width), radix) == value(s, radix),
        pad_zeros(s, width).len() >= s.len(),
        pad_zeros(s, width).len() >= width,
        s.len() <= width ==> pad_zeros(s, width).len() == width,
    decreases s.len(),
{
    let p = pad_zeros(s, width);
    if s.len() < width {
        let zeros: Seq<char> = Seq::new((width - s.len()) as nat, |i: int| '0');
        assert forall|i: int| 0 <= i < p.len() implies digit(#[trigger] p[i], radix) is Some by {
            if i >= zeros.len() {
                assert(p[i] == s[i - zeros.len()]);
            }
        }
        if s.len() == 0 {
            assert(p =~= zeros);
            lemma_zeros(zeros, radix);
        } else {
            let t = s.drop_last();
            assert forall|j: int| 0 <= j < t.len() implies digit(#[trigger] t[j], radix) is Some by {
                assert(t[j] == s[j]);
            }
            lemma_pad_zeros(t, radix, width - 1);
            assert(p.drop_last() =~= pad_zeros(t, width - 1));
            assert(p.last() == s.last());
        }
    }
}

proof fn lemma_zeros(s: Seq<char>, radix: int)
    requires
        forall|i: int| 0 <= i < s.len() ==> s[i] == '0',
        radix == 10 || radix == 16,
    ensures
        value(s, radix) == 0,
    decreases s.len(),
{
    if s.len() > 0 {
        lemma_zeros(s.drop_last(), radix);
        assert(s.last() == '0');
        assert(0 * radix == 0);
    }
}

/// Reading back an unsigned number that was written in decimal or hexadecimal
/// gives the number.
pub proof fn number_round_trip(n: int, radix: int, width: int, max: int)
    requires
        0 <= n <= max,
        radix == 10 || radix == 16,
    ensures
        parse_unsigned(pad_zeros(number_text(n, radix), width), radix, max) == Some(n),
{
    lemma_number_text(n, radix);
    lemma_pad_zeros(number_text(n, radix), radix, width);
    let s = pad_zeros(number_text(n, radix), width);
    assert(digit(s[0], radix) is Some);
    assert(s[0] != '+');
}

/// The characters of `n` in the given radix.
pub fn number_chars(n: u64, radix: u64) -> (r: Vec<char>)
    requires
        radix == 10 || radix == 16,
    ensures
        r@ == number_text(n as int, radix as int),
    decreases n,
{
    let d: u64 = n % radix;
    let c: char = if d < 10 {
        (48 + d as u8) as char
    } else {
        (87 + d as u8) as char
    };
    if n < radix {
        let mut r: Vec<char> = Vec::new();
        r.push(c);
        proof {
            assert(n % radix == n) by (nonlinear_arith)
                requires
                    0 <= n < radix,
            ;
            assert(r@ =~= seq![digit_char(n as int)]);
        }
        r
    } else {
        proof {
            assert(n / radix < n) by (nonlinear_arith)
                requires
                    n >= radix,
                    radix >= 2,
            ;
        }
        let mut r: Vec<char> = number_chars(n / radix, radix);
        r.push(c);
        r
    }
}

/// The number in hexadecimal, with zeros before it up to `width`.
pub fn hex_padded(n: u64, width: usize) -> (r: Vec<char>)
    ensures
        r@ == pad_zeros(number_text(n as int, 16), width as int),
{
    let digits: Vec<char> = number_chars(n, 16);
    if digits.len() >= width {
        return digits;
    }
    let mut r: Vec<char> = Vec::new();
    let zeros: usize = width - digits.len();
    while r.len() < zeros
        invariant
            r.len() <= zeros,
            r@ == Seq::new(r@.len(), |i: int| '0'),
        decreases zeros - r.len(),
    {
        r.push('0');
        proof {
            assert(r@ =~= Seq::new(r@.len(), |i: int| '0'));
        }
    }
    let mut i: usize = 0;
    while i < digits.len()
        invariant
            i <= digits.len(),
            r@ == Seq::new(zeros as nat, |i: int| '0') + digits@.take(i as int),
        decreases digits.len() - i,
    {
        r.push(digits[i]);
        i += 1;
        proof {
            assert(digits@.take(i as int) =~= digits@.take(i - 1).push(digits@[i - 1]));
            assert(r@ =~= Seq::new(zeros as nat, |i: int| '0') + digits@.take(i as int));
        }
    }
    proof {
        assert(digits@.take(i as int) =~= digits@);
    }
    r
}

/// The number in decimal.
pub fn decimal(n: u64) -> (r: String)
    ensures
        r@ == number_text(n as int, 10),
{
    text::to_text(&number_chars(n, 10))
}

// Arithmetic -----------------------------------------------------------------

/// The product, or the largest value where it does not fit.
pub open spec fn saturating_product(a: int, b: int, max: int) -> int {
    if a * b > max {
        max
    } else {
        a * b
    }
}

/// The product, or `u64::MAX` where it does not fit.
pub fn saturating_mul_u64(a: u64, b: u64) -> (r: u64)
    ensures
        r == saturating_product(a as int, b as int, u64::MAX as int),
{
    match a.checked_mul(b) {
        Some(v) => v,
        None => u64::MAX,
    }
}

/// The product, or `usize::MAX` where it does not fit.
pub fn saturating_mul_usize(a: usize, b: usize) -> (r: usize)
    ensures
        r == saturating_product(a as int, b as int, usize::MAX as int),
{
    match a.checked_mul(b) {
        Some(v) => v,
        None => usize::MAX,
    }
}

/// The sum modulo the range of `usize`.
pub open spec fn wrapped_sum_usize(a: usize, b: usize) -> usize {
    if a + b > usize::MAX {
        (a + b - usize::MAX - 1) as usize
    } else {
        (a + b) as usize
    }
}

/// The sum, or the largest value where it does not fit.
pub open spec fn saturating_sum(a: u64, b: u64) -> u64 {
    if a + b > u64::MAX {
        u64::MAX
    } else {
        (a + b) as u64
    }
}

/// The sum modulo 2^64.
pub open spec fn wrapped_sum(a: u64, b: u64) -> u64 {
    ((a + b) % 0x1_0000_0000_0000_0000) as u64
}

/// The larger of two numbers.
pub open spec fn larger(a: u64, b: u64) -> u64 {
    if a >= b {
        a
    } else {
        b
    }
}

/// The larger of two numbers.
pub fn max_u64(a: u64, b: u64) -> (r: u64)
    ensures
        r == larger(a, b),
{
    if a >= b {
        a
    } else {
        b
    }
}

// Laws -----------------------------------------------------------------------

/// Ten decimal digits stand for the numbers below ten, and in hexadecimal six letters
/// of either case for those up to fifteen; no other character is a digit.
pub proof fn digits_stand_for_numbers(c: char)
    ensures
        digit(c, 10) == if '0' <= c <= '9' {
            Some(c as int - '0' as int)
        } else {
            None
        },
        digit(c, 16) == if '0' <= c <= '9' {
            Some(c as int - '0' as int)
        } else if 'a' <= c <= 'f' {
            Some(c as int - 'a' as int + 10)
        } else if 'A' <= c <= 'F' {
            Some(c as int - 'A' as int + 10)
        } else {
            None
        },
{
}

/// One more digit makes the number as many times larger as there are digits, and adds
/// what it stands for.
pub proof fn digit_appended(s: Seq<char>, c: char, radix: int, max: int)
    requires
        radix == 10 || radix == 16,
        digit(c, radix) is Some,
    ensures
        parse_unsigned(seq![c], radix, max) == if digit(c, radix)->0 <= max {
            digit(c, radix)
        } else {
            None
        },
        s.len() > 0 && s != seq!['+'] ==> parse_unsigned(s.push(c), radix, max)
            == match parse_unsigned(s, radix, max) {
            Some(m) => if m * radix + digit(c, radix)->0 <= max {
                Some(m * radix + digit(c, radix)->0)
            } else {
                None
            },
            None => None,
        },
{
    let one = seq![c];
    assert(one.drop_last() =~= Seq::<char>::empty());
    assert(value(one.drop_last(), radix) == 0);
    assert(0 * radix == 0);
    assert(value(one, radix) == digit(c, radix)->0);
    assert(all_digits(one, radix));
    let body = if s.len() > 0 && s[0] == '+' {
        s.skip(1)
    } else {
        s
    };
    let more = s.push(c);
    if s.len() > 0 {
        let longer = if more[0] == '+' {
            more.skip(1)
        } else {
            more
        };
        assert(longer =~= body.push(c));
        assert(longer.drop_last() =~= body);
        if s[0] == '+' && s.len() == 1 {
            assert(s =~= seq!['+']);
        }
        if all_digits(longer, radix) {
            assert forall|i: int| 0 <= i < body.len() implies digit(
                #[trigger] body[i],
                radix,
            ) is Some by {
                assert(longer[i] == body[i]);
            }
            lemma_value_grows(longer, radix, body.len() as int);
            assert(longer.take(body.len() as int) =~= body);
        }
        if all_digits(body, radix) {
            assert forall|i: int| 0 <= i < longer.len() implies digit(
                #[trigger] longer[i],
                radix,
            ) is Some by {
                if i < body.len() {
                    assert(longer[i] == body[i]);
                }
            }
        }
    }
}

/// A minus sign turns a number into its opposite, for signed numbers only.
pub proof fn minus_sign_negates(s: Seq<char>, min: int, max: int)
    requires
        s.len() > 0,
        digit(s[0], 10) is Some,
    ensures
        parse_unsigned(seq!['-'] + s, 10, max) is None,
        parse_signed(s, min, max) == parse_unsigned(s, 10, max),
        parse_signed(seq!['-'] + s, min, max) == match parse_unsigned(s, 10, -min) {
            Some(n) => Some(-n),
            None => None,
        },
{
    let t = seq!['-'] + s;
    assert(t.skip(1) =~= s);
    assert(t[0] == '-');
    assert(digit(t[0], 10) is None);
}

/// A text with a character that is no digit, but for a sign at its beginning, is no
/// number.
pub proof fn other_characters_are_no_number(s: Seq<char>, i: int, radix: int, min: int, max: int)
    requires
        radix == 10 || radix == 16,
        0 <= i < s.len(),
        digit(s[i], radix) is None,
        i > 0 || (s[0] != '+' && s[0] != '-'),
    ensures
        parse_unsigned(s, radix, max) is None,
        radix == 10 ==> parse_signed(s, min, max) is None,
{
    if s[0] == '+' || s[0] == '-' {
        assert(s.skip(1)[i - 1] == s[i]);
        assert(digit(s[0], radix) is None);
    }
}

/// A number that was read is not negative where it is unsigned, and within the bounds of
/// its type; a larger type reads the same.
pub proof fn number_is_within_bounds(s: Seq<char>, radix: int, min: int, max: int, wider: int)
    requires
        radix == 10 || radix == 16,
        min <= 0,
        max <= wider,
    ensures
        parse_unsigned(s, radix, max) matches Some(n) ==> 0 <= n <= max,
        max >= 0 ==> (parse_signed(s, min, max) matches Some(n) ==> min <= n <= max),
        parse_unsigned(s, radix, max) is Some ==> parse_unsigned(s, radix, wider)
            == parse_unsigned(s, radix, max),
{
    let body = if s.len() > 0 && s[0] == '+' {
        s.skip(1)
    } else {
        s
    };
    if all_digits(body, radix) {
        lemma_value_grows(body, radix, 0);
        assert(body.take(0) =~= Seq::<char>::empty());
    }
    let negated = s.skip(1);
    if s.len() > 0 && s[0] == '-' && all_digits(negated, 10) {
        lemma_value_grows(negated, 10, 0);
        assert(negated.take(0) =~= Seq::<char>::empty());
    }
    if all_digits(body, 10) {
        lemma_value_grows(body, 10, 0);
        assert(body.take(0) =~= Seq::<char>::empty());
    }
}

/// Sums and products are the true ones wherever these fit; where they do not, the
/// saturating ones are the largest value, and the wrapped sum is short of the true one by
/// the size of the range.
pub proof fn arithmetic_is_true_within_range(a: u64, b: u64, x: usize, y: usize)
    ensures
        a + b <= u64::MAX ==> wrapped_sum(a, b) == a + b && saturating_sum(a, b) == a + b,
        a + b > u64::MAX ==> wrapped_sum(a, b) == a + b - 0x1_0000_0000_0000_0000
            && saturating_sum(a, b) == u64::MAX,
        x + y <= usize::MAX ==> wrapped_sum_usize(x, y) == x + y,
        x + y > usize::MAX ==> wrapped_sum_usize(x, y) == x + y - usize::MAX - 1,
        a * b <= u64::MAX ==> saturating_product(a as int, b as int, u64::MAX as int) == a * b,
        a * b > u64::MAX ==> saturating_product(a as int, b as int, u64::MAX as int) == u64::MAX,
{
}

/// It does not matter in which order numbers are added up modulo 2^64.
pub proof fn wrapped_sum_associates(a: u64, b: u64, c: u64)
    ensures
        wrapped_sum(wrapped_sum(a, b), c) == wrapped_sum(a, wrapped_sum(b, c)),
        wrapped_sum(a, b) == wrapped_sum(b, a),
        wrapped_sum(a, 0) == a,
{
}

/// The larger of two numbers is one of them, and neither is above it.
pub proof fn larger_is_an_upper_bound(a: u64, b: u64)
    ensures
        larger(a, b) >= a,
        larger(a, b) >= b,
        larger(a, b) == a || larger(a, b) == b,
{
}

} // verus!
