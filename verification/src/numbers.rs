//! Decimal integer parsing with the outcomes of `str::parse` for `u32` and `i32`.
use vstd::prelude::*;

verus! {

/// Why a decimal integer could not be read (the kinds of `std::num::IntErrorKind`).
#[derive(Debug, Clone, Copy, PartialEq, Eq, Structural)]
pub enum IntErrorKind {
    /// The text is empty.
    Empty,
    /// A character is not a decimal digit, or a sign stands alone.
    InvalidDigit,
    /// The value is above the type's maximum.
    PosOverflow,
    /// The value is below the type's minimum.
    NegOverflow,
}

impl IntErrorKind {
    /// The text that `ParseIntError` displays for this kind.
    pub fn message(&self) -> (r: &'static str)
        ensures
            r@ == int_error_text(*self),
    {
        match self {
            IntErrorKind::Empty => "cannot parse integer from empty string",
            IntErrorKind::InvalidDigit => "invalid digit found in string",
            IntErrorKind::PosOverflow => "number too large to fit in target type",
            IntErrorKind::NegOverflow => "number too small to fit in target type",
        }
    }
}

/// The display text of each parse failure.
pub open spec fn int_error_text(k: IntErrorKind) -> Seq<char> {
    match k {
        IntErrorKind::Empty => "cannot parse integer from empty string"@,
        IntErrorKind::InvalidDigit => "invalid digit found in string"@,
        IntErrorKind::PosOverflow => "number too large to fit in target type"@,
        IntErrorKind::NegOverflow => "number too small to fit in target type"@,
    }
}

/// An ASCII decimal digit.
pub open spec fn is_digit(c: char) -> bool {
    48 <= (c as u32) <= 57
}

/// The value of a decimal digit.
pub open spec fn digit_value(c: char) -> int {
    (c as u32) - 48
}

/// The value of a sequence of decimal digits, most significant first.
pub open spec fn digits_value(d: Seq<char>) -> int
    decreases d.len(),
{
    if d.len() == 0 {
        0
    } else {
        digits_value(d.drop_last()) * 10 + digit_value(d.last())
    }
}

/// The index of the first character at or after `k` that is not a digit (or the length).
pub open spec fn first_non_digit(d: Seq<char>, k: int) -> int
    decreases d.len() - k,
{
    if k < 0 || k >= d.len() {
        k
    } else if !is_digit(d[k]) {
        k
    } else {
        first_non_digit(d, k + 1)
    }
}

/// Reading `s` as a decimal integer between `min` and `max`: an optional sign
/// (`-` only when `min` is negative), then digits. Overflow met among the leading
/// digits is reported before a later invalid character.
pub open spec fn parse_int_spec(s: Seq<char>, min: int, max: int) -> Result<int, IntErrorKind> {
    if s.len() == 0 {
        Err(IntErrorKind::Empty)
    } else if (s[0] == '+' || s[0] == '-') && s.len() == 1 {
        Err(IntErrorKind::InvalidDigit)
    } else {
        let neg = s[0] == '-' && min < 0;
        let d = if s[0] == '+' || neg {
            s.drop_first()
        } else {
            s
        };
        let k = first_non_digit(d, 0);
        let v = digits_value(d.take(k));
        if neg {
            if -v < min {
                Err(IntErrorKind::NegOverflow)
            } else if k < d.len() {
                Err(IntErrorKind::InvalidDigit)
            } else {
                Ok(-v)
            }
        } else {
            if v > max {
                Err(IntErrorKind::PosOverflow)
            } else if k < d.len() {
                Err(IntErrorKind::InvalidDigit)
            } else {
                Ok(v)
            }
        }
    }
}

proof fn lemma_first_non_digit(d: Seq<char>, k: int)
    requires
        0 <= k <= d.len(),
    ensures
        k <= first_non_digit(d, k) <= d.len(),
        forall|m: int| k <= m < first_non_digit(d, k) ==> is_digit(#[trigger] d[m]),
        first_non_digit(d, k) < d.len() ==> !is_digit(d[first_non_digit(d, k)]),
    decreases d.len() - k,
{
    if k < d.len() && is_digit(d[k]) {
        lemma_first_non_digit(d, k + 1);
    }
}

proof fn lemma_digits_value_monotone(d: Seq<char>, m: int, n: int)
    requires
        0 <= m <= n <= d.len(),
        forall|i: int| 0 <= i < n ==> is_digit(#[trigger] d[i]),
    ensures
        0 <= digits_value(d.take(m)) <= digits_value(d.take(n)),
    decreases n,
{
    if n > 0 {
        assert(d.take(n).drop_last() =~= d.take(n - 1));
        assert(d.take(n).last() == d[n - 1]);
        if m < n {
            lemma_digits_value_monotone(d, m, n - 1);
        } else {
            lemma_digits_value_monotone(d, n - 1, n - 1);
        }
    } else {
        assert(d.take(0).len() == 0);
    }
}

fn is_digit_char(c: char) -> (r: bool)
    ensures
        r == is_digit(c),
{
    let u = c as u32;
    48 <= u && u <= 57
}

/// Reads `s` as an integer in `min..=max`.
fn parse_int(s: &[char], min: i64, max: i64) -> (r: Result<i64, IntErrorKind>)
    requires
        min == 0 || min == -0x8000_0000,
        0 < max <= 0xFFFF_FFFF,
    ensures
        match parse_int_spec(s@, min as int, max as int) {
            Ok(v) => r == Ok::<i64, IntErrorKind>(v as i64),
            Err(e) => r == Err::<i64, IntErrorKind>(e),
        },
        r matches Ok(x) ==> min <= x <= max,
        parse_int_spec(s@, min as int, max as int) matches Ok(v) ==> min <= v <= max,
{
    let n = s.len();
    if n == 0 {
        return Err(IntErrorKind::Empty);
    }
    if (s[0] == '+' || s[0] == '-') && n == 1 {
        return Err(IntErrorKind::InvalidDigit);
    }
    let neg = s[0] == '-' && min < 0;
    let start: usize = if s[0] == '+' || neg {
        1
    } else {
        0
    };
    let limit: i64 = if neg {
        -min
    } else {
        max
    };
    let ghost d = if s@[0] == '+' || neg {
        s@.drop_first()
    } else {
        s@
    };
    assert(d =~= s@.subrange(start as int, n as int));
    let mut acc: i64 = 0;
    let mut k: usize = start;
    while k < n && is_digit_char(s[k])
        invariant
            start <= k <= n == s@.len(),
            d == s@.subrange(start as int, n as int),
            0 <= limit <= 0xFFFF_FFFF,
            n > 0,
            start == (if s@[0] == '+' || neg { 1usize } else { 0usize }),
            neg == (s@[0] == '-' && min < 0),
            limit == if neg { -min } else { max as int },
            min == 0 || min == -0x8000_0000,
            0 < max <= 0xFFFF_FFFF,
            forall|i: int| 0 <= i < k - start ==> is_digit(#[trigger] d[i]),
            acc as int == digits_value(d.take(k - start)),
            0 <= acc <= limit,
        decreases n - k,
    {
        let c = s[k];
        let dv = (c as u32 - 48) as i64;
        proof {
            assert(d[k - start] == c);
            let t = d.take(k - start + 1);
            assert(t.drop_last() =~= d.take(k - start));
            assert(t.last() == c);
        }
        acc = acc * 10 + dv;
        k += 1;
        assert(acc as int == digits_value(d.take(k - start)));
        if acc > limit {
            proof {
                lemma_first_non_digit(d, 0);
                let f = first_non_digit(d, 0);
                assert(f >= k - start) by {
                    if f < k - start {
                        assert(is_digit(d[f]));
                    }
                }
                lemma_digits_value_monotone(d, k - start, f);
            }
            if neg {
                return Err(IntErrorKind::NegOverflow);
            } else {
                proof {
                    let f = first_non_digit(d, 0);
                    assert(digits_value(d.take(f)) > limit);
                    assert(limit == max);
                    let dd = if s@[0] == '+' || (s@[0] == '-' && min < 0) { s@.drop_first() } else { s@ };
                    assert(dd == d);
                    assert(!(s@[0] == '-' && min < 0));
                }
                return Err(IntErrorKind::PosOverflow);
            }
        }
    }
    proof {
        lemma_first_non_digit(d, 0);
        let f = first_non_digit(d, 0);
        if k < n {
            assert(d[k - start] == s@[k as int]);
            assert(!is_digit(d[k - start]));
            assert(f == k - start) by {
                if f < k - start {
                    assert(is_digit(d[f]));
                }
                if f > k - start {
                    assert(is_digit(d[k - start]));
                }
            }
        } else {
            assert(f == k - start) by {
                if f < k - start {
                    assert(is_digit(d[f]));
                }
            }
        }
        lemma_digits_value_monotone(d, 0, f);
    }
    if k < n {
        return Err(IntErrorKind::InvalidDigit);
    }
    if neg {
        Ok(-acc)
    } else {
        Ok(acc)
    }
}

/// Reads a decimal `u32` (`str::parse::<u32>`).
pub fn parse_u32(s: &str) -> (r: Result<u32, IntErrorKind>)
    ensures
        match parse_int_spec(s@, 0, u32::MAX as int) {
            Ok(v) => r == Ok::<u32, IntErrorKind>(v as u32),
            Err(e) => r == Err::<u32, IntErrorKind>(e),
        },
{
    let v = crate::text::chars_of(s);
    match parse_int(v.as_slice(), 0, 0xFFFF_FFFF) {
        Ok(x) => Ok(x as u32),
        Err(e) => Err(e),
    }
}

/// Reads a decimal `i32` (`str::parse::<i32>`).
pub fn parse_i32(s: &str) -> (r: Result<i32, IntErrorKind>)
    ensures
        match parse_int_spec(s@, i32::MIN as int, i32::MAX as int) {
            Ok(v) => r == Ok::<i32, IntErrorKind>(v as i32),
            Err(e) => r == Err::<i32, IntErrorKind>(e),
        },
{
    let v = crate::text::chars_of(s);
    match parse_int(v.as_slice(), -0x8000_0000, 0x7FFF_FFFF) {
        Ok(x) => Ok(x as i32),
        Err(e) => Err(e),
    }
}

/// The decimal digit character for `d` (below 10).
pub open spec fn digit_char(d: nat) -> char {
    if d == 0 {
        '0'
    } else if d == 1 {
        '1'
    } else if d == 2 {
        '2'
    } else if d == 3 {
        '3'
    } else if d == 4 {
        '4'
    } else if d == 5 {
        '5'
    } else if d == 6 {
        '6'
    } else if d == 7 {
        '7'
    } else if d == 8 {
        '8'
    } else {
        '9'
    }
}

/// The decimal text of `n`, without leading zeros (`u32`'s `Display`).
pub open spec fn decimal(n: nat) -> Seq<char>
    decreases n,
{
    if n < 10 {
        seq![digit_char(n)]
    } else {
        decimal(n / 10).push(digit_char(n % 10))
    }
}

fn digit(d: u32) -> (c: char)
    requires
        d < 10,
    ensures
        c == digit_char(d as nat),
{
    if d == 0 {
        '0'
    } else if d == 1 {
        '1'
    } else if d == 2 {
        '2'
    } else if d == 3 {
        '3'
    } else if d == 4 {
        '4'
    } else if d == 5 {
        '5'
    } else if d == 6 {
        '6'
    } else if d == 7 {
        '7'
    } else if d == 8 {
        '8'
    } else {
        '9'
    }
}

/// Writes `n` in decimal.
pub fn decimal_text(n: u32) -> (r: String)
    ensures
        r@ == decimal(n as nat),
    decreases n,
{
    if n < 10 {
        let mut s = String::new();
        crate::text::push_char(&mut s, digit(n));
        s
    } else {
        let mut s = decimal_text(n / 10);
        crate::text::push_char(&mut s, digit(n % 10));
        s
    }
}

} // verus!
