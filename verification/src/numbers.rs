//! Decimal integer parsing with the acceptance rules and error kinds of
//! `str::parse` for the primitive integer types.
use vstd::prelude::*;

verus! {

/// Why a decimal integer could not be read.
#[derive(Debug, Clone, Copy, PartialEq, Eq, Structural)]
pub enum IntErrorKind {
    /// The text is empty.
    Empty,
    /// A character that is not a digit (or a lone sign) was found.
    InvalidDigit,
    /// The value is above the largest value of the target type.
    PosOverflow,
    /// The value is below the smallest value of the target type.
    NegOverflow,
}

pub open spec fn is_digit(c: char) -> bool {
    '0' <= c && c <= '9'
}

pub open spec fn digit_value(c: char) -> int {
    c as int - '0' as int
}

/// Reads `digits` left to right onto `acc`, stopping at the first character
/// that is not a digit or at the first step that leaves `lo..=hi`.
pub open spec fn accumulate(digits: Seq<char>, acc: int, positive: bool, lo: int, hi: int) -> Result<
    int,
    IntErrorKind,
>
    decreases digits.len(),
{
    if digits.len() == 0 {
        Ok(acc)
    } else if !is_digit(digits[0]) {
        Err(IntErrorKind::InvalidDigit)
    } else {
        let next = if positive {
            acc * 10 + digit_value(digits[0])
        } else {
            acc * 10 - digit_value(digits[0])
        };
        if positive && next > hi {
            Err(IntErrorKind::PosOverflow)
        } else if !positive && next < lo {
            Err(IntErrorKind::NegOverflow)
        } else {
            accumulate(digits.drop_first(), next, positive, lo, hi)
        }
    }
}

/// The result of reading `s` as a decimal integer of the type whose range is
/// `lo..=hi`: an optional `+` (or `-` when `lo < 0`) and then digits.
pub open spec fn parse_int(s: Seq<char>, lo: int, hi: int) -> Result<int, IntErrorKind> {
    if s.len() == 0 {
        Err(IntErrorKind::Empty)
    } else if (s[0] == '+' || s[0] == '-') && s.len() == 1 {
        Err(IntErrorKind::InvalidDigit)
    } else if s[0] == '+' {
        accumulate(s.drop_first(), 0, true, lo, hi)
    } else if s[0] == '-' && lo < 0 {
        accumulate(s.drop_first(), 0, false, lo, hi)
    } else {
        accumulate(s, 0, true, lo, hi)
    }
}

/// The value of a run of decimal digits.
pub open spec fn digits_value(digits: Seq<char>) -> int
    decreases digits.len(),
{
    if digits.len() == 0 {
        0
    } else {
        digits_value(digits.drop_last()) * 10 + digit_value(digits.last())
    }
}

pub open spec fn all_digits(s: Seq<char>) -> bool {
    forall|i: int| 0 <= i < s.len() ==> is_digit(#[trigger] s[i])
}

pub proof fn lemma_digits_value_nonneg(d: Seq<char>)
    requires
        all_digits(d),
    ensures
        digits_value(d) >= 0,
    decreases d.len(),
{
    if d.len() > 0 {
        lemma_digits_value_nonneg(d.drop_last());
    }
}

/// Reading digits onto `acc` gives `acc` shifted by the digits' value, when no
/// step leaves the range.
proof fn lemma_accumulate_value(d: Seq<char>, acc: int, positive: bool, lo: int, hi: int)
    requires
        all_digits(d),
        lo <= acc <= hi,
        lo <= 0 <= hi,
        positive ==> acc >= 0,
        !positive ==> acc <= 0,
    ensures
        ({
            let total = if positive {
                acc * pow10(d.len()) + digits_value(d)
            } else {
                acc * pow10(d.len()) - digits_value(d)
            };
            (lo <= total <= hi ==> accumulate(d, acc, positive, lo, hi) == Ok::<int, IntErrorKind>(
                total,
            )) && (accumulate(d, acc, positive, lo, hi) is Ok ==> lo <= total <= hi)
        }),
    decreases d.len(),
{
    reveal_with_fuel(pow10, 2);
    if d.len() > 0 {
        let c = d[0];
        let next = if positive {
            acc * 10 + digit_value(c)
        } else {
            acc * 10 - digit_value(c)
        };
        let rest = d.drop_first();
        assert(all_digits(rest));
        lemma_digits_split_first(d);
        lemma_pow10_pos(rest.len());
        lemma_digits_value_nonneg(rest);
        lemma_digits_below_pow(rest);
        let total = if positive {
            acc * pow10(d.len()) + digits_value(d)
        } else {
            acc * pow10(d.len()) - digits_value(d)
        };
        let rest_total = if positive {
            next * pow10(rest.len()) + digits_value(rest)
        } else {
            next * pow10(rest.len()) - digits_value(rest)
        };
        assert(pow10(d.len()) == 10 * pow10(rest.len()));
        assert(total == rest_total) by (nonlinear_arith)
            requires
                pow10(d.len()) == 10 * pow10(rest.len()),
                digits_value(d) == digit_value(c) * pow10(rest.len()) + digits_value(rest),
                total == (if positive {
                    acc * pow10(d.len()) + digits_value(d)
                } else {
                    acc * pow10(d.len()) - digits_value(d)
                }),
                rest_total == (if positive {
                    next * pow10(rest.len()) + digits_value(rest)
                } else {
                    next * pow10(rest.len()) - digits_value(rest)
                }),
                next == (if positive {
                    acc * 10 + digit_value(c)
                } else {
                    acc * 10 - digit_value(c)
                }),
        ;
        if positive && next > hi {
            assert(next * pow10(rest.len()) >= next) by (nonlinear_arith)
                requires
                    next > 0,
                    pow10(rest.len()) >= 1,
            ;
        } else if !positive && next < lo {
            assert(next * pow10(rest.len()) <= next) by (nonlinear_arith)
                requires
                    next < 0,
                    pow10(rest.len()) >= 1,
            ;
        } else {
            lemma_accumulate_value(rest, next, positive, lo, hi);
        }
    }
}

pub open spec fn pow10(n: nat) -> int
    decreases n,
{
    if n == 0 {
        1
    } else {
        10 * pow10((n - 1) as nat)
    }
}

proof fn lemma_pow10_pos(n: nat)
    ensures
        pow10(n) >= 1,
    decreases n,
{
    if n > 0 {
        lemma_pow10_pos((n - 1) as nat);
    }
}

proof fn lemma_digits_below_pow(d: Seq<char>)
    requires
        all_digits(d),
    ensures
        digits_value(d) < pow10(d.len()),
    decreases d.len(),
{
    if d.len() > 0 {
        let p = d.drop_last();
        assert(all_digits(p));
        lemma_digits_below_pow(p);
        lemma_digits_value_nonneg(p);
        assert(digits_value(d) < pow10(d.len())) by (nonlinear_arith)
            requires
                digits_value(d) == digits_value(p) * 10 + digit_value(d.last()),
                0 <= digit_value(d.last()) <= 9,
                digits_value(p) < pow10(p.len()),
                pow10(d.len()) == 10 * pow10(p.len()),
        ;
    }
}

proof fn lemma_digits_split_first(d: Seq<char>)
    requires
        d.len() > 0,
        all_digits(d),
    ensures
        digits_value(d) == digit_value(d[0]) * pow10((d.len() - 1) as nat) + digits_value(
            d.drop_first(),
        ),
    decreases d.len(),
{
    if d.len() == 1 {
        assert(d.drop_first().len() == 0);
        assert(d.drop_last().len() == 0);
        assert(digits_value(d.drop_last()) == 0);
        assert(digits_value(d.drop_first()) == 0);
        assert(d.last() == d[0]);
        assert(pow10(0) == 1);
        assert(digits_value(d) == digit_value(d[0]));
    } else {
        let p = d.drop_last();
        assert(all_digits(p));
        lemma_digits_split_first(p);
        assert(p.drop_first() =~= d.drop_first().drop_last());
        assert(d.drop_first().last() == d.last());
        assert(p[0] == d[0]);
        assert(pow10((d.len() - 1) as nat) == 10 * pow10((p.len() - 1) as nat));
        assert(digits_value(d) == digit_value(d[0]) * pow10((d.len() - 1) as nat) + digits_value(
            d.drop_first(),
        )) by (nonlinear_arith)
            requires
                digits_value(d) == digits_value(p) * 10 + digit_value(d.last()),
                digits_value(p) == digit_value(d[0]) * pow10((p.len() - 1) as nat) + digits_value(
                    p.drop_first(),
                ),
                digits_value(d.drop_first()) == digits_value(p.drop_first()) * 10 + digit_value(
                    d.last(),
                ),
                pow10((d.len() - 1) as nat) == 10 * pow10((p.len() - 1) as nat),
        ;
    }
}

/// Successful reading, stated directly: the text is an optional sign and a
/// non-empty run of digits whose value lies in the range.
pub proof fn lemma_parse_int_ok(s: Seq<char>, lo: int, hi: int)
    requires
        lo <= 0 <= hi,
    ensures
        s.len() > 0 && s[0] == '+' && s.len() > 1 && all_digits(s.drop_first()) && digits_value(
            s.drop_first(),
        ) <= hi ==> parse_int(s, lo, hi) == Ok::<int, IntErrorKind>(digits_value(s.drop_first())),
        s.len() > 0 && s[0] == '-' && lo < 0 && s.len() > 1 && all_digits(s.drop_first())
            && -digits_value(s.drop_first()) >= lo ==> parse_int(s, lo, hi) == Ok::<
            int,
            IntErrorKind,
        >(-digits_value(s.drop_first())),
        s.len() > 0 && all_digits(s) && digits_value(s) <= hi ==> parse_int(s, lo, hi) == Ok::<
            int,
            IntErrorKind,
        >(digits_value(s)),
{
    if s.len() > 0 {
        let r = s.drop_first();
        if all_digits(r) {
            lemma_digits_value_nonneg(r);
            lemma_accumulate_value(r, 0, true, lo, hi);
            lemma_accumulate_value(r, 0, false, lo, hi);
            assert(0 * pow10(r.len()) == 0) by (nonlinear_arith);
        }
        if all_digits(s) {
            lemma_digits_value_nonneg(s);
            lemma_accumulate_value(s, 0, true, lo, hi);
            assert(0 * pow10(s.len()) == 0) by (nonlinear_arith);
            assert(s[0] != '+' && s[0] != '-');
        }
    }
}

proof fn lemma_accumulate_range(d: Seq<char>, acc: int, positive: bool, lo: int, hi: int)
    requires
        lo <= acc <= hi,
        positive ==> acc >= 0,
        !positive ==> acc <= 0,
    ensures
        accumulate(d, acc, positive, lo, hi) is Ok ==> lo <= accumulate(
            d,
            acc,
            positive,
            lo,
            hi,
        )->Ok_0 <= hi,
    decreases d.len(),
{
    if d.len() > 0 && is_digit(d[0]) {
        let next = if positive {
            acc * 10 + digit_value(d[0])
        } else {
            acc * 10 - digit_value(d[0])
        };
        if !(positive && next > hi) && !(!positive && next < lo) {
            lemma_accumulate_range(d.drop_first(), next, positive, lo, hi);
        }
    }
}

/// A successful reading lies in the range it was read for.
pub proof fn lemma_parse_int_range(s: Seq<char>, lo: int, hi: int)
    requires
        lo <= 0 <= hi,
    ensures
        parse_int(s, lo, hi) is Ok ==> lo <= parse_int(s, lo, hi)->Ok_0 <= hi,
{
    if s.len() > 0 {
        lemma_accumulate_range(s.drop_first(), 0, true, lo, hi);
        lemma_accumulate_range(s.drop_first(), 0, false, lo, hi);
        lemma_accumulate_range(s, 0, true, lo, hi);
    }
}

proof fn lemma_digit_char_value(d: nat)
    requires
        d < 10,
    ensures
        is_digit(crate::text::digit_char(d)),
        digit_value(crate::text::digit_char(d)) == d,
{
}

proof fn lemma_decimal_digits(n: nat)
    ensures
        all_digits(crate::text::decimal(n)),
        digits_value(crate::text::decimal(n)) == n,
        crate::text::decimal(n).len() > 0,
    decreases n,
{
    let s = crate::text::decimal(n);
    if n < 10 {
        lemma_digit_char_value(n);
        assert(s.drop_last().len() == 0);
        assert(digits_value(s.drop_last()) == 0);
        assert(s.last() == crate::text::digit_char(n));
    } else {
        lemma_decimal_digits(n / 10);
        lemma_digit_char_value(n % 10);
        let p = crate::text::decimal(n / 10);
        assert(s.drop_last() =~= p);
        assert(s.last() == crate::text::digit_char(n % 10));
        assert((n / 10) * 10 + n % 10 == n) by (nonlinear_arith);
        assert forall|i: int| 0 <= i < s.len() implies is_digit(#[trigger] s[i]) by {
            if i < p.len() {
                assert(s[i] == p[i]);
            }
        }
    }
}

/// A number written in decimal reads back as itself, for every integer type
/// wide enough to hold it.
pub proof fn law_decimal_reads_back(n: nat, lo: int, hi: int)
    requires
        lo <= 0 <= hi,
        n <= hi,
    ensures
        parse_int(crate::text::decimal(n), lo, hi) == Ok::<int, IntErrorKind>(n as int),
{
    lemma_decimal_digits(n);
    lemma_parse_int_ok(crate::text::decimal(n), lo, hi);
}

/// Reads `s` as a decimal integer in `lo..=hi`, as `str::parse` does for the
/// integer type with that range.
pub fn parse_int_in(s: &str, lo: i128, hi: i128) -> (r: Result<i128, IntErrorKind>)
    requires
        -0x1_0000_0000_0000_0000_0000_0000 <= lo <= 0 <= hi <= 0x1_0000_0000_0000_0000_0000_0000,
    ensures
        match r {
            Ok(v) => parse_int(s@, lo as int, hi as int) == Ok::<int, IntErrorKind>(v as int),
            Err(e) => parse_int(s@, lo as int, hi as int) == Err::<int, IntErrorKind>(e),
        },
{
    let v = crate::text::chars_of(s);
    let n = v.len();
    if n == 0 {
        return Err(IntErrorKind::Empty);
    }
    if (v[0] == '+' || v[0] == '-') && n == 1 {
        return Err(IntErrorKind::InvalidDigit);
    }
    let mut positive = true;
    let mut i: usize = 0;
    if v[0] == '+' {
        i = 1;
    } else if v[0] == '-' && lo < 0 {
        positive = false;
        i = 1;
    }
    assert(parse_int(s@, lo as int, hi as int) == accumulate(
        v@.subrange(i as int, n as int),
        0,
        positive,
        lo as int,
        hi as int,
    )) by {
        assert(v@.subrange(1, n as int) =~= v@.drop_first());
        assert(v@.subrange(0, n as int) =~= v@);
    }
    let mut acc: i128 = 0;
    while i < n
        invariant
            v@ == s@,
            n == v.len(),
            i <= n,
            lo <= acc <= hi,
            positive ==> acc >= 0,
            !positive ==> acc <= 0,
            -0x1_0000_0000_0000_0000_0000_0000 <= lo <= 0 <= hi
                <= 0x1_0000_0000_0000_0000_0000_0000,
            parse_int(s@, lo as int, hi as int) == accumulate(
                v@.subrange(i as int, n as int),
                acc as int,
                positive,
                lo as int,
                hi as int,
            ),
        decreases n - i,
    {
        let c = v[i];
        assert(v@.subrange(i as int, n as int)[0] == c);
        if !('0' <= c && c <= '9') {
            return Err(IntErrorKind::InvalidDigit);
        }
        let d = (c as u32 - '0' as u32) as i128;
        let next = if positive {
            acc * 10 + d
        } else {
            acc * 10 - d
        };
        if positive && next > hi {
            return Err(IntErrorKind::PosOverflow);
        }
        if !positive && next < lo {
            return Err(IntErrorKind::NegOverflow);
        }
        assert(v@.subrange(i as int, n as int).drop_first() =~= v@.subrange(i + 1, n as int));
        acc = next;
        i = i + 1;
    }
    Ok(acc)
}

impl IntErrorKind {
    /// The text std gives for this error kind.
    pub open spec fn spec_text(self) -> Seq<char> {
        match self {
            IntErrorKind::Empty => "cannot parse integer from empty string"@,
            IntErrorKind::InvalidDigit => "invalid digit found in string"@,
            IntErrorKind::PosOverflow => "number too large to fit in target type"@,
            IntErrorKind::NegOverflow => "number too small to fit in target type"@,
        }
    }

    /// The text std gives for this error kind.
    pub fn text(&self) -> (t: &'static str)
        ensures
            t@ == self.spec_text(),
    {
        match self {
            IntErrorKind::Empty => "cannot parse integer from empty string",
            IntErrorKind::InvalidDigit => "invalid digit found in string",
            IntErrorKind::PosOverflow => "number too large to fit in target type",
            IntErrorKind::NegOverflow => "number too small to fit in target type",
        }
    }
}

} // verus!
