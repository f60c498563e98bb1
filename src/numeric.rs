//! Numbers written as text: unsigned and signed integers and exact decimals.
use crate::text::{chars_of, decimal_chars, push_decimal, string_of};
use vstd::arithmetic::div_mod::lemma_div_denominator;
use vstd::prelude::*;

verus! {

pub open spec fn is_digit(c: char) -> bool {
    '0' <= c && c <= '9'
}

pub open spec fn digit_value(c: char) -> int {
    c as int - '0' as int
}

/// The state reached after reading `s` from left to right as a decimal numeral:
/// the value of the digits read so far, how many digits were read, and, once a
/// '.' was met, how many digits stand after it. `None` for any other character,
/// or for a second '.'.
pub open spec fn scan_numeral(s: Seq<char>) -> Option<(int, nat, Option<nat>)>
    decreases s.len(),
{
    if s.len() == 0 {
        Some((0, 0, None))
    } else {
        let c = s.last();
        match scan_numeral(s.drop_last()) {
            None => None,
            Some((v, n, frac)) => if is_digit(c) {
                Some(
                    (
                        v * 10 + digit_value(c),
                        n + 1,
                        match frac {
                            Some(f) => Some(f + 1),
                            None => None,
                        },
                    ),
                )
            } else if c == '.' && frac is None {
                Some((v, n, Some(0)))
            } else {
                None
            },
        }
    }
}

/// `s` without a leading sign, and whether that sign was '-'.
pub open spec fn strip_sign(s: Seq<char>, allow_minus: bool) -> (Seq<char>, bool) {
    if s.len() > 0 && s[0] == '+' {
        (s.drop_first(), false)
    } else if allow_minus && s.len() > 0 && s[0] == '-' {
        (s.drop_first(), true)
    } else {
        (s, false)
    }
}

/// The value of an integer numeral: an optional sign ('-' only where
/// `allow_minus`), then one or more ASCII digits and nothing else.
pub open spec fn integer_text_value(s: Seq<char>, allow_minus: bool) -> Option<int> {
    let (body, neg) = strip_sign(s, allow_minus);
    match scan_numeral(body) {
        Some((v, n, None)) => if n >= 1 {
            Some(if neg { -v } else { v })
        } else {
            None
        },
        _ => None,
    }
}

/// A decimal numeral read exactly, as `(mantissa, scale)` with value
/// `mantissa / 10^scale`: an optional sign, digits with at most one '.', at
/// least one digit in all.
pub open spec fn decimal_text_value(s: Seq<char>) -> Option<(int, nat)> {
    let (body, neg) = strip_sign(s, true);
    match scan_numeral(body) {
        Some((v, n, frac)) => if n >= 1 {
            Some(
                (
                    if neg { -v } else { v },
                    match frac {
                        Some(f) => f,
                        None => 0nat,
                    },
                ),
            )
        } else {
            None
        },
        None => None,
    }
}

/// The `u32` that `s` writes, where it fits.
pub open spec fn u32_of_text(s: Seq<char>) -> Option<u32> {
    match integer_text_value(s, false) {
        Some(v) => if v <= u32::MAX {
            Some(v as u32)
        } else {
            None
        },
        None => None,
    }
}

/// The `u64` that `s` writes, where it fits.
pub open spec fn u64_of_text(s: Seq<char>) -> Option<u64> {
    match integer_text_value(s, false) {
        Some(v) => if v <= u64::MAX {
            Some(v as u64)
        } else {
            None
        },
        None => None,
    }
}

/// The `i32` that `s` writes, where it fits.
pub open spec fn i32_of_text(s: Seq<char>) -> Option<i32> {
    match integer_text_value(s, true) {
        Some(v) => if i32::MIN <= v <= i32::MAX {
            Some(v as i32)
        } else {
            None
        },
        None => None,
    }
}

/// The decimal that `s` writes, where its mantissa fits in 63 bits and a sign.
pub open spec fn decimal_of_text(s: Seq<char>) -> Option<Decimal> {
    match decimal_text_value(s) {
        Some((m, scale)) => if -i64::MAX <= m <= i64::MAX {
            Some(Decimal { mantissa: m as i64, scale: scale as usize })
        } else {
            None
        },
        None => None,
    }
}

/// An exact decimal number: `mantissa / 10^scale`.
#[derive(Clone, Copy, Debug, PartialEq, Eq)]
pub struct Decimal {
    pub mantissa: i64,
    pub scale: usize,
}

impl Decimal {
    pub open spec fn is_zero(self) -> bool {
        self.mantissa == 0
    }
}

pub proof fn lemma_scan_prefix_value(s: Seq<char>, i: int)
    requires
        0 <= i <= s.len(),
        scan_numeral(s) is Some,
    ensures
        scan_numeral(s.subrange(0, i)) is Some,
        0 <= scan_numeral(s.subrange(0, i)).unwrap().0 <= scan_numeral(s).unwrap().0,
    decreases s.len() - i,
{
    if i < s.len() {
        let t = s.subrange(0, i + 1);
        assert(t.drop_last() =~= s.subrange(0, i));
        lemma_scan_prefix_value(s, i + 1);
        lemma_scan_nonneg(s.subrange(0, i));
    } else {
        assert(s.subrange(0, i) =~= s);
        lemma_scan_nonneg(s);
    }
}

pub proof fn lemma_scan_nonneg(s: Seq<char>)
    requires
        scan_numeral(s) is Some,
    ensures
        scan_numeral(s).unwrap().0 >= 0,
    decreases s.len(),
{
    if s.len() > 0 {
        lemma_scan_nonneg(s.drop_last());
    }
}

/// Reads `s[start..end]` as a numeral, giving up once the value exceeds `bound`.
/// Returns the value, the number of digits and the digits after a '.'.
fn scan_chars(s: &Vec<char>, start: usize, end: usize, bound: u64) -> (r: Option<(u64, usize, Option<usize>)>)
    requires
        start <= end <= s.len(),
    ensures
        match r {
            Some((v, n, frac)) => scan_numeral(s@.subrange(start as int, end as int)) == Some(
                (
                    v as int,
                    n as nat,
                    match frac {
                        Some(f) => Some(f as nat),
                        None => None,
                    },
                ),
            ) && v <= bound,
            None => match scan_numeral(s@.subrange(start as int, end as int)) {
                Some((v, _, _)) => v > bound,
                None => true,
            },
        },
{
    let mut v: u64 = 0;
    let mut n: usize = 0;
    let mut frac: Option<usize> = None;
    let mut i = start;
    assert(s@.subrange(start as int, start as int) =~= Seq::<char>::empty());
    while i < end
        invariant
            start <= i <= end <= s.len(),
            v <= bound,
            n <= i - start,
            frac matches Some(f) ==> f <= n,
            scan_numeral(s@.subrange(start as int, i as int)) == Some(
                (
                    v as int,
                    n as nat,
                    match frac {
                        Some(f) => Some(f as nat),
                        None => None,
                    },
                ),
            ),
        decreases end - i,
    {
        let c = s[i];
        let ghost prefix = s@.subrange(start as int, i as int);
        assert(s@.subrange(start as int, i + 1).drop_last() =~= prefix);
        assert(s@.subrange(start as int, i + 1).last() == c);
        if '0' <= c && c <= '9' {
            let d = (c as u32 - '0' as u32) as u64;
            if d > bound || v > (bound - d) / 10 {
                proof {
                    let whole = s@.subrange(start as int, end as int);
                    assert(whole.subrange(0, i + 1 - start) =~= s@.subrange(start as int, i + 1));
                    assert(v * 10 + d > bound) by (nonlinear_arith)
                        requires
                            d > bound || v > (bound - d) / 10,
                    ;
                    if scan_numeral(whole) is Some {
                        lemma_scan_prefix_value(whole, i + 1 - start);
                    }
                }
                return None;
            }
            assert(v * 10 + d <= bound) by (nonlinear_arith)
                requires
                    v <= (bound - d) / 10,
                    d <= bound,
            ;
            v = v * 10 + d;
            n = n + 1;
            frac = match frac {
                Some(f) => Some(f + 1),
                None => None,
            };
        } else if c == '.' && frac.is_none() {
            frac = Some(0);
        } else {
            proof {
                let whole = s@.subrange(start as int, end as int);
                assert(whole.subrange(0, i + 1 - start) =~= s@.subrange(start as int, i + 1));
                if scan_numeral(whole) is Some {
                    lemma_scan_prefix_value(whole, i + 1 - start);
                }
            }
            return None;
        }
        i = i + 1;
    }
    Some((v, n, frac))
}

/// Reads `s` (after its sign) as an integer numeral of magnitude at most `bound`.
fn scan_integer(s: &Vec<char>, allow_minus: bool, bound: u64) -> (r: Option<(u64, bool)>)
    ensures
        match r {
            Some((m, neg)) => integer_text_value(s@, allow_minus) == Some(
                if neg { -(m as int) } else { m as int },
            ) && m <= bound && (neg ==> allow_minus),
            None => match integer_text_value(s@, allow_minus) {
                Some(v) => v > bound || -v > bound,
                None => true,
            },
        },
        !allow_minus ==> (integer_text_value(s@, allow_minus) matches Some(v) ==> v >= 0),
{
    let len = s.len();
    let mut start: usize = 0;
    let mut neg = false;
    if len > 0 && (s[0] == '+' || (allow_minus && s[0] == '-')) {
        start = 1;
        neg = s[0] == '-';
    }
    proof {
        let (body, n) = strip_sign(s@, allow_minus);
        if start == 1 {
            assert(body =~= s@.subrange(1, len as int));
        } else {
            assert(body =~= s@.subrange(0, len as int));
        }
        assert(n == neg);
    }
    match scan_chars(s, start, len, bound) {
        Some((v, n, None)) => if n >= 1 {
            proof {
                lemma_scan_nonneg(s@.subrange(start as int, len as int));
            }
            Some((v, neg))
        } else {
            None
        },
        Some((_, _, Some(_))) => None,
        None => {
            proof {
                let body = s@.subrange(start as int, len as int);
                if scan_numeral(body) is Some {
                    lemma_scan_nonneg(body);
                }
            }
            None
        },
    }
}

/// Reads an unsigned 32-bit integer: an optional '+', then ASCII digits only.
pub fn parse_u32(s: &str) -> (r: Option<u32>)
    ensures
        r == u32_of_text(s@),
{
    let cs = chars_of(s);
    match scan_integer(&cs, false, u32::MAX as u64) {
        Some((m, _)) => Some(m as u32),
        None => None,
    }
}

/// Reads an unsigned 64-bit integer: an optional '+', then ASCII digits only.
pub fn parse_u64(s: &str) -> (r: Option<u64>)
    ensures
        r == u64_of_text(s@),
{
    let cs = chars_of(s);
    match scan_integer(&cs, false, u64::MAX) {
        Some((m, _)) => Some(m),
        None => None,
    }
}

/// Reads a signed 32-bit integer: an optional '+' or '-', then ASCII digits only.
pub fn parse_i32(s: &str) -> (r: Option<i32>)
    ensures
        r == i32_of_text(s@),
{
    let cs = chars_of(s);
    match scan_integer(&cs, true, 0x8000_0000u64) {
        Some((m, neg)) => if neg {
            Some((0 - m as i64) as i32)
        } else if m <= i32::MAX as u64 {
            Some(m as i32)
        } else {
            None
        },
        None => None,
    }
}

/// Reads a decimal numeral exactly; `None` where the text is no numeral or the
/// mantissa's magnitude exceeds `i64::MAX`.
pub fn parse_decimal(s: &str) -> (r: Option<Decimal>)
    ensures
        r == decimal_of_text(s@),
{
    let cs = chars_of(s);
    let len = cs.len();
    let mut start: usize = 0;
    let mut neg = false;
    if len > 0 && (cs[0] == '+' || cs[0] == '-') {
        start = 1;
        neg = cs[0] == '-';
    }
    proof {
        let (body, n) = strip_sign(cs@, true);
        if start == 1 {
            assert(body =~= cs@.subrange(1, len as int));
        } else {
            assert(body =~= cs@.subrange(0, len as int));
        }
        assert(n == neg);
    }
    match scan_chars(&cs, start, len, i64::MAX as u64) {
        Some((v, n, frac)) => if n >= 1 {
            let scale: usize = match frac {
                Some(f) => f,
                None => 0,
            };
            let m: i64 = if neg { 0 - (v as i64) } else { v as i64 };
            Some(Decimal { mantissa: m, scale })
        } else {
            None
        },
        None => {
            proof {
                let body = cs@.subrange(start as int, len as int);
                if scan_numeral(body) is Some {
                    lemma_scan_nonneg(body);
                }
            }
            None
        },
    }
}

pub open spec fn pow10(n: nat) -> int
    decreases n,
{
    if n == 0 {
        1
    } else {
        10 * pow10((n - 1) as nat)
    }
}

pub proof fn lemma_pow10_positive(n: nat)
    ensures
        pow10(n) > 0,
    decreases n,
{
    if n > 0 {
        lemma_pow10_positive((n - 1) as nat);
    }
}

/// The whole units of the non-negative decimal that `s` writes (what stands
/// after the point dropped), where they fit in a `u32`.
pub open spec fn whole_u32_of_text(s: Seq<char>) -> Option<u32> {
    match decimal_of_text(s) {
        Some(d) => if d.mantissa >= 0 && (d.mantissa as int) / pow10(d.scale as nat) <= u32::MAX {
            Some(((d.mantissa as int) / pow10(d.scale as nat)) as u32)
        } else {
            None
        },
        None => None,
    }
}

/// Reads a non-negative decimal and keeps its whole units.
pub fn parse_whole_u32(s: &str) -> (r: Option<u32>)
    ensures
        r == whole_u32_of_text(s@),
{
    let d = match parse_decimal(s) {
        Some(d) => d,
        None => return None,
    };
    if d.mantissa < 0 {
        return None;
    }
    let m = d.mantissa as u64;
    let mut q = m;
    let mut i: usize = 0;
    proof {
        assert(pow10(0) == 1);
    }
    while i < d.scale
        invariant
            i <= d.scale,
            d.mantissa >= 0,
            m == d.mantissa,
            q == (m as int) / pow10(i as nat),
        decreases d.scale - i,
    {
        proof {
            lemma_pow10_positive(i as nat);
            lemma_div_denominator(m as int, pow10(i as nat), 10);
            assert(pow10((i + 1) as nat) == pow10(i as nat) * 10);
        }
        q = q / 10;
        i = i + 1;
    }
    if q <= u32::MAX as u64 {
        Some(q as u32)
    } else {
        None
    }
}

/// The digits of `m`, with leading zeros so that more than `scale` stand.
pub open spec fn padded_digits(m: nat, scale: nat) -> Seq<char> {
    let d = decimal_chars(m);
    if d.len() > scale {
        d
    } else {
        Seq::new((scale + 1 - d.len()) as nat, |i: int| '0') + d
    }
}

/// How a decimal is written: a '-' where negative, then its digits with a
/// '.' before the last `scale` of them.
pub open spec fn decimal_text(d: Decimal) -> Seq<char> {
    let m: nat = if d.mantissa < 0 { (-d.mantissa) as nat } else { d.mantissa as nat };
    let digits = padded_digits(m, d.scale as nat);
    let sign = if d.mantissa < 0 { seq!['-'] } else { Seq::empty() };
    if d.scale == 0 {
        sign + digits
    } else {
        sign + digits.subrange(0, digits.len() - d.scale) + seq!['.'] + digits.subrange(
            digits.len() - d.scale,
            digits.len() as int,
        )
    }
}

proof fn lemma_decimal_chars_nonempty(n: nat)
    ensures
        decimal_chars(n).len() >= 1,
    decreases n,
{
    if n >= 10 {
        lemma_decimal_chars_nonempty(n / 10);
    }
}

impl Decimal {
    /// The decimal written out, e.g. `68985.41`.
    pub fn to_text(&self) -> (r: String)
        ensures
            r@ == decimal_text(*self),
    {
        let neg = self.mantissa < 0;
        let m: u64 = if neg { (0i128 - self.mantissa as i128) as u64 } else { self.mantissa as u64 };
        let mut d: Vec<char> = Vec::new();
        push_decimal(&mut d, m);
        assert(d@ =~= decimal_chars(m as nat));
        proof {
            lemma_decimal_chars_nonempty(m as nat);
        }
        let mut digits: Vec<char> = Vec::new();
        if d.len() <= self.scale {
            let need = self.scale - d.len() + 1;
            let mut k: usize = 0;
            while k < need
                invariant
                    need == self.scale - d.len() + 1,
                    k <= need,
                    digits@ =~= Seq::new(k as nat, |i: int| '0'),
                decreases need - k,
            {
                digits.push('0');
                k = k + 1;
            }
        }
        digits.append(&mut d);
        let ghost pd = padded_digits(m as nat, self.scale as nat);
        assert(digits@ =~= pd);
        let mut out: Vec<char> = Vec::new();
        if neg {
            out.push('-');
        }
        let cut = digits.len() - self.scale;
        let mut i: usize = 0;
        while i < digits.len()
            invariant
                cut == digits.len() - self.scale,
                cut >= 1,
                i <= digits.len(),
                digits@ == pd,
                out@ =~= (if neg { seq!['-'] } else { Seq::<char>::empty() }) + (if i <= cut {
                    pd.subrange(0, i as int)
                } else {
                    pd.subrange(0, cut as int) + seq!['.'] + pd.subrange(cut as int, i as int)
                }),
            decreases digits.len() - i,
        {
            if i == cut {
                out.push('.');
            }
            out.push(digits[i]);
            i = i + 1;
        }
        if self.scale == 0 {
            assert(pd.subrange(0, pd.len() as int) =~= pd);
        }
        string_of(out.as_slice())
    }
}

} // verus!
