//! The year arguments and exchange names that the command line takes.
use crate::dce::parse::text_eq;
use crate::text::chars_of;
use vstd::prelude::*;

verus! {

/// A year, or the years from `start` up to but not including `end`.
#[derive(Clone, Copy, Debug, PartialEq, Eq, Structural)]
pub enum Year {
    Single(u16),
    Range { start: u16, end: u16 },
}

pub open spec fn ascii_digit(c: char) -> bool {
    '0' <= c && c <= '9'
}

pub open spec fn four_digits(s: Seq<char>, k: int) -> bool {
    ascii_digit(s[k]) && ascii_digit(s[k + 1]) && ascii_digit(s[k + 2]) && ascii_digit(s[k + 3])
}

pub open spec fn four_digit_value(s: Seq<char>, k: int) -> int {
    (s[k] as int - 48) * 1000 + (s[k + 1] as int - 48) * 100 + (s[k + 2] as int - 48) * 10 + (s[
        k + 3
    ] as int - 48)
}

/// What a year argument means: four digits, or four digits, `..` and four
/// digits.
pub open spec fn year_arg(s: Seq<char>) -> Option<Year> {
    if s.len() == 4 && four_digits(s, 0) {
        Some(Year::Single(four_digit_value(s, 0) as u16))
    } else if s.len() == 10 && four_digits(s, 0) && s[4] == '.' && s[5] == '.' && four_digits(s, 6) {
        Some(Year::Range { start: four_digit_value(s, 0) as u16, end: four_digit_value(s, 6) as u16 })
    } else {
        None
    }
}

fn four_digits_at(cs: &Vec<char>, k: usize) -> (r: Option<u16>)
    requires
        k + 4 <= cs.len(),
    ensures
        four_digits(cs@, k as int) ==> r == Some(four_digit_value(cs@, k as int) as u16),
        !four_digits(cs@, k as int) ==> r is None,
{
    let (a, b, c, d) = (cs[k], cs[k + 1], cs[k + 2], cs[k + 3]);
    if '0' <= a && a <= '9' && '0' <= b && b <= '9' && '0' <= c && c <= '9' && '0' <= d && d <= '9' {
        let v = (a as u32 - 48) * 1000 + (b as u32 - 48) * 100 + (c as u32 - 48) * 10 + (d as u32 - 48);
        Some(v as u16)
    } else {
        None
    }
}

impl Year {
    /// Reads a year argument such as `2022` or `2010..2023`.
    pub fn parse(s: &str) -> (r: Option<Year>)
        ensures
            r == year_arg(s@),
    {
        let cs = chars_of(s);
        if cs.len() == 4 {
            match four_digits_at(&cs, 0) {
                Some(y) => Some(Year::Single(y)),
                None => None,
            }
        } else if cs.len() == 10 && cs[4] == '.' && cs[5] == '.' {
            match (four_digits_at(&cs, 0), four_digits_at(&cs, 6)) {
                (Some(start), Some(end)) => Some(Year::Range { start, end }),
                _ => None,
            }
        } else {
            None
        }
    }

    /// The years meant, in ascending order.
    pub fn years(&self) -> (r: Vec<u16>)
        ensures
            match *self {
                Year::Single(y) => r@ == seq![y],
                Year::Range { start, end } => r@.len() == if start < end { end - start } else { 0 }
                    && forall|i: int| 0 <= i < r@.len() ==> #[trigger] r@[i] == start + i,
            },
    {
        match self {
            Year::Single(y) => {
                let mut v: Vec<u16> = Vec::new();
                v.push(*y);
                assert(v@ =~= seq![*y]);
                v
            },
            Year::Range { start, end } => {
                let mut v: Vec<u16> = Vec::new();
                let mut y = *start;
                while y < *end
                    invariant
                        *start <= y,
                        y <= *end || *start >= *end,
                        *start >= *end ==> y == *start,
                        v@.len() == y - *start,
                        forall|i: int| 0 <= i < v@.len() ==> #[trigger] v@[i] == *start + i,
                    decreases *end - y,
                {
                    v.push(y);
                    y = y + 1;
                }
                v
            },
        }
    }
}

/// The two exchanges.
#[allow(non_camel_case_types)]
#[derive(Clone, Copy, Debug, PartialEq, Eq, Structural)]
pub enum Exchange {
    czce,
    dce,
}

pub open spec fn exchange_named(s: Seq<char>) -> Option<Exchange> {
    if s == "czce"@ || s == "CZCE"@ || s == "郑州"@ {
        Some(Exchange::czce)
    } else if s == "dce"@ || s == "DCE"@ || s == "大连"@ {
        Some(Exchange::dce)
    } else {
        None
    }
}

impl Exchange {
    /// The exchange that a name means: its code in either case, or its city.
    pub fn parse(s: &str) -> (r: Option<Exchange>)
        ensures
            r == exchange_named(s@),
    {
        if text_eq(s, "czce") || text_eq(s, "CZCE") || text_eq(s, "郑州") {
            Some(Exchange::czce)
        } else if text_eq(s, "dce") || text_eq(s, "DCE") || text_eq(s, "大连") {
            Some(Exchange::dce)
        } else {
            None
        }
    }
}

} // verus!
