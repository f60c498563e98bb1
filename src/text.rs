//! Characters of strings, and strings built from characters.
use vstd::prelude::*;

verus! {

/// Relies on `str::chars`: the characters of `s`, in order.
#[verifier::external_body]
pub fn chars_of(s: &str) -> (r: Vec<char>)
    ensures
        r@ == s@,
{
    s.chars().collect()
}

/// Relies on `String`'s `FromIterator<char>`: the string of the given characters.
#[verifier::external_body]
pub fn string_of(cs: &[char]) -> (r: String)
    ensures
        r@ == cs@,
{
    cs.iter().collect()
}

/// The characters with the Unicode property White_Space, which `str::trim` removes.
pub open spec fn is_white_space(c: char) -> bool {
    let u = c as u32;
    ||| 0x09 <= u <= 0x0d
    ||| u == 0x20
    ||| u == 0x85
    ||| u == 0xa0
    ||| u == 0x1680
    ||| 0x2000 <= u <= 0x200a
    ||| u == 0x2028
    ||| u == 0x2029
    ||| u == 0x202f
    ||| u == 0x205f
    ||| u == 0x3000
}

pub open spec fn trim_start(s: Seq<char>) -> Seq<char>
    decreases s.len(),
{
    if s.len() > 0 && is_white_space(s[0]) {
        trim_start(s.drop_first())
    } else {
        s
    }
}

pub open spec fn trim_end(s: Seq<char>) -> Seq<char>
    decreases s.len(),
{
    if s.len() > 0 && is_white_space(s.last()) {
        trim_end(s.drop_last())
    } else {
        s
    }
}

/// `s` without white space at either end.
pub open spec fn trim(s: Seq<char>) -> Seq<char> {
    trim_end(trim_start(s))
}

/// What follows the first '\n' of `s`, if it has one.
pub open spec fn after_newline(s: Seq<char>) -> Option<Seq<char>>
    decreases s.len(),
{
    if s.len() == 0 {
        None
    } else if s[0] == '\n' {
        Some(s.drop_first())
    } else {
        after_newline(s.drop_first())
    }
}

/// What follows the first `n` lines of `s`; empty where `s` has fewer line breaks.
pub open spec fn skip_lines(s: Seq<char>, n: nat) -> Seq<char>
    decreases n,
{
    if n == 0 {
        s
    } else {
        match after_newline(s) {
            Some(rest) => skip_lines(rest, (n - 1) as nat),
            None => Seq::empty(),
        }
    }
}

fn is_white_space_char(c: char) -> (r: bool)
    ensures
        r == is_white_space(c),
{
    let u = c as u32;
    (0x09 <= u && u <= 0x0d) || u == 0x20 || u == 0x85 || u == 0xa0 || u == 0x1680 || (0x2000 <= u
        && u <= 0x200a) || u == 0x2028 || u == 0x2029 || u == 0x202f || u == 0x205f || u == 0x3000
}

/// The index just past the first '\n' at or after `from`, if there is one.
fn next_line_start(cs: &Vec<char>, from: usize) -> (r: Option<usize>)
    requires
        from <= cs.len(),
    ensures
        match r {
            Some(k) => from < k <= cs.len() && after_newline(cs@.subrange(from as int, cs.len() as int))
                == Some(cs@.subrange(k as int, cs.len() as int)),
            None => after_newline(cs@.subrange(from as int, cs.len() as int)) is None,
        },
{
    let len = cs.len();
    let mut i = from;
    while i < len
        invariant
            from <= i <= len == cs.len(),
            after_newline(cs@.subrange(from as int, len as int)) == after_newline(
                cs@.subrange(i as int, len as int),
            ),
        decreases len - i,
    {
        let ghost t = cs@.subrange(i as int, len as int);
        assert(t.drop_first() =~= cs@.subrange(i + 1, len as int));
        if cs[i] == '\n' {
            return Some(i + 1);
        }
        i = i + 1;
    }
    None
}

/// The text after the first `n` lines of `s`, trimmed of white space at both ends.
pub fn body_after_lines(s: &str, n: usize) -> (r: String)
    ensures
        r@ == trim(skip_lines(s@, n as nat)),
{
    let cs = chars_of(s);
    let len = cs.len();
    let mut start: usize = 0;
    let mut k: usize = 0;
    let mut found = true;
    assert(cs@.subrange(0, len as int) =~= cs@);
    while k < n
        invariant
            k <= n,
            start <= len == cs.len(),
            cs@ == s@,
            found ==> skip_lines(s@, n as nat) == skip_lines(cs@.subrange(start as int, len as int), (n - k) as nat),
            !found ==> skip_lines(s@, n as nat) == Seq::<char>::empty(),
        decreases n - k,
    {
        if found {
            match next_line_start(&cs, start) {
                Some(next) => {
                    start = next;
                },
                None => {
                    found = false;
                },
            }
        }
        k = k + 1;
    }
    if !found {
        start = len;
        assert(trim(Seq::<char>::empty()) =~= Seq::<char>::empty());
        assert(cs@.subrange(len as int, len as int) =~= Seq::<char>::empty());
    }
    let ghost body = cs@.subrange(start as int, len as int);
    assert(skip_lines(s@, n as nat) == body) by {
        if found {
            assert(skip_lines(body, 0) == body);
        }
    }
    let mut a = start;
    while a < len && is_white_space_char(cs[a])
        invariant
            start <= a <= len == cs.len(),
            trim_start(body) == trim_start(cs@.subrange(a as int, len as int)),
        decreases len - a,
    {
        assert(cs@.subrange(a as int, len as int).drop_first() =~= cs@.subrange(a + 1, len as int));
        a = a + 1;
    }
    let ghost front = cs@.subrange(a as int, len as int);
    assert(trim_start(front) == front);
    let mut b = len;
    assert(front.subrange(0, (b - a) as int) =~= front);
    while b > a && is_white_space_char(cs[b - 1])
        invariant
            a <= b <= len == cs.len(),
            front == cs@.subrange(a as int, len as int),
            trim_end(front) == trim_end(cs@.subrange(a as int, b as int)),
        decreases b - a,
    {
        assert(cs@.subrange(a as int, b as int).drop_last() =~= cs@.subrange(a as int, b - 1));
        b = b - 1;
    }
    assert(trim_end(cs@.subrange(a as int, b as int)) == cs@.subrange(a as int, b as int));
    string_of(&cs.as_slice()[a..b])
}

/// `s` without its ',' and ' ' characters.
pub open spec fn without_separators(s: Seq<char>) -> Seq<char> {
    s.filter(|c: char| c != ',' && c != ' ')
}

/// Relies on `regex::Regex::new` and `Regex::replace_all` with an empty
/// replacement: with the pattern `,| ` every match is a single ',' or ' ',
/// and each match is deleted.
#[verifier::external_body]
fn regex_delete_all(pattern: &str, s: &str) -> (r: Option<String>)
    ensures
        pattern@ == seq![',', '|', ' '] ==> r is Some && r.unwrap()@ == without_separators(s@),
{
    regex::Regex::new(pattern).ok().map(|re| re.replace_all(s, "").into_owned())
}

/// Deletes the thousands separators (',') and the spaces inside cells.
pub fn strip_separators(s: &str) -> (r: String)
    ensures
        r@ == without_separators(s@),
{
    let pattern = ",| ";
    proof {
        reveal_strlit(",| ");
        assert(pattern@ =~= seq![',', '|', ' ']);
    }
    match regex_delete_all(pattern, s) {
        Some(t) => t,
        None => String::new(),
    }
}

pub open spec fn digit_char(d: nat) -> char {
    ((48 + d) as u8) as char
}

/// The decimal numeral of `n`, without leading zeros.
pub open spec fn decimal_chars(n: nat) -> Seq<char>
    decreases n,
{
    if n < 10 {
        seq![digit_char(n)]
    } else {
        decimal_chars(n / 10).push(digit_char(n % 10))
    }
}

/// Appends the decimal numeral of `n`.
pub fn push_decimal(out: &mut Vec<char>, n: u64)
    ensures
        final(out)@ == old(out)@ + decimal_chars(n as nat),
    decreases n,
{
    if n >= 10 {
        push_decimal(out, n / 10);
    }
    let d = (n % 10) as u8;
    out.push((48u8 + d) as char);
    proof {
        if n >= 10 {
            assert(old(out)@ + decimal_chars(n as nat) =~= old(out)@ + decimal_chars((n / 10) as nat) + seq![digit_char((n % 10) as nat)]);
        } else {
            assert(old(out)@ + decimal_chars(n as nat) =~= old(out)@ + seq![digit_char(n as nat)]);
        }
    }
}

/// Appends the characters of `s`.
pub fn push_str(out: &mut Vec<char>, s: &str)
    ensures
        final(out)@ == old(out)@ + s@,
{
    let mut t = chars_of(s);
    out.append(&mut t);
}

/// `s` without white space at either end.
pub fn trim_text(s: &str) -> (r: String)
    ensures
        r@ == trim(s@),
{
    body_after_lines(s, 0)
}

/// `s` ends with `suffix`.
pub open spec fn ends_with(s: Seq<char>, suffix: Seq<char>) -> bool {
    s.len() >= suffix.len() && s.subrange(s.len() - suffix.len(), s.len() as int) == suffix
}

/// `t` occurs in `s` at `i`.
pub open spec fn occurs_at(s: Seq<char>, t: Seq<char>, i: int) -> bool {
    0 <= i && i + t.len() <= s.len() && s.subrange(i, i + t.len()) == t
}

/// `t` occurs somewhere in `s`.
pub open spec fn contains(s: Seq<char>, t: Seq<char>) -> bool {
    exists|i: int| occurs_at(s, t, i)
}

fn matches_at(s: &Vec<char>, t: &Vec<char>, i: usize) -> (r: bool)
    requires
        i + t.len() <= s.len(),
    ensures
        r == occurs_at(s@, t@, i as int),
{
    let mut j: usize = 0;
    while j < t.len()
        invariant
            j <= t.len(),
            i + t.len() <= s.len(),
            forall|k: int| 0 <= k < j ==> s@[i + k] == t@[k],
        decreases t.len() - j,
    {
        if s[i + j] != t[j] {
            assert(s@.subrange(i as int, i + t.len())[j as int] != t@[j as int]);
            return false;
        }
        j = j + 1;
    }
    assert(s@.subrange(i as int, i + t.len()) =~= t@);
    true
}

/// Whether `s` ends with `suffix`.
pub fn ends_with_text(s: &str, suffix: &str) -> (r: bool)
    ensures
        r == ends_with(s@, suffix@),
{
    let x = chars_of(s);
    let y = chars_of(suffix);
    if x.len() < y.len() {
        return false;
    }
    let r = matches_at(&x, &y, x.len() - y.len());
    r
}

/// Whether `t` occurs in `s`.
pub fn contains_text(s: &str, t: &str) -> (r: bool)
    ensures
        r == contains(s@, t@),
{
    let x = chars_of(s);
    let y = chars_of(t);
    if x.len() < y.len() {
        assert forall|i: int| !occurs_at(s@, t@, i) by {}
        return false;
    }
    let last = x.len() - y.len();
    let mut i: usize = 0;
    loop
        invariant
            last == x.len() - y.len(),
            x@ == s@,
            y@ == t@,
            i <= last,
            forall|k: int| 0 <= k < i ==> !occurs_at(s@, t@, k),
        decreases last - i,
    {
        if matches_at(&x, &y, i) {
            return true;
        }
        if i == last {
            assert forall|k: int| !occurs_at(s@, t@, k) by {
                if 0 <= k < i {
                }
            }
            return false;
        }
        i = i + 1;
    }
}

} // verus!
