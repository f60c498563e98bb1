//! Loading a payload into the analytic store: the commands that a load runs,
//! their SQL, and a model of what they do to the stored rows.
use crate::date::Date;
use crate::numeric::{parse_u64, u64_of_text, Decimal};
use crate::text::{push_decimal, push_str, string_of, trim, trim_text, decimal_chars};
use vstd::prelude::*;

verus! {

/// One step of a load.
#[derive(Clone, Copy, Debug, PartialEq, Eq, Structural)]
pub enum Command {
    /// Query the number of rows.
    Count,
    /// Insert the payload, as CSV.
    Insert,
    /// Fold rows with the same (date, code) into one.
    Deduplicate,
    /// Turn the zero delivery settlement prices of this year into nulls.
    ClearZeroDsp { year: u16 },
}

/// The steps of a load: count, insert, deduplicate, count again.
pub open spec fn load_steps() -> Seq<Command> {
    seq![Command::Count, Command::Insert, Command::Deduplicate, Command::Count]
}

/// The steps that load a payload and report the counts before and after.
pub fn insert_with_count_reported() -> (r: Vec<Command>)
    ensures
        r@ == load_steps(),
{
    let r = vec![Command::Count, Command::Insert, Command::Deduplicate, Command::Count];
    assert(r@ =~= load_steps());
    r
}

/// The SQL of a step on `table`.
pub open spec fn sql_of(cmd: Command, table: Seq<char>) -> Seq<char> {
    match cmd {
        Command::Count => "SELECT count(*) FROM "@ + table,
        Command::Insert => "INSERT INTO "@ + table + " FORMAT CSV"@,
        Command::Deduplicate => "OPTIMIZE TABLE "@ + table + " DEDUPLICATE BY date, code"@,
        Command::ClearZeroDsp { year } => "ALTER TABLE "@ + table
            + " UPDATE dsp=Null WHERE dsp==0 AND year(date)=="@ + decimal_chars(year as nat) + ";"@,
    }
}

impl Command {
    /// The SQL of this step on `table`.
    pub fn sql(&self, table: &str) -> (r: String)
        ensures
            r@ == sql_of(*self, table@),
    {
        let mut out: Vec<char> = Vec::new();
        match self {
            Command::Count => {
                push_str(&mut out, "SELECT count(*) FROM ");
                push_str(&mut out, table);
            },
            Command::Insert => {
                push_str(&mut out, "INSERT INTO ");
                push_str(&mut out, table);
                push_str(&mut out, " FORMAT CSV");
            },
            Command::Deduplicate => {
                push_str(&mut out, "OPTIMIZE TABLE ");
                push_str(&mut out, table);
                push_str(&mut out, " DEDUPLICATE BY date, code");
            },
            Command::ClearZeroDsp { year } => {
                push_str(&mut out, "ALTER TABLE ");
                push_str(&mut out, table);
                push_str(&mut out, " UPDATE dsp=Null WHERE dsp==0 AND year(date)==");
                push_decimal(&mut out, *year as u64);
                push_str(&mut out, ";");
            },
        }
        string_of(out.as_slice())
    }
}

/// Reads a row count that the store printed (surrounding white space allowed).
pub fn parse_count(output: &str) -> (r: Option<u64>)
    ensures
        r == u64_of_text(trim(output@)),
{
    let t = trim_text(output);
    parse_u64(t.as_str())
}

/// How many rows a load added, from the counts before and after; `None`
/// where a count does not read or the count fell.
pub fn added_rows(before: &str, after: &str) -> (r: Option<u64>)
    ensures
        match (u64_of_text(trim(before@)), u64_of_text(trim(after@))) {
            (Some(b), Some(a)) => if a >= b {
                r == Some((a - b) as u64)
            } else {
                r is None
            },
            _ => r is None,
        },
{
    match (parse_count(before), parse_count(after)) {
        (Some(b), Some(a)) => if a >= b {
            Some(a - b)
        } else {
            None
        },
        _ => None,
    }
}

/// A stored row, as far as the steps look at it.
pub struct StoredRow {
    pub date: Date,
    pub code: Seq<char>,
    pub dsp: Option<Decimal>,
}

pub open spec fn row_key(r: StoredRow) -> (Date, Seq<char>) {
    (r.date, r.code)
}

pub open spec fn has_key(s: Seq<StoredRow>, k: (Date, Seq<char>)) -> bool {
    exists|i: int| 0 <= i < s.len() && row_key(#[trigger] s[i]) == k
}

pub open spec fn keys_distinct(s: Seq<StoredRow>) -> bool {
    forall|i: int, j: int| 0 <= i < j < s.len() ==> row_key(#[trigger] s[i]) != row_key(#[trigger] s[j])
}

/// The rows with one row kept for each (date, code).
pub open spec fn deduplicated(s: Seq<StoredRow>) -> Seq<StoredRow>
    decreases s.len(),
{
    if s.len() == 0 {
        s
    } else {
        let before = deduplicated(s.drop_last());
        if has_key(before, row_key(s.last())) {
            before
        } else {
            before.push(s.last())
        }
    }
}

/// A delivery settlement price that is present and zero.
pub open spec fn is_zero_dsp(dsp: Option<Decimal>) -> bool {
    match dsp {
        Some(d) => d.is_zero(),
        None => false,
    }
}

pub open spec fn cleared(r: StoredRow, year: u16) -> StoredRow {
    if r.date.year == year as i32 && is_zero_dsp(r.dsp) {
        StoredRow { dsp: None, ..r }
    } else {
        r
    }
}

/// The rows with the zero delivery settlement prices of `year` cleared.
pub open spec fn clear_year(s: Seq<StoredRow>, year: u16) -> Seq<StoredRow> {
    s.map_values(|r: StoredRow| cleared(r, year))
}

/// What a step does to the stored rows, given the payload.
pub open spec fn apply(store: Seq<StoredRow>, cmd: Command, payload: Seq<StoredRow>) -> Seq<StoredRow> {
    match cmd {
        Command::Count => store,
        Command::Insert => store + payload,
        Command::Deduplicate => deduplicated(store),
        Command::ClearZeroDsp { year } => clear_year(store, year),
    }
}

/// The stored rows after the steps, in order.
pub open spec fn run_steps(store: Seq<StoredRow>, steps: Seq<Command>, payload: Seq<StoredRow>) -> Seq<StoredRow>
    decreases steps.len(),
{
    if steps.len() == 0 {
        store
    } else {
        apply(run_steps(store, steps.drop_last(), payload), steps.last(), payload)
    }
}

pub proof fn lemma_dedup_keys(s: Seq<StoredRow>, k: (Date, Seq<char>))
    ensures
        has_key(deduplicated(s), k) <==> has_key(s, k),
        keys_distinct(deduplicated(s)),
    decreases s.len(),
{
    if s.len() > 0 {
        let t = s.drop_last();
        lemma_dedup_keys(t, k);
        lemma_dedup_keys(t, row_key(s.last()));
        let d = deduplicated(t);
        if has_key(s, k) {
            let i = choose|i: int| 0 <= i < s.len() && row_key(#[trigger] s[i]) == k;
            if i < s.len() - 1 {
                assert(t[i] == s[i]);
            }
        }
        if has_key(t, k) {
            let i = choose|i: int| 0 <= i < t.len() && row_key(#[trigger] t[i]) == k;
            assert(s[i] == t[i]);
        }
        if row_key(s.last()) == k {
            assert(row_key(s[s.len() - 1]) == k);
        }
        if !has_key(d, row_key(s.last())) {
            let e = d.push(s.last());
            assert(e[d.len() as int] == s.last());
            assert(row_key(e[d.len() as int]) == row_key(s.last()));
            if has_key(d, k) {
                let i = choose|i: int| 0 <= i < d.len() && row_key(#[trigger] d[i]) == k;
                assert(e[i] == d[i]);
            }
            if has_key(e, k) {
                let i = choose|i: int| 0 <= i < e.len() && row_key(#[trigger] e[i]) == k;
                if i < d.len() {
                    assert(e[i] == d[i]);
                }
            }
            assert forall|i: int, j: int| 0 <= i < j < e.len() implies row_key(#[trigger] e[i]) != row_key(#[trigger] e[j]) by {
                if j == d.len() {
                    assert(e[i] == d[i]);
                } else {
                    assert(e[i] == d[i] && e[j] == d[j]);
                }
            }
        } else {
            if row_key(s.last()) == k {
                assert(has_key(d, k));
            }
        }
    }
}

pub proof fn lemma_dedup_keys_distinct(s: Seq<StoredRow>)
    ensures
        keys_distinct(deduplicated(s)),
{
    if s.len() > 0 {
        lemma_dedup_keys(s, row_key(s.last()));
    }
}

pub proof fn lemma_dedup_distinct(s: Seq<StoredRow>)
    requires
        keys_distinct(s),
    ensures
        deduplicated(s) == s,
    decreases s.len(),
{
    if s.len() > 0 {
        let t = s.drop_last();
        assert(keys_distinct(t)) by {
            assert forall|i: int, j: int| 0 <= i < j < t.len() implies row_key(#[trigger] t[i]) != row_key(#[trigger] t[j]) by {
                assert(t[i] == s[i] && t[j] == s[j]);
            }
        }
        lemma_dedup_distinct(t);
        if has_key(t, row_key(s.last())) {
            let i = choose|i: int| 0 <= i < t.len() && row_key(#[trigger] t[i]) == row_key(s.last());
            assert(t[i] == s[i]);
            assert(row_key(s[i]) != row_key(s[s.len() - 1]));
        }
        assert(t.push(s.last()) =~= s);
    }
}

pub proof fn lemma_dedup_known_keys(x: Seq<StoredRow>, p: Seq<StoredRow>)
    requires
        forall|i: int| 0 <= i < p.len() ==> has_key(x, row_key(#[trigger] p[i])),
    ensures
        deduplicated(x + p) == deduplicated(x),
    decreases p.len(),
{
    if p.len() == 0 {
        assert(x + p =~= x);
    } else {
        let q = p.drop_last();
        assert forall|i: int| 0 <= i < q.len() implies has_key(x, row_key(#[trigger] q[i])) by {
            assert(q[i] == p[i]);
        }
        lemma_dedup_known_keys(x, q);
        assert((x + p).drop_last() =~= x + q);
        assert((x + p).last() == p.last());
        assert(has_key(x, row_key(p[p.len() - 1])));
        lemma_dedup_keys(x, row_key(p.last()));
    }
}

pub proof fn lemma_cleared_keys(s: Seq<StoredRow>, year: u16)
    ensures
        forall|k: (Date, Seq<char>)| has_key(s, k) ==> #[trigger] has_key(clear_year(s, year), k),
        keys_distinct(s) ==> keys_distinct(clear_year(s, year)),
        clear_year(s, year).len() == s.len(),
{
    let c = clear_year(s, year);
    assert forall|k: (Date, Seq<char>)| has_key(s, k) implies #[trigger] has_key(c, k) by {
        let i = choose|i: int| 0 <= i < s.len() && row_key(#[trigger] s[i]) == k;
        assert(row_key(c[i]) == row_key(s[i]));
    }
    if keys_distinct(s) {
        assert forall|i: int, j: int| 0 <= i < j < c.len() implies row_key(#[trigger] c[i]) != row_key(#[trigger] c[j]) by {
            assert(row_key(c[i]) == row_key(s[i]) && row_key(c[j]) == row_key(s[j]));
        }
    }
}

} // verus!
