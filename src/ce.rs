//! The combined table that merges both exchanges' rows.
use crate::numeric::{parse_u32, u32_of_text};
use crate::text::{trim, trim_text};
use vstd::prelude::*;

verus! {

/// The store's answer to the rebuild of the combined table is no row count.
#[derive(Clone, Copy, Debug, PartialEq, Eq, Structural)]
pub struct NotACount;

/// Reads the number of rows that rebuilding the combined table reports: the
/// store prints it alone, perhaps with white space around it.
pub fn run(output: &str) -> (r: Result<u32, NotACount>)
    ensures
        match u32_of_text(trim(output@)) {
            Some(n) => r == Ok::<u32, NotACount>(n),
            None => r == Err::<u32, NotACount>(NotACount),
        },
{
    let t = trim_text(output);
    match parse_u32(t.as_str()) {
        Some(n) => Ok(n),
        None => Err(NotACount),
    }
}

} // verus!
