//! The rules of metric sampling: how many rounds a run takes, when a
//! battery is too low to go on, and the rows written for each sample.
use vstd::prelude::*;

use crate::number::{decimal, decimal_spec, decimal_u64};

verus! {

/// Seconds between two samples.
pub const SAMPLE_PERIOD: u32 = 5;

/// Capacity, in percent, at or below which sampling stops.
pub const LOW_CAPACITY: u32 = 5;

/// The number of sampling rounds for a run of `seconds`: one per started period.
pub fn sample_rounds(seconds: u32) -> (r: u32)
    ensures
        r == (seconds as int + SAMPLE_PERIOD - 1) / (SAMPLE_PERIOD as int),
{
    ((seconds as u64 + (SAMPLE_PERIOD as u64 - 1)) / SAMPLE_PERIOD as u64) as u32
}

/// Whether a battery at `capacity` percent should stop the sampling.
pub fn battery_low(capacity: u32) -> (r: bool)
    ensures
        r == (capacity <= LOW_CAPACITY),
{
    capacity <= LOW_CAPACITY
}

pub open spec fn string_views(v: Seq<String>) -> Seq<Seq<char>> {
    v.map_values(|s: String| s@)
}

/// The header row of a sample file: `timestamp`, then one column per source.
pub fn header_row(names: &Vec<String>) -> (r: Vec<String>)
    ensures
        string_views(r@) == seq!["timestamp"@] + string_views(names@),
{
    let mut row: Vec<String> = Vec::new();
    row.push(String::from_str("timestamp"));
    let mut i: usize = 0;
    while i < names.len()
        invariant
            i <= names.len(),
            string_views(row@) == seq!["timestamp"@] + string_views(names@).take(i as int),
        decreases names.len() - i,
    {
        let ghost before = row@;
        row.push(names[i].clone());
        assert(string_views(row@) =~= string_views(before).push(names@[i as int]@));
        assert(string_views(names@).take(i + 1) =~= string_views(names@).take(i as int).push(
            names@[i as int]@,
        ));
        i = i + 1;
    }
    assert(string_views(names@).take(names.len() as int) =~= string_views(names@));
    row
}

/// A row of a sample file: the time in seconds, then each value, in decimal.
pub fn sample_row(timestamp: u64, values: &Vec<u32>) -> (r: Vec<String>)
    ensures
        r@.len() == values@.len() + 1,
        r@[0]@ == decimal_spec(timestamp as nat),
        forall|i: int| 0 <= i < values@.len() ==> #[trigger] r@[i + 1]@ == decimal_spec(values@[i] as nat),
{
    let mut row: Vec<String> = Vec::new();
    row.push(decimal_u64(timestamp));
    let mut i: usize = 0;
    while i < values.len()
        invariant
            i <= values.len(),
            row@.len() == i + 1,
            row@[0]@ == decimal_spec(timestamp as nat),
            forall|j: int| 0 <= j < i ==> #[trigger] row@[j + 1]@ == decimal_spec(values@[j] as nat),
        decreases values.len() - i,
    {
        row.push(decimal(values[i]));
        i = i + 1;
    }
    row
}

} // verus!
