//! The Markdown table exporter.
//!
//! The table carries one row per benchmark result: the command (with pipes
//! escaped), its mean with the standard deviation, and its range. The unit
//! for all rows is the one the first result's mean calls for; an empty
//! result set falls back to seconds.

use crate::text::{replace_spec, replace_str};
use crate::types::BenchmarkResult;
use crate::units::{format_unit_spec, short_name_spec, unit_of, Unit};
use vstd::prelude::*;

verus! {

/// The table header for the given unit abbreviation.
pub open spec fn table_header_spec(unit_short_name: Seq<char>) -> Seq<char> {
    "| Command | Mean ["@ + unit_short_name + "] | Min…Max ["@ + unit_short_name
        + "] |\n|:---|---:|---:|\n"@
}

/// A command name with every pipe escaped, so it cannot break the table.
pub open spec fn escaped_command(command: Seq<char>) -> Seq<char> {
    replace_spec(command, "|"@, "\\|"@)
}

/// One table row: the escaped command, mean with standard deviation (zero
/// when unknown), and the range, all in the table's unit.
pub open spec fn table_row_spec(entry: BenchmarkResult, unit: Unit) -> Seq<char> {
    let sd = match entry.stddev {
        Some(v) => v,
        None => 0u64,
    };
    "| `"@ + escaped_command(entry.command@) + "` | "@ + format_unit_spec(entry.mean, unit)
        + " ± "@ + format_unit_spec(sd, unit) + " | "@ + format_unit_spec(entry.min, unit) + "…"@
        + format_unit_spec(entry.max, unit) + " |\n"@
}

/// The rows of all results, in order.
pub open spec fn table_rows_spec(results: Seq<BenchmarkResult>, unit: Unit) -> Seq<char>
    decreases results.len(),
{
    if results.len() == 0 {
        Seq::<char>::empty()
    } else {
        table_rows_spec(results.drop_last(), unit) + table_row_spec(results.last(), unit)
    }
}

/// The unit the whole table is rendered in: what the first result's mean
/// calls for, or seconds for an empty result set.
pub open spec fn table_unit(results: Seq<BenchmarkResult>) -> Unit {
    if results.len() == 0 {
        Unit::Second
    } else {
        unit_of(results[0].mean, None)
    }
}

/// The whole table.
pub open spec fn markdown_table_spec(results: Seq<BenchmarkResult>) -> Seq<char> {
    table_header_spec(short_name_spec(table_unit(results))) + table_rows_spec(
        results,
        table_unit(results),
    )
}

/// The table header naming the unit of the time columns.
pub fn table_header(unit_short_name: String) -> (header: String)
    ensures
        header@ == table_header_spec(unit_short_name@),
{
    let header = String::from_str("| Command | Mean [").concat(unit_short_name.as_str()).concat(
        "] | Min…Max [",
    ).concat(unit_short_name.as_str()).concat("] |\n|:---|---:|---:|\n");
    proof {
        assert(header@ =~= table_header_spec(unit_short_name@));
    }
    header
}

/// Open the table in the given unit.
fn start_table(unit: Unit) -> (table: String)
    ensures
        table@ == table_header_spec(short_name_spec(unit)),
{
    table_header(unit.short_name())
}

/// Append one result's row to the table.
fn add_table_row(dest: &mut String, entry: &BenchmarkResult, unit: Unit)
    ensures
        final(dest)@ == old(dest)@ + table_row_spec(*entry, unit),
{
    proof {
        reveal_strlit("|");
        reveal_strlit("\\|");
    }
    let escaped = replace_str(entry.command.as_str(), "|", "\\|");
    let sd: u64 = match entry.stddev {
        Some(v) => v,
        None => 0,
    };
    let row = String::from_str("| `").concat(escaped.as_str()).concat("` | ").concat(
        unit.format(entry.mean).as_str(),
    ).concat(" ± ").concat(unit.format(sd).as_str()).concat(" | ").concat(
        unit.format(entry.min).as_str(),
    ).concat("…").concat(unit.format(entry.max).as_str()).concat(" |\n");
    proof {
        assert(row@ =~= table_row_spec(*entry, unit));
    }
    dest.append(row.as_str());
}

/// The Markdown exporter.
#[derive(Debug, Default)]
pub struct MarkdownExporter {}

impl MarkdownExporter {
    /// Render the result set as a Markdown table, with every row in the
    /// unit the first result's mean calls for.
    pub fn serialize(&self, results: &Vec<BenchmarkResult>) -> (out: String)
        ensures
            out@ == markdown_table_spec(results@),
    {
        let unit = if results.len() > 0 {
            let (_, u) = crate::units::format_duration_unit(results[0].mean, None);
            u
        } else {
            Unit::Second
        };
        let mut destination = start_table(unit);
        let mut i: usize = 0;
        proof {
            assert(destination@ =~= table_header_spec(short_name_spec(unit)) + table_rows_spec(
                results@.take(0),
                unit,
            ));
        }
        while i < results.len()
            invariant
                0 <= i <= results@.len(),
                unit == table_unit(results@),
                destination@ == table_header_spec(short_name_spec(unit)) + table_rows_spec(
                    results@.take(i as int),
                    unit,
                ),
            decreases results@.len() - i,
        {
            add_table_row(&mut destination, &results[i], unit);
            proof {
                assert(results@.take(i + 1).drop_last() =~= results@.take(i as int));
                assert(destination@ =~= table_header_spec(short_name_spec(unit))
                    + table_rows_spec(results@.take(i + 1), unit));
            }
            i = i + 1;
        }
        proof {
            assert(results@.take(results@.len() as int) =~= results@);
            assert(destination@ =~= markdown_table_spec(results@));
        }
        destination
    }
}

} // verus!
