//! The table of periods.

use vstd::prelude::*;

use crate::dashboard::list_periods;
use crate::dashboard::StatsColumns;
use crate::numbers::decimal;
use crate::stats::PeriodUsage;
use crate::stats::StatsReport;
use crate::text::concat2;
use crate::text::copy_of;
use crate::text::extend;
use crate::text::push_text;

verus! {

/// The rows of periods, and those of their slots where they are asked for.
pub open spec fn table_rows(
    columns: StatsColumns,
    periods: Seq<PeriodUsage>,
    by_slot: bool,
) -> Seq<Seq<char>> {
    if by_slot {
        crate::dashboard::period_rows(columns, periods)
    } else {
        periods.map_values(|period: PeriodUsage| columns.period_text(&period))
    }
}

fn list_rows(columns: StatsColumns, periods: &Vec<PeriodUsage>, by_slot: bool) -> (out: Vec<String>)
    ensures
        crate::text::texts(out@) == table_rows(columns, periods@, by_slot),
{
    if by_slot {
        return list_periods(columns, periods);
    }
    let ghost wanted = table_rows(columns, periods@, false);
    let mut out: Vec<String> = Vec::new();
    let mut i: usize = 0;
    proof {
        assert(crate::text::texts(out@) =~= wanted.take(0));
    }
    while i < periods.len()
        invariant
            i <= periods.len(),
            wanted == table_rows(columns, periods@, false),
            crate::text::texts(out@) == wanted.take(i as int),
        decreases periods.len() - i,
    {
        push_text(&mut out, columns.period_row(&periods[i]));
        proof {
            assert(wanted.take(i + 1) =~= wanted.take(i as int).push(wanted[i as int]));
        }
        i += 1;
    }
    proof {
        assert(wanted.take(wanted.len() as int) =~= wanted);
    }
    out
}

/// Whether some of the tokens of a period have no price though others have one.
pub open spec fn is_partly_priced(period: PeriodUsage) -> bool {
    period.estimated_cost is Some && period.unpriced_tokens > 0
}

/// Whether the prices of a table leave something out.
pub open spec fn leaves_out(periods: Seq<PeriodUsage>) -> bool {
    exists|i: int| 0 <= i < periods.len() && is_partly_priced(#[trigger] periods[i])
}

fn some_left_out(periods: &Vec<PeriodUsage>) -> (out: bool)
    ensures
        out == leaves_out(periods@),
{
    let mut i: usize = 0;
    while i < periods.len()
        invariant
            i <= periods.len(),
            forall|j: int| 0 <= j < i ==> !is_partly_priced(#[trigger] periods@[j]),
        decreases periods.len() - i,
    {
        if periods[i].estimated_cost.is_some() && periods[i].unpriced_tokens > 0 {
            proof {
                assert(is_partly_priced(periods@[i as int]));
            }
            return true;
        }
        i += 1;
    }
    false
}

/// The lines before the table.
pub open spec fn table_head(report: &StatsReport) -> Seq<Seq<char>> {
    let databases = if report.source_databases@.len() == 1 {
        "state db: "@ + report.source_databases@[0]@
    } else {
        "state dbs: "@ + crate::numbers::decimal_of(report.source_databases@.len())
    };
    let prices = match report.price_source {
        Some(source) => seq!["prices: "@ + source@],
        None => seq![],
    };
    let note = match report.price_note {
        Some(text) => seq!["note: "@ + text@],
        None => seq![],
    };
    seq![databases, "basis: "@ + report.period_basis@] + prices + note + seq![
        ""@,
        StatsColumns::of_report(report).header_text(),
    ]
}

/// The lines behind the table.
pub open spec fn table_foot(report: &StatsReport) -> Seq<Seq<char>> {
    if leaves_out(report.periods@) {
        seq![
            ""@,
            "* est. cost excludes tokens for models without known OpenAI pricing."@,
        ]
    } else {
        seq![]
    }
}

/// The table of the periods of a report.
pub fn print_periods(report: &StatsReport) -> (out: Vec<String>)
    ensures
        crate::text::texts(out@) == table_head(report) + table_rows(
            StatsColumns::of_report(report),
            report.periods@,
            report.by_slot,
        ) + table_foot(report),
{
    let columns = StatsColumns::from_report(report);
    let mut out: Vec<String> = Vec::new();
    if report.source_databases.len() == 1 {
        out.push(concat2("state db: ", report.source_databases[0].as_str()));
    } else {
        out.push(concat2("state dbs: ", decimal(report.source_databases.len() as u64).as_str()));
    }
    out.push(concat2("basis: ", report.period_basis.as_str()));
    match &report.price_source {
        Some(source) => {
            out.push(concat2("prices: ", source.as_str()));
        },
        None => {},
    }
    match &report.price_note {
        Some(note) => {
            out.push(concat2("note: ", note.as_str()));
        },
        None => {},
    }
    out.push(copy_of(""));
    out.push(columns.header());
    proof {
        assert(crate::text::texts(out@) =~= table_head(report));
    }
    extend(&mut out, list_rows(columns, &report.periods, report.by_slot));
    if some_left_out(&report.periods) {
        push_text(&mut out, copy_of(""));
        push_text(
            &mut out,
            copy_of("* est. cost excludes tokens for models without known OpenAI pricing."),
        );
    }
    proof {
        assert(crate::text::texts(out@) =~= table_head(report) + table_rows(
            columns,
            report.periods@,
            report.by_slot,
        ) + table_foot(report));
    }
    out
}

/// The head of a table names the database, or how many there are, what periods go by,
/// and where prices come from. The columns are named last.
pub proof fn tables_are_headed(report: &StatsReport)
    ensures
        ({
            let lines = table_head(report);
            &&& report.source_databases@.len() == 1 ==> lines[0] == "state db: "@
                + report.source_databases@[0]@
            &&& report.source_databases@.len() != 1 ==> lines[0] == "state dbs: "@
                + crate::numbers::decimal_of(report.source_databases@.len())
            &&& lines[1] == "basis: "@ + report.period_basis@
            &&& report.price_source is Some ==> lines[2] == "prices: "@ + report.price_source->0@
            &&& report.price_note is Some ==> lines[lines.len() - 3] == "note: "@
                + report.price_note->0@
            &&& lines.last() == StatsColumns::of_report(report).header_text()
            &&& report.price_source is None && report.price_note is None ==> lines.len() == 4
        }),
{
}

/// Each period has a row, in order; slots are listed only where they were asked for.
pub proof fn tables_list_their_periods(columns: StatsColumns, periods: Seq<PeriodUsage>, i: int)
    ensures
        table_rows(columns, periods, false).len() == periods.len(),
        0 <= i < periods.len() ==> table_rows(columns, periods, false)[i] == columns.period_text(
            &periods[i],
        ),
        table_rows(columns, periods, true) == crate::dashboard::period_rows(columns, periods),
{
}

/// A note stands below a table exactly where a cost in it leaves tokens out.
pub proof fn tables_note_what_costs_leave_out(report: &StatsReport, i: int)
    ensures
        0 <= i < report.periods@.len() && report.periods@[i].estimated_cost is Some
            && report.periods@[i].unpriced_tokens > 0 ==> table_foot(report).last()
            == "* est. cost excludes tokens for models without known OpenAI pricing."@,
        (forall|k: int|
            0 <= k < report.periods@.len() ==> (#[trigger] report.periods@[k]).estimated_cost is None
                || report.periods@[k].unpriced_tokens == 0) ==> table_foot(report).len() == 0,
{
    if 0 <= i < report.periods@.len() && report.periods@[i].estimated_cost is Some
        && report.periods@[i].unpriced_tokens > 0 {
        assert(is_partly_priced(report.periods@[i]));
    }
}

} // verus!
