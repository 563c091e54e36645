//! What is shown of a result set: rows for a table, or JSON text.

use vstd::prelude::*;
use crate::results::{char_lt, ResultSet};
use crate::json::{json_records, json_report};
use crate::unit::{status_text, ActiveState, UnitInfo};

verus! {

/// How the results are shown.
#[derive(Clone, Copy, Debug, PartialEq, Eq, Structural)]
pub enum OutputType {
    Json,
    Table,
}

/// The presentation options chosen by the user.
#[derive(Clone, Copy, Debug, PartialEq, Eq, Structural)]
pub struct PrintConfig {
    /// Colour the table even where the output is no terminal.
    pub force_color: bool,
    /// The format asked for, if any.
    pub output_type: Option<OutputType>,
}

/// The format used: the one asked for, else a table on a terminal and JSON
/// elsewhere.
pub open spec fn chosen_format(config: PrintConfig, interactive: bool) -> OutputType {
    match config.output_type {
        Some(t) => t,
        None => if interactive { OutputType::Table } else { OutputType::Json },
    }
}

/// How a row stands out.
#[derive(Clone, Copy, Debug, PartialEq, Eq, Structural)]
pub enum Highlight {
    /// An active unit.
    Success,
    /// A failed unit.
    Error,
    /// Any other state.
    Plain,
}

/// Active rows are marked as a success, failed rows as an error.
pub open spec fn highlight_of(st: ActiveState) -> Highlight {
    match st {
        ActiveState::Active => Highlight::Success,
        ActiveState::Failed => Highlight::Error,
        _ => Highlight::Plain,
    }
}

/// The human-readable text for a span of whole seconds.
pub uninterp spec fn duration_text(secs: u64) -> Seq<char>;

/// Relies on humantime::format_duration, through its `Display`: the text
/// depends on the span alone, and a zero span reads `0s`.
#[verifier::external_body]
fn format_elapsed(secs: u64) -> (r: String)
    ensures
        r@ == duration_text(secs),
        secs == 0 ==> r@ == "0s"@,
{
    humantime::format_duration(std::time::Duration::from_secs(secs)).to_string()
}

/// One row of the table.
#[derive(Clone, Debug, PartialEq, Eq)]
pub struct TableRow {
    pub unit: String,
    pub status: String,
    pub elapsed: String,
    pub highlight: Highlight,
}

/// Row `row` shows unit `unit` with `info`, its elapsed time written `elapsed`.
pub open spec fn row_shows(row: TableRow, unit: Seq<char>, info: UnitInfo, elapsed: Seq<char>) -> bool {
    &&& row.unit@ == unit
    &&& row.status@ == status_text(info.state.state, info.state.sub_state@)
    &&& row.elapsed@ == elapsed
    &&& row.highlight == highlight_of(info.state.state)
}

/// The row for one unit, given the text of its elapsed time.
pub fn table_row(unit: &String, info: &UnitInfo, elapsed: String) -> (r: TableRow)
    ensures
        row_shows(r, unit@, *info, elapsed@),
{
    let highlight = match info.state.state {
        ActiveState::Active => Highlight::Success,
        ActiveState::Failed => Highlight::Error,
        _ => Highlight::Plain,
    };
    TableRow { unit: unit.clone(), status: info.state.to_string(), elapsed, highlight }
}

/// The table rows: one per unit, in order of the unit identifiers.
pub fn table_rows(data: &ResultSet) -> (r: Vec<TableRow>)
    requires
        data.wf(),
    ensures
        r@.len() == data.entry_seq().len(),
        forall|i: int| 0 <= i < r@.len() ==> row_shows(
            #[trigger] r@[i],
            data.entry_seq()[i].0@,
            data.entry_seq()[i].1,
            duration_text(data.entry_seq()[i].1.time_since_state_change),
        ),
{
    let n = data.len();
    let mut rows: Vec<TableRow> = Vec::new();
    let mut i: usize = 0;
    while i < n
        invariant
            n == data.entry_seq().len(),
            i <= n,
            rows@.len() == i,
            forall|j: int| 0 <= j < i ==> row_shows(
                #[trigger] rows@[j],
                data.entry_seq()[j].0@,
                data.entry_seq()[j].1,
                duration_text(data.entry_seq()[j].1.time_since_state_change),
            ),
        decreases n - i,
    {
        let entry = data.entry(i);
        let elapsed = format_elapsed(entry.1.time_since_state_change);
        rows.push(table_row(&entry.0, &entry.1, elapsed));
        i = i + 1;
    }
    rows
}

/// What is to be shown: table rows, or JSON text.
#[derive(Clone, Debug, PartialEq, Eq)]
pub enum Report {
    Table(Vec<TableRow>),
    Json(String),
}

/// `rows` are the table rows of the entries `s`, one per entry, in order.
pub open spec fn rows_show(rows: Seq<TableRow>, s: Seq<(String, UnitInfo)>) -> bool {
    &&& rows.len() == s.len()
    &&& forall|i: int| 0 <= i < rows.len() ==> row_shows(
        #[trigger] rows[i],
        s[i].0@,
        s[i].1,
        duration_text(s[i].1.time_since_state_change),
    )
}

/// `r` is what is shown of the entries `s` in the format chosen from
/// `config` and `interactive`.
pub open spec fn report_shows(r: Report, s: Seq<(String, UnitInfo)>, config: PrintConfig, interactive: bool) -> bool {
    match chosen_format(config, interactive) {
        OutputType::Table => match r {
            Report::Table(rows) => rows_show(rows@, s),
            Report::Json(_) => false,
        },
        OutputType::Json => match r {
            Report::Json(text) => text@ == "["@ + json_records(s) + "]"@,
            Report::Table(_) => false,
        },
    }
}

/// Renders the results in the format chosen from `config`, where
/// `interactive` tells whether the output is a terminal.
pub fn print(data: &ResultSet, config: PrintConfig, interactive: bool) -> (r: Report)
    requires
        data.wf(),
    ensures
        report_shows(r, data.entry_seq(), config, interactive),
{
    let format = match config.output_type {
        Some(t) => t,
        None => if interactive { OutputType::Table } else { OutputType::Json },
    };
    match format {
        OutputType::Table => Report::Table(table_rows(data)),
        OutputType::Json => Report::Json(json_report(data)),
    }
}

/// Table rows come in strictly increasing order of unit name, whatever the
/// order in which the units were looked up.
pub proof fn lemma_rows_sorted(data: ResultSet, rows: Seq<TableRow>)
    requires
        data.wf(),
        rows_show(rows, data.entry_seq()),
    ensures
        forall|i: int, j: int| 0 <= i < j < rows.len() ==> char_lt(#[trigger] rows[i].unit@, #[trigger] rows[j].unit@),
{
    assert forall|i: int, j: int| 0 <= i < j < rows.len() implies char_lt(#[trigger] rows[i].unit@, #[trigger] rows[j].unit@) by {
        assert(row_shows(rows[i], data.entry_seq()[i].0@, data.entry_seq()[i].1, duration_text(data.entry_seq()[i].1.time_since_state_change)));
        assert(row_shows(rows[j], data.entry_seq()[j].0@, data.entry_seq()[j].1, duration_text(data.entry_seq()[j].1.time_since_state_change)));
    }
}

/// Rendering the same results twice shows the same thing both times.
pub proof fn lemma_print_repeatable(
    data: ResultSet,
    config: PrintConfig,
    interactive: bool,
    r1: Report,
    r2: Report,
)
    requires
        data.wf(),
        report_shows(r1, data.entry_seq(), config, interactive),
        report_shows(r2, data.entry_seq(), config, interactive),
    ensures
        match (r1, r2) {
            (Report::Json(a), Report::Json(b)) => a@ == b@,
            (Report::Table(a), Report::Table(b)) => a@.len() == b@.len() && forall|i: int| 0 <= i < a@.len() ==> {
                &&& (#[trigger] a@[i]).unit@ == b@[i].unit@
                &&& a@[i].status@ == b@[i].status@
                &&& a@[i].elapsed@ == b@[i].elapsed@
                &&& a@[i].highlight == b@[i].highlight
            },
            _ => false,
        },
{
    match (r1, r2) {
        (Report::Table(a), Report::Table(b)) => {
            assert forall|i: int| 0 <= i < a@.len() implies {
                &&& (#[trigger] a@[i]).unit@ == b@[i].unit@
                &&& a@[i].status@ == b@[i].status@
                &&& a@[i].elapsed@ == b@[i].elapsed@
                &&& a@[i].highlight == b@[i].highlight
            } by {
                let s = data.entry_seq();
                assert(row_shows(a@[i], s[i].0@, s[i].1, duration_text(s[i].1.time_since_state_change)));
                assert(row_shows(b@[i], s[i].0@, s[i].1, duration_text(s[i].1.time_since_state_change)));
            }
        },
        _ => {},
    }
}

} // verus!
