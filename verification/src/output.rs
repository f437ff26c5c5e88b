//! How a command's result is shown: the format, and what the cells of a table hold.

use crate::commands::board::BoardSummary;
use crate::storage::records::IssueInfo;
use crate::text::{decimal, push_decimal};
use vstd::prelude::*;

verus! {

/// Output format options.
#[derive(Debug, Clone, Copy, PartialEq, Eq, Structural)]
pub enum OutputFormat {
    Table,
    Json,
}

impl OutputFormat {
    /// The format that the `--json` flag selects.
    pub fn from_flag(json: bool) -> (format: OutputFormat)
        ensures
            format == (if json {
                OutputFormat::Json
            } else {
                OutputFormat::Table
            }),
    {
        if json {
            OutputFormat::Json
        } else {
            OutputFormat::Table
        }
    }
}

/// What a cell shows for an optional text: the text, or a dash where there is none.
pub open spec fn or_dash(text: Option<String>) -> Seq<char> {
    match text {
        Some(s) => s@,
        None => seq!['-'],
    }
}

/// Identifiers in decimal, with a comma and a space between two.
pub open spec fn plain_list(ids: Seq<u32>) -> Seq<char>
    decreases ids.len(),
{
    if ids.len() == 0 {
        Seq::empty()
    } else if ids.len() == 1 {
        decimal(ids[0] as nat)
    } else {
        plain_list(ids.drop_last()) + seq![',', ' '] + decimal(ids.last() as nat)
    }
}

/// What a cell shows for dependencies: their list, or a dash where there is none.
pub open spec fn dependencies_cell(ids: Seq<u32>) -> Seq<char> {
    if ids.len() == 0 {
        seq!['-']
    } else {
        plain_list(ids)
    }
}

/// The cells of an issue's row in a listing: identifier, status, title, epic, assignee,
/// dependencies, session.
pub open spec fn issue_cells(info: IssueInfo) -> Seq<Seq<char>> {
    seq![
        decimal(info.issue.id as nat),
        info.issue.status.name(),
        info.title@,
        or_dash(info.issue.epic),
        or_dash(info.issue.assignee),
        dependencies_cell(info.issue.depends_on@),
        or_dash(info.issue.session),
    ]
}

/// The texts of cells.
pub open spec fn texts(cells: Seq<String>) -> Seq<Seq<char>> {
    Seq::new(cells.len(), |i: int| cells[i]@)
}

/// The cell for an optional text.
pub fn dash_cell(text: &Option<String>) -> (cell: String)
    ensures
        cell@ == or_dash(*text),
{
    match text {
        Some(s) => s.clone(),
        None => {
            let mut cell = String::new();
            cell.push('-');
            assert(cell@ =~= seq!['-']);
            cell
        },
    }
}

/// The cell for dependencies.
pub fn depends_on_cell(ids: &Vec<u32>) -> (cell: String)
    ensures
        cell@ == dependencies_cell(ids@),
{
    let mut cell = String::new();
    if ids.len() == 0 {
        cell.push('-');
        assert(cell@ =~= seq!['-']);
        return cell;
    }
    let mut i: usize = 0;
    assert(ids@.take(0) =~= Seq::<u32>::empty());
    while i < ids.len()
        invariant
            i <= ids.len(),
            cell@ == plain_list(ids@.take(i as int)),
        decreases ids.len() - i,
    {
        let ghost so_far = ids@.take(i as int);
        let ghost next = ids@.take(i + 1);
        assert(next.drop_last() =~= so_far);
        assert(next.last() == ids@[i as int]);
        if i > 0 {
            cell.push(',');
            cell.push(' ');
        }
        push_decimal(&mut cell, ids[i]);
        proof {
            if i == 0 {
                assert(next[0] == ids@[0]);
                assert(cell@ =~= plain_list(next));
            } else {
                assert(cell@ =~= plain_list(next));
            }
        }
        i += 1;
    }
    assert(ids@.take(i as int) =~= ids@);
    cell
}

/// The row of an issue in a listing.
pub fn issue_row(info: &IssueInfo) -> (row: Vec<String>)
    ensures
        texts(row@) == issue_cells(*info),
{
    let mut id = String::new();
    push_decimal(&mut id, info.issue.id);
    let mut row: Vec<String> = Vec::new();
    row.push(id);
    row.push(info.issue.status.to_string());
    row.push(info.title.clone());
    row.push(dash_cell(&info.issue.epic));
    row.push(dash_cell(&info.issue.assignee));
    row.push(depends_on_cell(&info.issue.depends_on));
    row.push(dash_cell(&info.issue.session));
    assert(texts(row@) =~= issue_cells(*info));
    row
}

/// The rows of the board's table of counts: open, in progress, done, and all issues.
pub fn board_rows(summary: &BoardSummary) -> (rows: Vec<(String, usize)>)
    ensures
        rows.len() == 4,
        rows[0].0@ == "Open"@ && rows[0].1 == summary.open_count,
        rows[1].0@ == "In Progress"@ && rows[1].1 == summary.in_progress_count,
        rows[2].0@ == "Done"@ && rows[2].1 == summary.done_count,
        rows[3].0@ == "Total"@ && rows[3].1 == summary.total_count,
{
    let mut rows: Vec<(String, usize)> = Vec::new();
    rows.push(("Open".to_owned(), summary.open_count));
    rows.push(("In Progress".to_owned(), summary.in_progress_count));
    rows.push(("Done".to_owned(), summary.done_count));
    rows.push(("Total".to_owned(), summary.total_count));
    rows
}

} // verus!
