//! The list as a table for a terminal.

use crate::csv::{fields_of, row_fields};
use crate::text::{string_of, string_views, views};
use crate::todo::{Todo, TodoApp};
use cli_table::format::Justify;
use cli_table::{Cell, Style, Table};
use vstd::prelude::*;

verus! {

/// Whether `piece` stands in `text` as it is, character after character.
pub open spec fn occurs_in(piece: Seq<char>, text: Seq<char>) -> bool {
    exists|k: int|
        0 <= k && k + piece.len() <= text.len() && #[trigger] text.subrange(k, k + piece.len())
            == piece
}

/// Whether the drawn table `shown` shows the cell `cell`: a cell without a
/// line feed stands in it as it is. A cell with a line feed is drawn over
/// several lines, and nothing is said of it.
pub open spec fn shows(cell: Seq<char>, shown: Seq<char>) -> bool {
    !cell.contains('\n') ==> occurs_in(cell, shown)
}

/// The titles of the six columns.
pub open spec fn column_titles() -> Seq<Seq<char>> {
    seq!["ID"@, "Title"@, "Status"@, "Created At"@, "Updated At"@, "Deleted At"@]
}

/// No title of a column holds a line feed.
proof fn lemma_column_titles()
    ensures
        column_titles().len() == 6,
        forall|j: int| 0 <= j < 6 ==> !(#[trigger] column_titles()[j]).contains('\n'),
{
    reveal_strlit("ID");
    reveal_strlit("Title");
    reveal_strlit("Status");
    reveal_strlit("Created At");
    reveal_strlit("Updated At");
    reveal_strlit("Deleted At");
    assert forall|j: int| 0 <= j < 6 implies !(#[trigger] column_titles()[j]).contains('\n') by {
        let t = column_titles()[j];
        if t.contains('\n') {
            let k = choose|k: int| 0 <= k < t.len() && t[k] == '\n';
            assert(t[k] != '\n');
        }
    }
}

/// The cells of the line for `t`: the fields that its line of CSV has.
pub fn row_cells(t: &Todo) -> (out: Vec<String>)
    ensures
        string_views(out@) == row_fields(t@),
{
    let fields = fields_of(t);
    let mut out: Vec<String> = Vec::new();
    let mut i: usize = 0;
    while i < fields.len()
        invariant
            i <= fields.len(),
            string_views(out@) == views(fields@).take(i as int),
        decreases fields.len() - i,
    {
        let ghost before = string_views(out@);
        let cell = string_of(&fields[i]);
        out.push(cell);
        i += 1;
        assert(string_views(out@) =~= before.push(cell@));
        assert(string_views(out@) =~= views(fields@).take(i as int));
    }
    assert(views(fields@).take(fields.len() as int) =~= views(fields@));
    out
}

/// The cells of the table for `todos`, one line for each task, in order.
pub fn table_rows(todos: &Vec<Todo>) -> (out: Vec<Vec<String>>)
    ensures
        out@.len() == todos@.len(),
        forall|i: int|
            0 <= i < out@.len() ==> string_views(#[trigger] out@[i]@) == row_fields(todos@[i]@),
{
    let mut out: Vec<Vec<String>> = Vec::new();
    let mut i: usize = 0;
    while i < todos.len()
        invariant
            i <= todos.len(),
            out@.len() == i,
            forall|j: int|
                0 <= j < i ==> string_views(#[trigger] out@[j]@) == row_fields(todos@[j]@),
        decreases todos.len() - i,
    {
        out.push(row_cells(&todos[i]));
        i += 1;
    }
    out
}

/// `cli_table`: a table of `rows` under a line of six titles in bold, the
/// first of them set to the right, the whole in bold; then
/// `TableStruct::display` and the text that it shows; `None` stands for the
/// error of `display`. How the text is laid out and coloured is left to
/// `cli_table` and to the terminal. Claimed of every text that comes back:
/// it is not empty, as the table is drawn inside a border; and it shows
/// each title and each of the first six cells of each row, as `cli_table`
/// writes every line of a cell whole, between the padding and the lines of
/// the table, and trims the text at its two ends only. Cells after the
/// sixth are not drawn, as the titles give the number of columns.
#[verifier::external_body]
fn render_table(titles: [&str; 6], rows: Vec<Vec<String>>) -> (out: Option<String>)
    ensures
        out is Some ==> out->Some_0@.len() > 0,
        out is Some ==> forall|j: int|
            0 <= j < 6 ==> shows(#[trigger] titles@[j]@, out->Some_0@),
        out is Some ==> forall|i: int, j: int|
            0 <= i < rows@.len() && 0 <= j < 6 && j < rows@[i]@.len() ==> shows(
                #[trigger] rows@[i]@[j]@,
                out->Some_0@,
            ),
{
    let head = vec![
        titles[0].cell().bold(true).justify(Justify::Right),
        titles[1].cell().bold(true),
        titles[2].cell().bold(true),
        titles[3].cell().bold(true),
        titles[4].cell().bold(true),
        titles[5].cell().bold(true),
    ];
    match rows.table().title(head).bold(true).display() {
        Ok(shown) => Some(shown.to_string()),
        Err(_) => None,
    }
}

impl TodoApp {
    /// The list as a table with one line for each task, those marked as
    /// deleted included, in their order, under the titles of the columns;
    /// `None` where the table could not be drawn. The table shows every
    /// title and every field of every task, but a title of a task with a
    /// line feed in it, which is drawn over several lines.
    pub fn list_todos(&self) -> (out: Option<String>)
        ensures
            out is Some ==> out->Some_0@.len() > 0,
            out is Some ==> forall|j: int|
                0 <= j < 6 ==> occurs_in(#[trigger] column_titles()[j], out->Some_0@),
            out is Some ==> forall|i: int, j: int|
                0 <= i < self@.len() && 0 <= j < 6 ==> shows(
                    #[trigger] row_fields(self@[i])[j],
                    out->Some_0@,
                ),
    {
        let todos = self.todos();
        let rows = table_rows(todos);
        let titles = ["ID", "Title", "Status", "Created At", "Updated At", "Deleted At"];
        let ghost cells = rows@;
        let out = render_table(titles, rows);
        proof {
            lemma_column_titles();
            if out is Some {
                let shown = out->Some_0@;
                assert forall|j: int| 0 <= j < 6 implies occurs_in(
                    #[trigger] column_titles()[j],
                    shown,
                ) by {
                    assert(titles@[j]@ == column_titles()[j]);
                    assert(shows(titles@[j]@, shown));
                }
                assert forall|i: int, j: int| 0 <= i < self@.len() && 0 <= j < 6 implies shows(
                    #[trigger] row_fields(self@[i])[j],
                    shown,
                ) by {
                    assert(self@[i] == todos@[i]@);
                    assert(string_views(cells[i]@) == row_fields(todos@[i]@));
                    assert(string_views(cells[i]@)[j] == cells[i]@[j]@);
                    assert(shows(cells[i]@[j]@, shown));
                }
            }
        }
        out
    }
}

} // verus!
