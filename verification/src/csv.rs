//! The list as CSV text: a header line, then one line for each task.
//!
//! Fields are written as they are, without quoting, and read back by
//! position, so a title with a comma in it moves the fields after it.

use crate::text::{
    append_chars, chars_of, decimal, decimal_chars, join_chars, joined, lemma_decimal_lacks,
    lemma_decimal_parses, lemma_joined_lacks, lemma_split_append, lemma_split_joined,
    lemma_split_single, lines, lines_chars, parse_decimal, parse_decimal_chars, split,
    split_chars, string_of, strip_cr, views,
};
use crate::time::{is_stamp_text, read_stamp, read_stamp_chars, stamp_chars, Timestamp};
use crate::todo::{todo_views, Status, Todo, TodoApp, TodoView};
use vstd::prelude::*;

verus! {

/// Why a text could not be read as a list.
#[derive(Debug, Clone, Copy, PartialEq, Eq, Structural)]
pub enum DecodeError {
    /// A line has fewer than six fields.
    MissingField,
    /// The fourth or fifth field of a line is not an instant.
    BadTimestamp,
}

/// The first line of every CSV text.
pub open spec fn header() -> Seq<char> {
    "ID,Title,Status,CreatedAt,UpdatedAt,DeletedAt"@
}

/// The last field of a line: the instant of deletion, or nothing.
pub open spec fn deleted_text(deleted_at: Option<Timestamp>) -> Seq<char> {
    match deleted_at {
        Some(t) => t.text(),
        None => Seq::<char>::empty(),
    }
}

/// The fields of the line for the task `t`: id, title, status, the
/// instants at which it was made and updated, and that of its deletion or
/// nothing.
pub open spec fn row_fields(t: TodoView) -> Seq<Seq<char>> {
    seq![
        decimal(t.id as nat),
        t.title,
        t.status.text(),
        t.created_at.text(),
        t.updated_at.text(),
        deleted_text(t.deleted_at),
    ]
}

/// The line for the task `t`, without its line feed: its fields with a
/// comma between each two.
pub open spec fn row_text(t: TodoView) -> Seq<char> {
    joined(row_fields(t), ',')
}

/// The CSV text for `todos`: the header, then their lines in order, each
/// line ended by a line feed.
pub open spec fn encode_text(todos: Seq<TodoView>) -> Seq<char>
    decreases todos.len(),
{
    if todos.len() == 0 {
        header().push('\n')
    } else {
        (encode_text(todos.drop_last()) + row_text(todos.last())).push('\n')
    }
}

/// The id that the first field holds: its number, and 0 where it is none.
pub open spec fn field_id(field: Seq<char>) -> usize {
    match parse_decimal(field) {
        Some(id) => id,
        None => 0,
    }
}

/// The status that the third field holds: a draft for `Draft`, completed
/// for anything else.
pub open spec fn field_status(field: Seq<char>) -> Status {
    if field == "Draft"@ {
        Status::Draft
    } else {
        Status::Completed
    }
}

/// The task that six or more fields give, once the instants of the
/// fourth and the fifth have been read as `created_at` and `updated_at`.
pub open spec fn fields_todo(
    f: Seq<Seq<char>>,
    created_at: Timestamp,
    updated_at: Timestamp,
) -> TodoView {
    TodoView {
        id: field_id(f[0]),
        title: f[1],
        status: field_status(f[2]),
        created_at,
        updated_at,
        deleted_at: if f[5].len() > 0 {
            Some(updated_at)
        } else {
            None
        },
    }
}

/// The task that the fields of one line give, read by position and from
/// the left, so that the first field that is missing or is no instant
/// decides the error. Fields after the sixth are not looked at. A task
/// whose sixth field is not empty is marked as deleted, at the instant of
/// its fifth field.
pub open spec fn decode_fields(f: Seq<Seq<char>>) -> Result<TodoView, DecodeError> {
    if f.len() < 4 {
        Err(DecodeError::MissingField)
    } else if read_stamp(f[3]) is None {
        Err(DecodeError::BadTimestamp)
    } else if f.len() < 5 {
        Err(DecodeError::MissingField)
    } else if read_stamp(f[4]) is None {
        Err(DecodeError::BadTimestamp)
    } else if f.len() < 6 {
        Err(DecodeError::MissingField)
    } else {
        Ok(fields_todo(f, read_stamp(f[3])->Some_0, read_stamp(f[4])->Some_0))
    }
}

/// The task that the line `line` gives.
pub open spec fn decode_row(line: Seq<char>) -> Result<TodoView, DecodeError> {
    decode_fields(split(line, ','))
}

/// The tasks that `rows` give, in order, or the error of the first line
/// that gives none.
pub open spec fn decode_rows(rows: Seq<Seq<char>>) -> Result<Seq<TodoView>, DecodeError>
    decreases rows.len(),
{
    if rows.len() == 0 {
        Ok(Seq::<TodoView>::empty())
    } else {
        match decode_rows(rows.drop_last()) {
            Err(e) => Err(e),
            Ok(before) => match decode_row(rows.last()) {
                Err(e) => Err(e),
                Ok(t) => Ok(before.push(t)),
            },
        }
    }
}

/// The lines of `text` after its first.
pub open spec fn body_lines(text: Seq<char>) -> Seq<Seq<char>> {
    let all = lines(text);
    if all.len() == 0 {
        all
    } else {
        all.skip(1)
    }
}

/// The tasks that the CSV text `text` gives: one for each line after the
/// first, which is taken for the header whatever it holds.
pub open spec fn decode_text(text: Seq<char>) -> Result<Seq<TodoView>, DecodeError> {
    decode_rows(body_lines(text))
}

/// The lines for the tasks `todos`, in order.
pub open spec fn row_texts(todos: Seq<TodoView>) -> Seq<Seq<char>> {
    todos.map_values(|t: TodoView| row_text(t))
}

/// Whether `title` can stand in a line as it is: it holds no comma and no
/// line feed.
pub open spec fn plain_title(title: Seq<char>) -> bool {
    !title.contains(',') && !title.contains('\n')
}

/// Whether every title in `todos` can stand in a line as it is.
pub open spec fn plain_titles(todos: Seq<TodoView>) -> bool {
    forall|i: int| 0 <= i < todos.len() ==> plain_title(#[trigger] todos[i].title)
}

/// Whether the instants of `t` are written as texts that can stand in a
/// line and be read again.
pub open spec fn stamps_written(t: TodoView) -> bool {
    &&& is_stamp_text(t.created_at.text())
    &&& is_stamp_text(t.updated_at.text())
    &&& t.deleted_at is Some ==> is_stamp_text(t.deleted_at->Some_0.text())
}

/// Whether `b` is `a` but for its instants: the same id, title and status,
/// and marked as deleted if and only if `a` is.
pub open spec fn same_but_instants(a: TodoView, b: TodoView) -> bool {
    &&& a.id == b.id
    &&& a.title == b.title
    &&& a.status == b.status
    &&& (a.deleted_at is Some <==> b.deleted_at is Some)
}

/// Whether `read` holds the tasks of `todos`, in their order, but for
/// their instants.
pub open spec fn read_back(todos: Seq<TodoView>, read: Result<Seq<TodoView>, DecodeError>) -> bool {
    &&& read is Ok
    &&& read->Ok_0.len() == todos.len()
    &&& forall|i: int| 0 <= i < todos.len() ==> same_but_instants(todos[i], #[trigger] read->Ok_0[i])
}

/// The names of the two statuses differ, and hold no comma and no line
/// feed.
pub proof fn lemma_status_text(status: Status)
    ensures
        !status.text().contains(','),
        !status.text().contains('\n'),
        field_status(status.text()) == status,
{
    reveal_strlit("Draft");
    reveal_strlit("Completed");
    assert("Draft"@.len() != "Completed"@.len());
    let s = status.text();
    if s.contains(',') {
        let i = choose|i: int| 0 <= i < s.len() && s[i] == ',';
        assert(s[i] != ',');
    }
    if s.contains('\n') {
        let i = choose|i: int| 0 <= i < s.len() && s[i] == '\n';
        assert(s[i] != '\n');
    }
}

/// The header holds no line feed and does not end in a carriage return.
pub proof fn lemma_header_text()
    ensures
        !header().contains('\n'),
        strip_cr(header()) == header(),
{
    reveal_strlit("ID,Title,Status,CreatedAt,UpdatedAt,DeletedAt");
    let s = header();
    if s.contains('\n') {
        let i = choose|i: int| 0 <= i < s.len() && s[i] == '\n';
        assert(s[i] != '\n');
    }
}

/// A line whose title holds no comma splits into the fields that were
/// written.
pub proof fn lemma_row_splits(t: TodoView)
    requires
        !t.title.contains(','),
        stamps_written(t),
    ensures
        split(row_text(t), ',') == row_fields(t),
{
    let f = row_fields(t);
    lemma_decimal_lacks(t.id as nat, ',');
    lemma_status_text(t.status);
    assert(!f[5].contains(','));
    lemma_split_joined(f, ',');
}

/// A line whose title holds no comma is read as the task that was
/// written, but for its instants.
pub proof fn lemma_row_reads_back(t: TodoView)
    requires
        !t.title.contains(','),
        stamps_written(t),
    ensures
        decode_row(row_text(t)) is Ok,
        same_but_instants(t, decode_row(row_text(t))->Ok_0),
{
    lemma_row_splits(t);
    lemma_decimal_parses(t.id as nat);
    lemma_status_text(t.status);
}

/// A line whose title holds no line feed holds none, and does not end in a
/// carriage return.
pub proof fn lemma_row_is_a_line(t: TodoView)
    requires
        !t.title.contains('\n'),
        stamps_written(t),
    ensures
        !row_text(t).contains('\n'),
        strip_cr(row_text(t)) == row_text(t),
{
    let f = row_fields(t);
    lemma_decimal_lacks(t.id as nat, '\n');
    lemma_status_text(t.status);
    assert(!f[5].contains('\n'));
    lemma_joined_lacks(f, ',', '\n');
    let row = row_text(t);
    assert(row == joined(f.drop_last(), ',').push(',') + f[5]);
    if f[5].len() == 0 {
        assert(row.last() == ',');
    } else {
        assert(row.last() == f[5].last());
        assert(f[5][f[5].len() - 1] != '\r');
    }
}

/// The pieces between the line feeds of a CSV text are the header, the
/// lines of the tasks, and nothing after the last line feed.
pub proof fn lemma_encode_pieces(todos: Seq<TodoView>)
    requires
        forall|i: int| 0 <= i < todos.len() ==> !(#[trigger] todos[i]).title.contains('\n'),
        forall|i: int| 0 <= i < todos.len() ==> stamps_written(#[trigger] todos[i]),
    ensures
        split(encode_text(todos), '\n') == (seq![header()] + row_texts(todos)).push(
            Seq::<char>::empty(),
        ),
    decreases todos.len(),
{
    let e = Seq::<char>::empty();
    if todos.len() == 0 {
        lemma_header_text();
        lemma_split_single(header(), '\n');
        assert(header().push('\n').drop_last() =~= header());
        assert(split(encode_text(todos), '\n') =~= (seq![header()] + row_texts(todos)).push(e));
    } else {
        let before = todos.drop_last();
        let row = row_text(todos.last());
        lemma_encode_pieces(before);
        lemma_row_is_a_line(todos.last());
        let head = encode_text(before);
        lemma_split_append(head, row, '\n');
        assert(e + row =~= row);
        assert((head + row).push('\n').drop_last() =~= head + row);
        assert(split(encode_text(todos), '\n') =~= (seq![header()] + row_texts(todos)).push(e));
    }
}

/// The lines of a CSV text after the first are the lines of the tasks.
pub proof fn lemma_encode_lines(todos: Seq<TodoView>)
    requires
        forall|i: int| 0 <= i < todos.len() ==> !(#[trigger] todos[i]).title.contains('\n'),
        forall|i: int| 0 <= i < todos.len() ==> stamps_written(#[trigger] todos[i]),
    ensures
        body_lines(encode_text(todos)) == row_texts(todos),
{
    lemma_encode_pieces(todos);
    lemma_header_text();
    let pieces = split(encode_text(todos), '\n');
    let ended = pieces.drop_last().map_values(|l: Seq<char>| strip_cr(l));
    assert(pieces.drop_last() =~= seq![header()] + row_texts(todos));
    assert forall|i: int| 0 <= i < ended.len() implies #[trigger] ended[i] == (seq![header()]
        + row_texts(todos))[i] by {
        if i > 0 {
            lemma_row_is_a_line(todos[i - 1]);
        }
    }
    assert(ended =~= seq![header()] + row_texts(todos));
    assert(lines(encode_text(todos)) == ended);
    assert(ended.skip(1) =~= row_texts(todos));
}

/// The lines of tasks whose titles hold no comma are read as those tasks,
/// but for their instants.
pub proof fn lemma_rows_read_back(todos: Seq<TodoView>)
    requires
        forall|i: int| 0 <= i < todos.len() ==> !(#[trigger] todos[i]).title.contains(','),
        forall|i: int| 0 <= i < todos.len() ==> stamps_written(#[trigger] todos[i]),
    ensures
        read_back(todos, decode_rows(row_texts(todos))),
    decreases todos.len(),
{
    let rows = row_texts(todos);
    if todos.len() > 0 {
        lemma_rows_read_back(todos.drop_last());
        lemma_row_reads_back(todos.last());
        assert(rows.drop_last() =~= row_texts(todos.drop_last()));
        assert(rows.last() == row_text(todos.last()));
    }
}

/// Reading the CSV text that was written for `todos` gives tasks with the
/// same ids, titles and statuses, marked as deleted where those of `todos`
/// are, in the same order, provided that no title holds a comma or a line
/// feed and that each instant is written as a text of the form in which
/// instants are displayed.
pub proof fn lemma_decode_encode(todos: Seq<TodoView>)
    requires
        plain_titles(todos),
        forall|i: int| 0 <= i < todos.len() ==> stamps_written(#[trigger] todos[i]),
    ensures
        read_back(todos, decode_text(encode_text(todos))),
{
    assert forall|i: int| 0 <= i < todos.len() implies !(#[trigger] todos[i]).title.contains(
        ',',
    ) && !todos[i].title.contains('\n') by {
        assert(plain_title(todos[i].title));
    }
    lemma_encode_lines(todos);
    lemma_rows_read_back(todos);
}

/// The fields of the line for `t`.
pub fn fields_of(t: &Todo) -> (out: Vec<Vec<char>>)
    ensures
        views(out@) == row_fields(t@),
        stamps_written(t@),
{
    let mut out: Vec<Vec<char>> = Vec::new();
    out.push(decimal_chars(t.id));
    out.push(chars_of(t.title.as_str()));
    out.push(chars_of(t.status.name()));
    out.push(stamp_chars(t.created_at));
    out.push(stamp_chars(t.updated_at));
    match t.deleted_at {
        Some(at) => {
            out.push(stamp_chars(at));
        },
        None => {
            out.push(Vec::new());
        },
    }
    assert(views(out@) =~= row_fields(t@));
    out
}

/// Writes `todos` as CSV text. Where no title holds a comma or a line
/// feed, reading the text gives the tasks back, but for their instants.
pub fn encode(todos: &Vec<Todo>) -> (out: String)
    ensures
        out@ == encode_text(todo_views(todos@)),
        plain_titles(todo_views(todos@)) ==> read_back(todo_views(todos@), decode_text(out@)),
{
    let ghost all = todo_views(todos@);
    let mut out = chars_of("ID,Title,Status,CreatedAt,UpdatedAt,DeletedAt");
    out.push('\n');
    let mut i: usize = 0;
    assert(all.take(0) =~= Seq::<TodoView>::empty());
    while i < todos.len()
        invariant
            i <= todos.len(),
            all == todo_views(todos@),
            out@ == encode_text(all.take(i as int)),
            forall|j: int| 0 <= j < i ==> stamps_written(#[trigger] all[j]),
        decreases todos.len() - i,
    {
        proof {
            assert(all.take(i + 1).drop_last() =~= all.take(i as int));
            assert(all.take(i + 1).last() == todos@[i as int]@);
        }
        let fields = fields_of(&todos[i]);
        let row = join_chars(&fields, ',');
        append_chars(&mut out, &row);
        out.push('\n');
        i += 1;
    }
    proof {
        assert(all.take(todos.len() as int) =~= all);
        if plain_titles(all) {
            lemma_decode_encode(all);
        }
    }
    string_of(&out)
}

/// Makes the task that six or more fields give, with its two instants
/// already read.
pub fn todo_of_fields(
    f: &Vec<Vec<char>>,
    created_at: Timestamp,
    updated_at: Timestamp,
) -> (out: Todo)
    requires
        f@.len() >= 6,
    ensures
        out@ == fields_todo(views(f@), created_at, updated_at),
{
    let ghost v = views(f@);
    assert(v[0] == f@[0]@ && v[1] == f@[1]@ && v[2] == f@[2]@ && v[5] == f@[5]@);
    let id: usize = match parse_decimal_chars(&f[0]) {
        Some(id) => id,
        None => 0,
    };
    let title = string_of(&f[1]);
    let draft = chars_of("Draft");
    let status = if same_chars(&f[2], &draft) {
        Status::Draft
    } else {
        Status::Completed
    };
    let deleted_at = if f[5].len() > 0 {
        Some(updated_at)
    } else {
        None
    };
    Todo { id, title, status, created_at, updated_at, deleted_at }
}

/// Reads the task that the fields of one line give.
pub fn decode_row_fields(f: &Vec<Vec<char>>) -> (out: Result<Todo, DecodeError>)
    ensures
        out is Ok <==> decode_fields(views(f@)) is Ok,
        out is Ok ==> out->Ok_0@ == decode_fields(views(f@))->Ok_0,
        out is Err ==> decode_fields(views(f@)) == Err::<TodoView, DecodeError>(out->Err_0),
{
    let ghost v = views(f@);
    if f.len() < 4 {
        return Err(DecodeError::MissingField);
    }
    assert(v[3] == f@[3]@);
    let created_at = match read_stamp_chars(&f[3]) {
        Some(t) => t,
        None => {
            return Err(DecodeError::BadTimestamp);
        },
    };
    if f.len() < 5 {
        return Err(DecodeError::MissingField);
    }
    assert(v[4] == f@[4]@);
    let updated_at = match read_stamp_chars(&f[4]) {
        Some(t) => t,
        None => {
            return Err(DecodeError::BadTimestamp);
        },
    };
    if f.len() < 6 {
        return Err(DecodeError::MissingField);
    }
    Ok(todo_of_fields(f, created_at, updated_at))
}

/// Whether `a` and `b` hold the same characters.
fn same_chars(a: &Vec<char>, b: &Vec<char>) -> (out: bool)
    ensures
        out == (a@ == b@),
{
    if a.len() != b.len() {
        return false;
    }
    let mut i: usize = 0;
    while i < a.len()
        invariant
            i <= a.len(),
            a.len() == b.len(),
            a@.take(i as int) == b@.take(i as int),
        decreases a.len() - i,
    {
        if a[i] != b[i] {
            return false;
        }
        i += 1;
        assert(a@.take(i as int) =~= a@.take(i - 1).push(a@[i - 1]));
        assert(b@.take(i as int) =~= b@.take(i - 1).push(b@[i - 1]));
    }
    assert(a@.take(a.len() as int) =~= a@);
    assert(b@.take(b.len() as int) =~= b@);
    true
}

/// Reads CSV text: the tasks of its lines after the first, in order, or
/// the error of the first line that gives none.
pub fn decode(text: &str) -> (out: Result<Vec<Todo>, DecodeError>)
    ensures
        out is Ok <==> decode_text(text@) is Ok,
        out is Ok ==> todo_views(out->Ok_0@) == decode_text(text@)->Ok_0,
        out is Err ==> decode_text(text@) == Err::<Seq<TodoView>, DecodeError>(out->Err_0),
{
    let chars = chars_of(text);
    let all = lines_chars(&chars);
    let mut out: Vec<Todo> = Vec::new();
    if all.len() == 0 {
        assert(todo_views(out@) =~= Seq::<TodoView>::empty());
        return Ok(out);
    }
    let ghost rows = body_lines(text@);
    let mut i: usize = 1;
    assert(rows.take(0) =~= Seq::<Seq<char>>::empty());
    assert(todo_views(out@) =~= Seq::<TodoView>::empty());
    while i < all.len()
        invariant
            1 <= i <= all.len(),
            views(all@) == lines(text@),
            rows == lines(text@).skip(1),
            decode_rows(rows.take(i - 1)) == Ok::<Seq<TodoView>, DecodeError>(todo_views(out@)),
        decreases all.len() - i,
    {
        let ghost k = i - 1;
        proof {
            assert(rows.take(k + 1).drop_last() =~= rows.take(k));
            assert(rows.take(k + 1).last() == all@[i as int]@);
        }
        let fields = split_chars(&all[i], ',');
        match decode_row_fields(&fields) {
            Ok(t) => {
                let ghost before = todo_views(out@);
                out.push(t);
                assert(todo_views(out@) =~= before.push(t@));
            },
            Err(e) => {
                proof {
                    lemma_decode_rows_fails(rows, k + 1);
                }
                return Err(e);
            },
        }
        i += 1;
    }
    assert(rows.take(all.len() - 1) =~= rows);
    Ok(out)
}

/// Where the first `k` lines give an error, all the lines give that error.
pub proof fn lemma_decode_rows_fails(rows: Seq<Seq<char>>, k: int)
    requires
        0 <= k <= rows.len(),
        decode_rows(rows.take(k)) is Err,
    ensures
        decode_rows(rows) == decode_rows(rows.take(k)),
    decreases rows.len() - k,
{
    if k < rows.len() {
        assert(rows.take(k + 1).drop_last() =~= rows.take(k));
        lemma_decode_rows_fails(rows, k + 1);
    } else {
        assert(rows.take(k) =~= rows);
    }
}

impl TodoApp {
    /// The list as CSV text. Where no title holds a comma or a line feed,
    /// reading the text gives the tasks back, but for their instants.
    pub fn export_to_csv(&self) -> (out: String)
        ensures
            out@ == encode_text(self@),
            plain_titles(self@) ==> read_back(self@, decode_text(out@)),
    {
        encode(self.todos())
    }

    /// Reads `text` as CSV and, where it gives at least one task, puts the
    /// tasks read in the place of the whole list. Says whether it did.
    pub fn load_from_file(&mut self, text: &str) -> (out: Result<bool, DecodeError>)
        ensures
            match decode_text(text@) {
                Ok(read) => out == Ok::<bool, DecodeError>(read.len() > 0) && final(self)@ == (
                if read.len() > 0 {
                    read
                } else {
                    old(self)@
                }),
                Err(e) => out == Err::<bool, DecodeError>(e) && final(self)@ == old(self)@,
            },
    {
        match decode(text) {
            Ok(todos) => {
                if todos.len() > 0 {
                    self.replace_all(todos);
                    Ok(true)
                } else {
                    Ok(false)
                }
            },
            Err(e) => Err(e),
        }
    }
}

} // verus!
