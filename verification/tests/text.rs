use todo_app::menu::Choice;
use todo_app::text::{
    append_chars, chars_of, copy_prefix, decimal_chars, join_chars, lines_chars,
    parse_decimal_chars, split_chars, string_of,
};
use todo_app::time::{read_stamp_chars, stamp_chars, Timestamp, MAX_SECS, MIN_SECS};
use todo_app::todo::TodoApp;

fn chars(s: &str) -> Vec<char> {
    s.chars().collect()
}

fn strings(v: Vec<Vec<char>>) -> Vec<String> {
    v.iter().map(|l| l.iter().collect()).collect()
}

#[test]
fn chars_and_strings_convert_both_ways() {
    assert_eq!(chars_of("héllo, wörld"), chars("héllo, wörld"));
    assert_eq!(chars_of(""), Vec::<char>::new());
    assert_eq!(string_of(&chars("héllo")), "héllo");
    assert_eq!(string_of(&Vec::new()), "");
    let mut a = chars("ab");
    append_chars(&mut a, &chars("cd"));
    assert_eq!(a, chars("abcd"));
    assert_eq!(copy_prefix(&chars("abcd"), 3), chars("abc"));
}

#[test]
fn split_keeps_empty_pieces() {
    assert_eq!(strings(split_chars(&chars("a,b,,c"), ',')), vec!["a", "b", "", "c"]);
    assert_eq!(strings(split_chars(&chars(""), ',')), vec![""]);
    assert_eq!(strings(split_chars(&chars(","), ',')), vec!["", ""]);
    assert_eq!(strings(split_chars(&chars("abc"), ',')), vec!["abc"]);
}

#[test]
fn join_puts_the_separator_between_pieces() {
    let pieces = vec![chars("a"), chars(""), chars("bc")];
    assert_eq!(string_of(&join_chars(&pieces, ',')), "a,,bc");
    assert_eq!(string_of(&join_chars(&vec![chars("a")], ',')), "a");
    assert_eq!(string_of(&join_chars(&Vec::new(), ',')), "");
    assert_eq!(split_chars(&join_chars(&pieces, ';'), ';'), pieces);
}

#[test]
fn lines_are_those_of_std() {
    for text in ["", "a", "a\n", "a\nb", "a\r\nb\r\n", "a\n\nb\n\n", "\n", "a\r", "a\r\r\n", "\r\n\r"] {
        let want: Vec<String> = text.lines().map(|l| l.to_string()).collect();
        assert_eq!(strings(lines_chars(&chars(text))), want, "{:?}", text);
    }
}

#[test]
fn decimal_writes_without_leading_zeros() {
    assert_eq!(string_of(&decimal_chars(0)), "0");
    assert_eq!(string_of(&decimal_chars(7)), "7");
    assert_eq!(string_of(&decimal_chars(10)), "10");
    assert_eq!(string_of(&decimal_chars(1234567890)), "1234567890");
    assert_eq!(string_of(&decimal_chars(usize::MAX)), usize::MAX.to_string());
}

#[test]
fn parse_decimal_reads_as_std_does() {
    let max = usize::MAX.to_string();
    let over = format!("{}0", max);
    for text in ["0", "7", "+7", "007", "", "+", "-1", "1 ", " 1", "12a", "++1", "1+", max.as_str(), over.as_str(), "18446744073709551616"] {
        assert_eq!(parse_decimal_chars(&chars(text)), text.parse::<usize>().ok(), "{:?}", text);
    }
}

#[test]
fn timestamp_new_takes_what_chrono_takes() {
    let cases: [(i64, u32); 14] = [
        (0, 0),
        (0, 999_999_999),
        (0, 1_000_000_000),
        (59, 1_000_000_000),
        (59, 1_999_999_999),
        (59, 2_000_000_000),
        (-1, 1_500_000_000),
        (-2, 1_500_000_000),
        (-61, 1_000_000_000),
        (MIN_SECS, 0),
        (MIN_SECS - 1, 0),
        (MAX_SECS, 1_999_999_999),
        (MAX_SECS + 1, 0),
        (i64::MIN, 0),
    ];
    for (secs, nanos) in cases {
        let ours = Timestamp::new(secs, nanos);
        let theirs = chrono::DateTime::from_timestamp(secs, nanos);
        assert_eq!(ours.is_some(), theirs.is_some(), "{} {}", secs, nanos);
        if let Some(t) = ours {
            assert_eq!(t.secs(), secs);
            assert_eq!(t.nanos(), nanos);
        }
    }
    assert!(Timestamp::new(i64::MAX, 0).is_none());
}

#[test]
fn stamps_are_written_as_chrono_displays_them() {
    let t = Timestamp::new(1431648000, 0).unwrap();
    assert_eq!(string_of(&stamp_chars(t)), "2015-05-15 00:00:00 UTC");
    let leap = Timestamp::new(59, 1_250_000_000).unwrap();
    assert_eq!(string_of(&stamp_chars(leap)), "1970-01-01 00:00:60.250 UTC");
}

#[test]
fn stamps_that_were_written_are_read_back() {
    let cases: [(i64, u32); 8] = [
        (0, 0),
        (1431648000, 1),
        (-1, 999_999_999),
        (59, 1_250_000_000),
        (MIN_SECS, 0),
        (MAX_SECS, 999_999_999),
        (253_402_300_800, 0),
        (-62_167_219_201, 5_000),
    ];
    for (secs, nanos) in cases {
        let t = Timestamp::new(secs, nanos).unwrap();
        let text = stamp_chars(t);
        assert!(!text.is_empty());
        assert!(!text.contains(&','));
        assert!(!text.contains(&'\n'));
        assert!(!text.contains(&'\r'));
        assert_eq!(read_stamp_chars(&text), Some(t), "{} {}", secs, nanos);
    }
}

#[test]
fn stamps_that_are_none_are_not_read() {
    assert_eq!(read_stamp_chars(&chars("")), None);
    assert_eq!(read_stamp_chars(&chars("2015-05-15")), None);
    assert_eq!(read_stamp_chars(&chars("2015-13-15 00:00:00 UTC")), None);
}

#[test]
fn choice_of_each_number() {
    let all = [
        Choice::Exit,
        Choice::DisplayMenu,
        Choice::Insert,
        Choice::Update,
        Choice::SoftDelete,
        Choice::Restore,
        Choice::Delete,
        Choice::List,
        Choice::ExportToCsv,
        Choice::SeedTodo,
        Choice::LoadFromFile,
        Choice::CountTodo,
    ];
    for (i, want) in all.iter().enumerate() {
        assert_eq!(Choice::try_from(i as u8), Ok(*want));
    }
    assert_eq!(Choice::try_from(12), Err("Invalid value: 12".to_string()));
    assert_eq!(Choice::try_from(255), Err("Invalid value: 255".to_string()));
}

#[test]
fn the_table_holds_every_task() {
    let mut app = TodoApp::new();
    app.insert_todo_at("buy milk".to_string(), Timestamp::new(1431648000, 0).unwrap());
    app.insert_todo_at("call home".to_string(), Timestamp::new(0, 0).unwrap());
    assert!(app.soft_delete_todo_at(2, Timestamp::new(60, 0).unwrap()));
    let shown = app.list_todos().unwrap();
    for part in ["ID", "Title", "Deleted At", "buy milk", "call home", "Draft", "2015-05-15 00:00:00 UTC", "1970-01-01 00:01:00 UTC"] {
        assert!(shown.contains(part), "{}", part);
    }
}

#[test]
fn the_table_of_an_empty_list_holds_the_titles() {
    let shown = TodoApp::new().list_todos().unwrap();
    assert!(!shown.is_empty());
    for title in ["ID", "Title", "Status", "Created At", "Updated At", "Deleted At"] {
        assert!(shown.contains(title), "{}", title);
    }
}

#[test]
fn the_table_holds_every_field_of_every_task() {
    let mut app = TodoApp::new();
    app.insert_todo_at("plain".to_string(), Timestamp::new(1, 0).unwrap());
    app.insert_todo_at("  spaces round  ".to_string(), Timestamp::new(2, 500_000_000).unwrap());
    app.insert_todo_at("a\rb\r".to_string(), Timestamp::new(3, 0).unwrap());
    app.insert_todo_at("wide: 日本語, ünï".to_string(), Timestamp::new(4, 0).unwrap());
    app.insert_todo_at("".to_string(), Timestamp::new(5, 0).unwrap());
    assert!(app.update_todo(2));
    assert!(app.soft_delete_todo_at(4, Timestamp::new(6, 0).unwrap()));
    let shown = app.list_todos().unwrap();
    for row in todo_app::table::table_rows(app.todos()) {
        assert_eq!(row.len(), 6);
        for cell in row {
            assert!(shown.contains(&cell), "{:?}", cell);
        }
    }
}

#[test]
fn the_table_draws_a_title_with_a_line_feed_over_two_lines() {
    let mut app = TodoApp::new();
    app.insert_todo_at("first\nsecond".to_string(), Timestamp::new(1, 0).unwrap());
    let shown = app.list_todos().unwrap();
    assert!(!shown.contains("first\nsecond"));
    assert!(shown.contains("first"));
    assert!(shown.contains("second"));
}

#[test]
fn the_table_cells_of_a_task() {
    let mut app = TodoApp::new();
    app.insert_todo_at("buy milk".to_string(), Timestamp::new(1431648000, 0).unwrap());
    let rows = todo_app::table::table_rows(app.todos());
    assert_eq!(
        rows,
        vec![vec![
            "1".to_string(),
            "buy milk".to_string(),
            "Draft".to_string(),
            "2015-05-15 00:00:00 UTC".to_string(),
            "2015-05-15 00:00:00 UTC".to_string(),
            "".to_string(),
        ]]
    );
}
