//! The numbered commands of the menu.

use crate::text::{append_chars, chars_of, decimal, decimal_chars, string_of};
use vstd::prelude::*;

verus! {

/// One command of the menu.
#[derive(Debug, Clone, Copy, PartialEq, Eq, Structural)]
pub enum Choice {
    Exit,
    DisplayMenu,
    Insert,
    Update,
    SoftDelete,
    Restore,
    Delete,
    List,
    ExportToCsv,
    SeedTodo,
    LoadFromFile,
    CountTodo,
}

/// The command that stands under `value` in the menu, if there is one.
pub open spec fn choice_of(value: u8) -> Option<Choice> {
    if value == 0 {
        Some(Choice::Exit)
    } else if value == 1 {
        Some(Choice::DisplayMenu)
    } else if value == 2 {
        Some(Choice::Insert)
    } else if value == 3 {
        Some(Choice::Update)
    } else if value == 4 {
        Some(Choice::SoftDelete)
    } else if value == 5 {
        Some(Choice::Restore)
    } else if value == 6 {
        Some(Choice::Delete)
    } else if value == 7 {
        Some(Choice::List)
    } else if value == 8 {
        Some(Choice::ExportToCsv)
    } else if value == 9 {
        Some(Choice::SeedTodo)
    } else if value == 10 {
        Some(Choice::LoadFromFile)
    } else if value == 11 {
        Some(Choice::CountTodo)
    } else {
        None
    }
}

/// What is said of a number under which the menu lists nothing.
pub open spec fn invalid_value_text(value: u8) -> Seq<char> {
    "Invalid value: "@ + decimal(value as nat)
}

impl Choice {
    /// The command that the menu lists under `value`, or, for a number
    /// above the last one, a message that names the number.
    pub fn try_from(value: u8) -> (out: Result<Choice, String>)
        ensures
            match choice_of(value) {
                Some(c) => out == Ok::<Choice, String>(c),
                None => out is Err && out->Err_0@ == invalid_value_text(value),
            },
    {
        match value {
            0 => Ok(Choice::Exit),
            1 => Ok(Choice::DisplayMenu),
            2 => Ok(Choice::Insert),
            3 => Ok(Choice::Update),
            4 => Ok(Choice::SoftDelete),
            5 => Ok(Choice::Restore),
            6 => Ok(Choice::Delete),
            7 => Ok(Choice::List),
            8 => Ok(Choice::ExportToCsv),
            9 => Ok(Choice::SeedTodo),
            10 => Ok(Choice::LoadFromFile),
            11 => Ok(Choice::CountTodo),
            _ => {
                let mut text = chars_of("Invalid value: ");
                let n: usize = value as usize;
                let digits = decimal_chars(n);
                append_chars(&mut text, &digits);
                Err(string_of(&text))
            },
        }
    }
}

} // verus!
