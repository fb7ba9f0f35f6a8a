//! An in-memory list of tasks with soft deletion and a flat CSV form.

pub mod csv;
pub mod menu;
pub mod table;
pub mod text;
pub mod time;
pub mod todo;
