//! The rules of a command-line trash: what a `.trashinfo` file says, which
//! items an age or a pattern selects, what each command prints, and in what
//! order the file system is touched.

pub mod age;
pub mod date;
pub mod delete;
pub mod empty;
pub mod entries;
pub mod info;
pub mod invoke;
pub mod json;
pub mod list;
pub mod paths;
pub mod percent;
pub mod remove;
pub mod report;
pub mod restore;
pub mod size;
pub mod text;
