//! Small file utilities: substring search over directory walks and file
//! contents, directory listing and file concatenation, as pure functions on
//! plain values with machine-checked contracts.
//!
//! Nothing here touches the file system. A caller walks a directory or reads
//! a file, hands over what came back, and prints what is returned.

pub mod cat;
pub mod find;
pub mod grep;
pub mod lines;
pub mod ls;
pub mod output;
pub mod path;
pub mod text;
pub mod walk;
