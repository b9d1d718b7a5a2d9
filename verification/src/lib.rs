//! The logic of `ustam`, a simplified `ls`: parsing the command line, filtering
//! entries by hidden-file convention and `.gitignore` patterns, extracting extra
//! information from README taglines and PDF titles, sorting, and formatting the
//! listing. Reading the file system and printing are left to the program that
//! uses this library.

use vstd::prelude::*;

pub mod text;
pub mod gitignore;
pub mod details;
pub mod cli;
pub mod entry;
pub mod order;
pub mod laws;

verus! {
}
