use vstd::prelude::*;

pub mod text;
pub mod file_info;
pub mod order;
pub mod utils;
pub mod cleaner;
pub mod lang;
pub mod settings;
pub mod components;
pub mod sorter;
pub mod cache;
pub mod duplicates;
pub mod cleanup;
pub mod scanner;
pub mod app_state;

verus! {
}
