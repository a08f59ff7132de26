//! Todos as code: finds TODO comments in source files, and filters and summarises them.
pub mod catalog;
pub mod cli;
pub mod comments;
pub mod display;
pub mod filter;
pub mod fs;
pub mod lang;
pub mod lint;
pub mod pathspec;
pub mod sort;
pub mod summary;
pub mod syntax;
pub mod text;
pub mod todo;
pub mod totals;
pub mod tui;
pub mod view;
