pub mod config;
pub mod expand;
pub mod list;
pub mod opt;
pub mod pattern;
pub mod shell;
pub mod strutil;
