//! The command-line surface, as plain data: the binary's argument parser
//! builds these values and hands them to the library.

use vstd::prelude::*;

verus! {

#[derive(Debug)]
pub struct Opt {
    pub version: Option<bool>,
    pub subcommand: Subcommand,
}

#[derive(Debug)]
pub enum Subcommand {
    Init(InitArgs),
    List(ListArgs),
    Expand(ExpandArgs),
}

#[derive(Debug)]
pub struct InitArgs {
    pub bind_keys: bool,
}

#[derive(Debug)]
pub struct ListArgs {}

#[derive(Debug)]
pub struct ExpandArgs {
    pub lbuffer: String,
    pub rbuffer: String,
}

} // verus!
