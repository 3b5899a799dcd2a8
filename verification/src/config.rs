//! The assembled rule set the engine evaluates.
//!
//! Loading and merging rule files is the caller's business; the engine only
//! sees the final ordered list of rules, whose order is significant for the
//! candidate chain.

pub mod abbrev;
pub mod config_path;
pub mod snippet;

use vstd::prelude::*;

use crate::config::abbrev::Abbrev;

verus! {

pub struct Config {
    pub abbrevs: Vec<Abbrev>,
}

impl Config {
    /// Appends the rules of `other` after the rules already held, keeping
    /// declaration order.
    pub fn merge(&mut self, other: Self)
        ensures
            final(self).abbrevs@ == old(self).abbrevs@ + other.abbrevs@,
    {
        let mut other = other;
        self.abbrevs.append(&mut other.abbrevs);
    }
}

impl Default for Config {
    fn default() -> (r: Self)
        ensures
            r.abbrevs@.len() == 0,
    {
        Config { abbrevs: Vec::new() }
    }
}

} // verus!
