//! The interactive capability a front end needs: present an enumerated list
//! of candidates, read a line of text, ask yes/no before destructive actions.
//! Implementations live with the front ends; tests substitute scripted
//! answers. The domain model never depends on this directly.

use vstd::prelude::*;

verus! {

pub trait Prompter {
    /// Present the labels and let the operator pick one of them, or cancel.
    fn select(&self, items: &[String], prompt: &str) -> Result<Option<usize>, String>;

    /// Read a line of text, starting from `initial`; `None` when the
    /// operator backs out.
    fn input(&self, prompt: &str, initial: &str) -> Result<Option<String>, String>;

    /// Ask yes or no.
    fn confirm(&self, prompt: &str) -> Result<bool, String>;
}

} // verus!
