//! Informational messages, which can be switched off.
use vstd::prelude::*;
use crate::text::{append_str, chars_of, string_from_chars};

verus! {

/// Whether informational messages are printed.
pub struct Logger {
    enabled: bool,
}

impl Logger {
    /// Whether messages are printed.
    pub closed spec fn enabled(&self) -> bool {
        self.enabled
    }

    /// A logger that prints.
    pub fn new() -> (l: Self)
        ensures
            l.enabled(),
    {
        Logger { enabled: true }
    }

    /// Stops printing informational messages.
    pub fn disable(&mut self)
        ensures
            !final(self).enabled(),
    {
        self.enabled = false;
    }

    /// The line to print for `message`: `::: ` and the message, or nothing
    /// once disabled.
    pub fn line(&self, message: &str) -> (r: Option<String>)
        ensures
            self.enabled() ==> (r matches Some(s) && s@ == "::: "@ + message@),
            !self.enabled() ==> r is None,
    {
        if self.enabled {
            let mut out = chars_of("::: ");
            append_str(&mut out, message);
            Some(string_from_chars(out.as_slice()))
        } else {
            None
        }
    }
}

} // verus!
