//! The raw output: what the terminal displayed, preceded (unless appending)
//! by a sequence that gives the terminal the session's size.
use vstd::prelude::*;
use crate::encoder::raw::spec_resize_sequence;
use crate::text::{push_decimal, string_from_chars, utf8_bytes};
use crate::tty::TtySize;
use vstd::utf8::encode_utf8;

verus! {

/// The raw output of a session.
pub struct Raw {
    pub append: bool,
}

impl Raw {
    pub fn new(append: bool) -> (r: Self)
        ensures
            r.append == append,
    {
        Raw { append }
    }

    /// The bytes written when the session starts: the resize sequence, or
    /// nothing when appending to an existing file.
    pub fn start(&mut self, tty_size: TtySize) -> (r: Vec<u8>)
        ensures
            final(self).append == old(self).append,
            old(self).append ==> r@.len() == 0,
            !old(self).append ==> r@ == encode_utf8(spec_resize_sequence(tty_size.1, tty_size.0)),
    {
        if self.append {
            Vec::new()
        } else {
            let mut out: Vec<char> = vec!['\u{1b}', '[', '8', ';'];
            push_decimal(&mut out, tty_size.1 as u64);
            out.push(';');
            push_decimal(&mut out, tty_size.0 as u64);
            out.push('t');
            assert(out@ =~= spec_resize_sequence(tty_size.1, tty_size.0));
            let s = string_from_chars(out.as_slice());
            utf8_bytes(s.as_str())
        }
    }

    /// The bytes written for output: the output itself.
    pub fn output(&mut self, data: &[u8]) -> (r: Vec<u8>)
        ensures
            r@ == data@,
    {
        vstd::slice::slice_to_vec(data)
    }

    /// Input is not written.
    pub fn input(&mut self, data: &[u8]) -> (r: Vec<u8>)
        ensures
            r@.len() == 0,
    {
        Vec::new()
    }

    /// Resizes are not written.
    pub fn resize(&mut self, size: (u16, u16)) -> (r: Vec<u8>)
        ensures
            r@.len() == 0,
    {
        Vec::new()
    }

    /// Markers are not written.
    pub fn marker(&mut self) -> (r: Vec<u8>)
        ensures
            r@.len() == 0,
    {
        Vec::new()
    }
}

} // verus!
