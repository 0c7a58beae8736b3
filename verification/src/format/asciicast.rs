//! Event codes of the earlier asciicast writer.
use vstd::prelude::*;
use crate::text::{append_str, push_decimal, spec_decimal, string_from_chars};

verus! {

/// The code of an event.
#[derive(PartialEq, Eq, Debug, Clone, Copy, Structural)]
pub enum EventCode {
    Output,
    Input,
    Resize,
    Marker,
    Other(char),
}

/// The text of a code: `o`, `i`, `r`, `m`, or the other code's character.
pub open spec fn code_text(c: EventCode) -> Seq<char> {
    match c {
        EventCode::Output => seq!['o'],
        EventCode::Input => seq!['i'],
        EventCode::Resize => seq!['r'],
        EventCode::Marker => seq!['m'],
        EventCode::Other(t) => seq![t],
    }
}

impl EventCode {
    /// The text of the code, as `Display` writes it.
    pub fn to_string(&self) -> (s: String)
        ensures
            s@ == code_text(*self),
    {
        let c = match self {
            EventCode::Output => 'o',
            EventCode::Input => 'i',
            EventCode::Resize => 'r',
            EventCode::Marker => 'm',
            EventCode::Other(t) => *t,
        };
        let v: Vec<char> = vec![c];
        string_from_chars(v.as_slice())
    }
}

/// The code of an event line's second element (`None` when it is not a
/// string): the texts `o`, `i`, `r`, `m`, or any other text by its first
/// character; an empty text or a non-string is an error naming the line.
pub open spec fn spec_event_code(value: Option<Seq<char>>, line: nat) -> Result<EventCode, Seq<char>> {
    match value {
        None => Err("line "@ + spec_decimal(line) + ": event code must be a string"@),
        Some(s) => if s == seq!['o'] {
            Ok(EventCode::Output)
        } else if s == seq!['i'] {
            Ok(EventCode::Input)
        } else if s == seq!['r'] {
            Ok(EventCode::Resize)
        } else if s == seq!['m'] {
            Ok(EventCode::Marker)
        } else if s.len() > 0 {
            Ok(EventCode::Other(s[0]))
        } else {
            Err("line "@ + spec_decimal(line) + ": missing event code"@)
        },
    }
}

fn line_error(line: usize, what: &str) -> (s: String)
    ensures
        s@ == "line "@ + spec_decimal(line as nat) + what@,
{
    let mut out: Vec<char> = Vec::new();
    append_str(&mut out, "line ");
    push_decimal(&mut out, line as u64);
    append_str(&mut out, what);
    string_from_chars(out.as_slice())
}

/// Reads the code of an event on line `line`.
pub fn event_code(value: Option<&str>, line: usize) -> (r: Result<EventCode, String>)
    ensures
        match spec_event_code(
            match value {
                Some(v) => Some(v@),
                None => None,
            },
            line as nat,
        ) {
            Ok(c) => r == Ok::<EventCode, String>(c),
            Err(m) => r matches Err(e) && e@ == m,
        },
{
    let v = match value {
        Some(v) => v,
        None => {
            return Err(line_error(line, ": event code must be a string"));
        },
    };
    let cs = crate::text::chars_of(v);
    if cs.len() == 0 {
        return Err(line_error(line, ": missing event code"));
    }
    if cs.len() == 1 {
        let c = cs[0];
        assert(v@ =~= seq![c]);
        if c == 'o' {
            return Ok(EventCode::Output);
        } else if c == 'i' {
            return Ok(EventCode::Input);
        } else if c == 'r' {
            return Ok(EventCode::Resize);
        } else if c == 'm' {
            return Ok(EventCode::Marker);
        }
    }
    assert(v@.len() != 1 ==> v@ != seq!['o'] && v@ != seq!['i'] && v@ != seq!['r'] && v@ != seq![
        'm',
    ]);
    Ok(EventCode::Other(cs[0]))
}

} // verus!
