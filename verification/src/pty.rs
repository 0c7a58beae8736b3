//! Finding the terminal of another process.
use vstd::prelude::*;
use crate::text::{append_str, chars_of, string_from_chars};

verus! {

/// Whether `s` begins with `p`.
pub open spec fn starts_with(s: Seq<char>, p: Seq<char>) -> bool {
    p.len() <= s.len() && s.take(p.len() as int) == p
}

/// Whether `s` begins with `p`.
pub fn str_starts_with(s: &str, p: &str) -> (r: bool)
    ensures
        r == starts_with(s@, p@),
{
    let a = chars_of(s);
    let b = chars_of(p);
    if b.len() > a.len() {
        return false;
    }
    let mut i: usize = 0;
    while i < b.len()
        invariant
            a@ == s@,
            b@ == p@,
            b@.len() <= a@.len(),
            i <= b@.len(),
            forall|k: int| 0 <= k < i ==> a@[k] == b@[k],
        decreases b@.len() - i,
    {
        if a[i] != b[i] {
            assert(a@.take(b@.len() as int)[i as int] != b@[i as int]);
            return false;
        }
        i = i + 1;
    }
    assert(a@.take(b@.len() as int) =~= b@);
    true
}

/// The terminal of a process, given what its standard input
/// (`/proc/<pid>/fd/0`) links to: a pseudo-terminal `/dev/pts/...` or a
/// terminal `/dev/tty...`; anything else is refused.
pub open spec fn spec_resolve_pty(pid: i32, target: Seq<char>) -> Result<Seq<char>, Seq<char>> {
    if starts_with(target, "/dev/pts/"@) || starts_with(target, "/dev/tty"@) {
        Ok(target)
    } else {
        Err("process "@ + crate::asciicast::v2::spec_signed_decimal(pid as int)
            + " does not have a PTY as stdin (found: "@ + target + ")"@)
    }
}

/// The terminal of process `pid`, given the target of its standard input
/// link.
pub fn resolve_pty_from_pid(pid: i32, stdin_target: &str) -> (r: Result<String, String>)
    ensures
        match spec_resolve_pty(pid, stdin_target@) {
            Ok(p) => r matches Ok(x) && x@ == p,
            Err(e) => r matches Err(x) && x@ == e,
        },
{
    if str_starts_with(stdin_target, "/dev/pts/") || str_starts_with(stdin_target, "/dev/tty") {
        Ok(stdin_target.to_owned())
    } else {
        let mut msg = chars_of("process ");
        crate::asciicast::v2::push_signed(&mut msg, pid);
        append_str(&mut msg, " does not have a PTY as stdin (found: ");
        append_str(&mut msg, stdin_target);
        append_str(&mut msg, ")");
        Err(string_from_chars(msg.as_slice()))
    }
}

/// The link whose target names the terminal of process `pid`'s standard
/// input: `/proc/<pid>/fd/0`.
pub fn stdin_link_path(pid: i32) -> (s: String)
    ensures
        s@ == "/proc/"@ + crate::asciicast::v2::spec_signed_decimal(pid as int) + "/fd/0"@,
{
    let mut out = chars_of("/proc/");
    crate::asciicast::v2::push_signed(&mut out, pid);
    append_str(&mut out, "/fd/0");
    string_from_chars(out.as_slice())
}

/// The terminal in `lsof` output from line `i` on: the ninth column (the
/// file name) of the first line that has one naming `/dev/ttys...` or
/// `/dev/pty...`.
pub open spec fn lsof_pty(lines: Seq<Seq<char>>, i: int) -> Option<Seq<char>>
    decreases lines.len() - i,
{
    if i < 0 || i >= lines.len() {
        None
    } else {
        let cols = crate::text::words(lines[i]);
        if cols.len() >= 9 && (starts_with(cols[8], "/dev/ttys"@) || starts_with(
            cols[8],
            "/dev/pty"@,
        )) {
            Some(cols[8])
        } else {
            lsof_pty(lines, i + 1)
        }
    }
}

/// The terminal of process `pid` in the output of `lsof -p PID -a -d 0`,
/// which lists its standard input: searched below the header line (see
/// `lsof_pty`).
pub open spec fn spec_pty_from_lsof(pid: i32, output: Seq<char>) -> Result<Seq<char>, Seq<char>> {
    match lsof_pty(crate::text::std_lines(output), 1) {
        Some(p) => Ok(p),
        None => Err("could not find PTY for process "@ + crate::asciicast::v2::spec_signed_decimal(
            pid as int,
        )),
    }
}

/// The terminal of process `pid`, given what `lsof` printed about its
/// standard input.
pub fn pty_from_lsof_output(pid: i32, output: &str) -> (r: Result<String, String>)
    ensures
        match spec_pty_from_lsof(pid, output@) {
            Ok(p) => r matches Ok(x) && x@ == p,
            Err(e) => r matches Err(x) && x@ == e,
        },
{
    let cs = chars_of(output);
    let lines = crate::text::lines_of(cs.as_slice());
    let ghost ls = crate::text::std_lines(output@);
    let ttys = chars_of("/dev/ttys");
    let pty = chars_of("/dev/pty");
    let mut i: usize = 1;
    while i < lines.len()
        invariant
            ls == crate::text::std_lines(output@),
            lines@.len() == ls.len(),
            forall|k: int| 0 <= k < lines@.len() ==> (#[trigger] lines@[k])@ == ls[k],
            ttys@ == "/dev/ttys"@,
            pty@ == "/dev/pty"@,
            1 <= i,
            lsof_pty(ls, 1) == lsof_pty(ls, i as int),
        decreases lines.len() - i,
    {
        let cols = crate::text::split_whitespace(lines[i].as_slice());
        if cols.len() >= 9 {
            let p = string_from_chars(cols[8].as_slice());
            if str_starts_with(p.as_str(), "/dev/ttys") || str_starts_with(p.as_str(), "/dev/pty") {
                return Ok(p);
            }
        }
        i = i + 1;
    }
    let mut msg = chars_of("could not find PTY for process ");
    crate::asciicast::v2::push_signed(&mut msg, pid);
    Err(string_from_chars(msg.as_slice()))
}

} // verus!
