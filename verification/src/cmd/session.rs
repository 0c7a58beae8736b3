//! The decisions of the session command made before the session starts:
//! how the output file is opened and in which format it is written, which
//! environment is recorded, and the command and environment the session
//! runs with.
use vstd::prelude::*;
use crate::asciicast::Version;
use crate::locale::opt_view;
use crate::cli::Format;
use crate::hash::{fnv1a_128, spec_fnv1a_128};
use crate::util::{extension_of, path_extension};
use crate::json::hex_digit;
use crate::text::{
    append_str, chars_of, push_decimal, spec_decimal, split_on, split_on_char, split_once,
    split_once_char, str_eq, string_from_chars, utf8_bytes,
};
use vstd::utf8::encode_utf8;

verus! {

/// How the output file is opened, as (overwrite, append), given the flags
/// and whether the file exists and its length: an empty existing file is
/// overwritten; another existing file needs `--overwrite` or `--append`;
/// a missing file is never appended to.
pub fn get_file_mode(overwrite: bool, append: bool, exists: bool, len: u64) -> (r: Result<
    (bool, bool),
    String,
>)
    ensures
        !exists ==> r == Ok::<(bool, bool), String>((overwrite, false)),
        exists && len == 0 ==> r == Ok::<(bool, bool), String>((true, false)),
        exists && len != 0 && (overwrite || append) ==> r == Ok::<(bool, bool), String>(
            (overwrite, append),
        ),
        exists && len != 0 && !overwrite && !append ==> (r matches Err(e) && e@
            == "file exists, use --overwrite or --append"@),
{
    let mut overwrite = overwrite;
    let mut append = append;
    if exists {
        if len == 0 {
            overwrite = true;
            append = false;
        }
        if !append && !overwrite {
            return Err("file exists, use --overwrite or --append".to_string());
        }
    } else {
        append = false;
    }
    Ok((overwrite, append))
}

/// The format of the output file, when it is known without reading the
/// file: the one asked for; txt for a `.txt` extension; asciicast v3 for a
/// new recording. `None` when appending without either: the format of the
/// existing file decides (see `append_format`).
pub fn get_file_format(output_format: Option<Format>, path: &str, append: bool) -> (r: Option<
    Format,
>)
    ensures
        output_format is Some ==> r == output_format,
        output_format is None && path_extension(path@) == Some("txt"@) ==> r == Some(Format::Txt),
        output_format is None && path_extension(path@) != Some("txt"@) && append ==> r is None,
        output_format is None && path_extension(path@) != Some("txt"@) && !append ==> r == Some(
            Format::AsciicastV3,
        ),
{
    match output_format {
        Some(f) => Some(f),
        None => {
            let is_txt = match extension_of(path) {
                Some(e) => str_eq(e.as_str(), "txt"),
                None => false,
            };
            if is_txt {
                Some(Format::Txt)
            } else if append {
                None
            } else {
                Some(Format::AsciicastV3)
            }
        },
    }
}

/// The format to append in, given what opening the existing file gave: its
/// version, or the error message. Version 1 files cannot be appended to.
pub fn append_format(opened: Result<Version, String>) -> (r: Result<Format, String>)
    ensures
        match opened {
            Ok(Version::One) => r matches Err(e) && e@
                == "appending to asciicast v1 files is not supported"@,
            Ok(Version::Two) => r == Ok::<Format, String>(Format::AsciicastV2),
            Ok(Version::Three) => r == Ok::<Format, String>(Format::AsciicastV3),
            Err(m) => r matches Err(e) && e@ == "can't append: "@ + m@,
        },
{
    match opened {
        Ok(Version::One) => Err("appending to asciicast v1 files is not supported".to_string()),
        Ok(Version::Two) => Ok(Format::AsciicastV2),
        Ok(Version::Three) => Ok(Format::AsciicastV3),
        Err(m) => {
            let mut out: Vec<char> = Vec::new();
            append_str(&mut out, "can't append: ");
            append_str(&mut out, m.as_str());
            assert(out@ =~= "can't append: "@ + m@);
            Err(string_from_chars(out.as_slice()))
        },
    }
}

/// The names of the variables to record: those given, else those of the
/// configuration, else `SHELL`; comma-separated.
pub open spec fn capture_names(var_names: Option<String>, config_names: Option<String>) -> Seq<
    Seq<char>,
> {
    match var_names {
        Some(n) => split_on(n@, ','),
        None => match config_names {
            Some(n) => split_on(n@, ','),
            None => seq!["SHELL"@],
        },
    }
}

/// The variables whose names are among `names`, in order.
pub open spec fn captured(vars: Seq<(String, String)>, names: Seq<Seq<char>>) -> Seq<
    (String, String),
>
    decreases vars.len(),
{
    if vars.len() == 0 {
        Seq::empty()
    } else {
        let rest = captured(vars.drop_last(), names);
        if names.contains(vars.last().0@) {
            rest.push(vars.last())
        } else {
            rest
        }
    }
}

fn names_contain(names: &Vec<Vec<char>>, key: &str) -> (r: bool)
    ensures
        r == names@.map_values(|n: Vec<char>| n@).contains(key@),
{
    let k = chars_of(key);
    let ghost ns = names@.map_values(|n: Vec<char>| n@);
    let mut i: usize = 0;
    while i < names.len()
        invariant
            k@ == key@,
            ns == names@.map_values(|n: Vec<char>| n@),
            i <= names.len(),
            forall|j: int| 0 <= j < i ==> ns[j] != key@,
        decreases names.len() - i,
    {
        if crate::text::chars_eq(names[i].as_slice(), k.as_slice()) {
            assert(ns[i as int] == key@);
            return true;
        }
        i = i + 1;
    }
    assert forall|j: int| 0 <= j < ns.len() implies ns[j] != key@ by {}
    false
}

/// The environment recorded with a session: the variables, of those
/// given, whose names are listed (see `capture_names`).
pub fn capture_env(
    var_names: Option<String>,
    config_names: Option<String>,
    vars: Vec<(String, String)>,
) -> (r: Vec<(String, String)>)
    ensures
        r@ == captured(vars@, capture_names(var_names, config_names)),
{
    let ghost names = capture_names(var_names, config_names);
    let list: String = match var_names {
        Some(n) => n,
        None => match config_names {
            Some(n) => n,
            None => "SHELL".to_string(),
        },
    };
    let lcs = chars_of(list.as_str());
    let parts = split_on_char(lcs.as_slice(), ',');
    proof {
        let ns = parts@.map_values(|n: Vec<char>| n@);
        assert(ns =~= names) by {
            if var_names is None && config_names is None {
                reveal_strlit("SHELL");
                assert(split_on("SHELL"@, ',') =~= seq!["SHELL"@]) by {
                    crate::text::lemma_index_of("SHELL"@, ',');
                }
            }
        }
    }
    let ghost orig = vars@;
    let n = vars.len();
    let mut rev = crate::util::reversed(vars);
    let mut out: Vec<(String, String)> = Vec::new();
    let mut k: usize = 0;
    while rev.len() > 0
        invariant
            n == orig.len(),
            k + rev@.len() == n,
            forall|j: int| 0 <= j < rev@.len() ==> rev@[j] == orig[n - 1 - j],
            parts@.map_values(|n: Vec<char>| n@) == names,
            out@ == captured(orig.take(k as int), names),
        decreases rev@.len(),
    {
        let (key, value) = rev.pop().unwrap();
        assert((key, value) == orig[k as int]);
        let keep = names_contain(&parts, key.as_str());
        proof {
            let t = orig.take(k + 1);
            assert(t.drop_last() =~= orig.take(k as int));
            assert(t.last() == orig[k as int]);
        }
        if keep {
            out.push((key, value));
        }
        k = k + 1;
    }
    assert(orig.take(k as int) =~= orig);
    out
}

/// The command a session runs: the shell runs the given command, else the
/// user's shell, else `/bin/sh`.
pub fn build_exec_command(command: Option<String>, shell: Option<String>) -> (r: Vec<String>)
    ensures
        r@.len() == 3,
        r@[0]@ == "/bin/sh"@,
        r@[1]@ == "-c"@,
        r@[2]@ == match command {
            Some(c) => c@,
            None => match shell {
                Some(s) => s@,
                None => "/bin/sh"@,
            },
        },
{
    let command = match command {
        Some(c) => c,
        None => match shell {
            Some(s) => s,
            None => "/bin/sh".to_string(),
        },
    };
    let mut r: Vec<String> = Vec::new();
    r.push("/bin/sh".to_string());
    r.push("-c".to_string());
    r.push(command);
    r
}

/// The lowercase hexadecimal digits of `n`, without leading zeros.
pub open spec fn spec_hex(n: nat) -> Seq<char>
    decreases n,
{
    if n < 16 {
        seq![hex_digit(n)]
    } else {
        spec_hex(n / 16).push(hex_digit(n % 16))
    }
}

/// The lowercase hexadecimal text of `n`, as `{:x}` formats it.
pub fn hex_text(n: u128) -> (s: String)
    ensures
        s@ == spec_hex(n as nat),
{
    let mut digits: Vec<char> = Vec::new();
    let mut m: u128 = n;
    let ghost mut low: Seq<char> = Seq::empty();
    // Collect the digits from the lowest, then reverse them.
    while m >= 16
        invariant
            spec_hex(n as nat) == spec_hex(m as nat) + low,
            digits@ == low.reverse(),
        decreases m,
    {
        let c = crate::asciicast::v2::hex_char((m % 16) as u8);
        digits.push(c);
        proof {
            assert(spec_hex(m as nat) == spec_hex((m / 16) as nat).push(c));
            assert(spec_hex((m / 16) as nat).push(c) + low =~= spec_hex((m / 16) as nat) + (seq![c]
                + low));
            assert((seq![c] + low).reverse() =~= low.reverse().push(c));
            low = seq![c] + low;
        }
        m = m / 16;
    }
    let c = crate::asciicast::v2::hex_char(m as u8);
    digits.push(c);
    proof {
        assert(spec_hex(m as nat) == seq![c]);
        assert((seq![c] + low).reverse() =~= low.reverse().push(c));
        low = seq![c] + low;
    }
    let r = crate::util::reversed(digits);
    assert(r@ =~= low.reverse().reverse());
    assert(low.reverse().reverse() =~= low);
    string_from_chars(r.as_slice())
}

/// The map the name-value pairs make, later pairs replacing earlier ones
/// of the same name.
pub open spec fn pairs_map(pairs: Seq<(String, String)>) -> Map<Seq<char>, Seq<char>>
    decreases pairs.len(),
{
    if pairs.len() == 0 {
        Map::empty()
    } else {
        pairs_map(pairs.drop_last()).insert(pairs.last().0@, pairs.last().1@)
    }
}

/// The variables set by `NAME=VALUE` assignments (split at the first `=`;
/// those without one are skipped), later ones replacing earlier ones.
pub open spec fn assignments_map(vars: Seq<String>) -> Map<Seq<char>, Seq<char>>
    decreases vars.len(),
{
    if vars.len() == 0 {
        Map::empty()
    } else {
        let m = assignments_map(vars.drop_last());
        match split_once(vars.last()@, '=') {
            Some((name, value)) => m.insert(name, value),
            None => m,
        }
    }
}

/// The id of the session run by process `pid`: the FNV-1a hash of the
/// decimal pid, in hexadecimal.
pub open spec fn session_id(pid: u32) -> Seq<char> {
    spec_hex(spec_fnv1a_128(encode_utf8(spec_decimal(pid as nat))) as nat)
}

/// The extra environment of the session's process, as name-value pairs
/// whose map (see `pairs_map`) is: the assignments given, then
/// `ASCIINEMA_SESSION` set to the session id of process `pid`, then
/// `ASCIINEMA_RELAY_ID` set to the relay id, if there is one.
pub fn build_exec_extra_env(vars: &Vec<String>, relay_id: Option<String>, pid: u32) -> (r: Vec<
    (String, String),
>)
    ensures
        pairs_map(r@) == ({
            let m = assignments_map(vars@).insert("ASCIINEMA_SESSION"@, session_id(pid));
            match relay_id {
                Some(id) => m.insert("ASCIINEMA_RELAY_ID"@, id@),
                None => m,
            }
        }),
{
    let mut env: Vec<(String, String)> = Vec::new();
    let mut i: usize = 0;
    while i < vars.len()
        invariant
            i <= vars.len(),
            pairs_map(env@) == assignments_map(vars@.take(i as int)),
        decreases vars.len() - i,
    {
        let cs = chars_of(vars[i].as_str());
        proof {
            let t = vars@.take(i + 1);
            assert(t.drop_last() =~= vars@.take(i as int));
            assert(t.last() == vars@[i as int]);
        }
        match split_once_char(cs.as_slice(), '=') {
            Some((name, value)) => {
                let ghost before = env@;
                env.push((string_from_chars(name.as_slice()), string_from_chars(value.as_slice())));
                assert(env@.drop_last() =~= before);
            },
            None => {},
        }
        i = i + 1;
    }
    assert(vars@.take(i as int) =~= vars@);
    let mut digits: Vec<char> = Vec::new();
    push_decimal(&mut digits, pid as u64);
    let pid_text = string_from_chars(digits.as_slice());
    let pid_bytes = utf8_bytes(pid_text.as_str());
    let id = hex_text(fnv1a_128(pid_bytes.as_slice()));
    assert(id@ == session_id(pid));
    let ghost before = env@;
    let key = "ASCIINEMA_SESSION".to_string();
    assert(key@ == "ASCIINEMA_SESSION"@);
    env.push((key, id));
    assert(env@.drop_last() =~= before);
    assert(pairs_map(env@) == assignments_map(vars@).insert("ASCIINEMA_SESSION"@, session_id(pid)));
    match relay_id {
        Some(rid) => {
            let ghost before2 = env@;
            let key = "ASCIINEMA_RELAY_ID".to_string();
            assert(key@ == "ASCIINEMA_RELAY_ID"@);
            env.push((key, rid));
            assert(env@.drop_last() =~= before2);
        },
        None => {},
    }
    env
}

/// The id of a relay: the FNV-1a hash of its producer URL, in hexadecimal.
pub fn relay_id(ws_producer_url: &str) -> (s: String)
    ensures
        s@ == spec_hex(spec_fnv1a_128(encode_utf8(ws_producer_url@)) as nat),
{
    let b = utf8_bytes(ws_producer_url);
    hex_text(fnv1a_128(b.as_slice()))
}

/// The session's keys: the defaults, with the prefix, pause and marker keys
/// that the configuration defines instead.
pub fn get_key_bindings(
    prefix_key: Option<String>,
    pause_key: Option<String>,
    add_marker_key: Option<String>,
) -> (r: Result<crate::session::KeyBindings, String>)
    ensures
        match crate::config::three_keys(
            crate::config::key_setting(prefix_key, None),
            crate::config::key_setting(pause_key, Some(seq![0x1cu8])),
            crate::config::key_setting(add_marker_key, None),
        ) {
            Ok((p, q, m)) => r matches Ok(k) && crate::config::key_view(k.prefix) == p
                && crate::config::key_view(k.pause) == q && crate::config::key_view(k.add_marker)
                == m,
            Err(e) => r matches Err(x) && x@ == e,
        },
{
    let keys = crate::session::KeyBindings::default();
    assert(crate::config::key_view(keys.pause) == Some(seq![0x1cu8]));
    let prefix = crate::config::configured_key(prefix_key, keys.prefix)?;
    let pause = crate::config::configured_key(pause_key, keys.pause)?;
    let add_marker = crate::config::configured_key(add_marker_key, keys.add_marker)?;
    Ok(crate::session::KeyBindings { prefix, pause, add_marker })
}

} // verus!

verus! {

/// The refusal to stream a shell that is itself part of the stream: when
/// this session's relay id is the one the parent session exported, the
/// error, naming the stream's URL when it is known; `None` otherwise.
pub open spec fn spec_already_streamed(
    relay_id: Option<Seq<char>>,
    parent_relay_id: Option<Seq<char>>,
    url: Option<Seq<char>>,
) -> Option<Seq<char>> {
    match (relay_id, parent_relay_id) {
        (Some(a), Some(b)) => if a == b {
            Some(
                match url {
                    Some(u) => "This shell is already being streamed at "@ + u,
                    None => "This shell is already being streamed"@,
                },
            )
        } else {
            None
        },
        _ => None,
    }
}

/// Whether starting the session would stream the shell it runs in (see
/// `spec_already_streamed`).
pub fn already_streamed_error(
    relay_id: &Option<String>,
    parent_relay_id: &Option<String>,
    url: &Option<String>,
) -> (r: Option<String>)
    ensures
        opt_view(r) == spec_already_streamed(
            opt_view(*relay_id),
            opt_view(*parent_relay_id),
            opt_view(*url),
        ),
{
    match (relay_id, parent_relay_id) {
        (Some(a), Some(b)) => {
            if crate::text::str_eq(a.as_str(), b.as_str()) {
                let mut out: Vec<char> = Vec::new();
                match url {
                    Some(u) => {
                        append_str(&mut out, "This shell is already being streamed at ");
                        append_str(&mut out, u.as_str());
                        assert(out@ =~= "This shell is already being streamed at "@ + u@);
                    },
                    None => {
                        append_str(&mut out, "This shell is already being streamed");
                        assert(out@ =~= "This shell is already being streamed"@);
                    },
                }
                let s = string_from_chars(out.as_slice());
                Some(s)
            } else {
                None
            }
        },
        _ => None,
    }
}

} // verus!
