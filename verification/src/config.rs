//! Configuration: the settings read from config files, the key
//! definitions of the settings, and where the files are.
use vstd::prelude::*;
use crate::text::{append_str, chars_of, string_from_chars};

verus! {

/// The `[server]` section.
#[derive(Debug)]
pub struct Server {
    pub url: Option<String>,
}

/// The `[notifications]` section.
#[derive(Debug)]
pub struct Notifications {
    pub enabled: bool,
    pub command: Option<String>,
}

/// A key binding: the bytes a key sends, or `None` for no key.
pub type Key = Option<Vec<u8>>;

pub open spec fn is_ascii_alpha(c: char) -> bool {
    ('a' <= c && c <= 'z') || ('A' <= c && c <= 'Z')
}

/// The control code of the letter `c`: `^A` is 1, ..., `^Z` is 26.
pub open spec fn control_code(c: char) -> u8 {
    (crate::text::spec_upper(c) as u32 - 0x40) as u8
}

/// A key definition: empty for no key; a single character for the bytes of
/// its UTF-8 encoding; `^x`, `C-x` or `C+x` (`c` in either case) with an
/// ASCII letter `x` for the control code of that letter. Anything else is
/// refused.
pub open spec fn spec_parse_key(key: Seq<char>) -> Result<Option<Seq<u8>>, Seq<char>> {
    if key.len() == 0 {
        Ok(None)
    } else if key.len() == 1 {
        Ok(Some(vstd::utf8::encode_utf8(key)))
    } else if key.len() == 2 && key[0] == '^' && is_ascii_alpha(key[1]) {
        Ok(Some(seq![control_code(key[1])]))
    } else if key.len() == 3 && (key[0] == 'C' || key[0] == 'c') && (key[1] == '+' || key[1]
        == '-') && is_ascii_alpha(key[2]) {
        Ok(Some(seq![control_code(key[2])]))
    } else {
        Err("invalid key definition '"@ + key + "'"@)
    }
}

/// The view of a parsed key.
pub open spec fn key_view(k: Key) -> Option<Seq<u8>> {
    match k {
        Some(v) => Some(v@),
        None => None,
    }
}

fn is_alpha(c: char) -> (r: bool)
    ensures
        r == is_ascii_alpha(c),
{
    ('a' <= c && c <= 'z') || ('A' <= c && c <= 'Z')
}

fn control_byte(c: char) -> (b: u8)
    requires
        is_ascii_alpha(c),
    ensures
        b == control_code(c),
{
    let u = crate::text::upper_char(c);
    (u as u32 - 0x40) as u8
}

/// Parses a key definition.
pub fn parse_key(key: &str) -> (r: Result<Key, String>)
    ensures
        match spec_parse_key(key@) {
            Ok(k) => r matches Ok(x) && key_view(x) == k,
            Err(e) => r matches Err(x) && x@ == e,
        },
{
    let chars = chars_of(key);
    if chars.len() == 0 {
        return Ok(None);
    }
    if chars.len() == 1 {
        let bytes = crate::text::utf8_bytes(key);
        return Ok(Some(bytes));
    }
    if chars.len() == 2 && chars[0] == '^' && is_alpha(chars[1]) {
        return Ok(Some(vec![control_byte(chars[1])]));
    }
    if chars.len() == 3 && (chars[0] == 'C' || chars[0] == 'c') && (chars[1] == '+' || chars[1]
        == '-') && is_alpha(chars[2]) {
        return Ok(Some(vec![control_byte(chars[2])]));
    }
    let mut msg = chars_of("invalid key definition '");
    append_str(&mut msg, key);
    append_str(&mut msg, "'");
    Err(string_from_chars(msg.as_slice()))
}

/// `dir` joined with the relative path `name`, as `Path::join` does it:
/// a `/` in between unless `dir` is empty or already ends with one.
pub open spec fn path_join(dir: Seq<char>, name: Seq<char>) -> Seq<char> {
    if dir.len() == 0 {
        name
    } else if dir.last() == '/' {
        dir + name
    } else {
        dir + seq!['/'] + name
    }
}

/// Joins a directory and a relative path.
pub fn join_path(dir: &str, name: &str) -> (r: String)
    ensures
        r@ == path_join(dir@, name@),
{
    let mut out = chars_of(dir);
    if out.len() > 0 && out[out.len() - 1] != '/' {
        out.push('/');
    }
    append_str(&mut out, name);
    string_from_chars(out.as_slice())
}

/// The environment variables that locate asciinema's directories.
pub struct Dirs {
    pub asciinema_config_home: Option<String>,
    pub xdg_config_home: Option<String>,
    pub asciinema_state_home: Option<String>,
    pub xdg_state_home: Option<String>,
    pub home: Option<String>,
}

/// The configuration directory: `$ASCIINEMA_CONFIG_HOME`, else
/// `$XDG_CONFIG_HOME/asciinema`, else `$HOME/.config/asciinema`.
pub open spec fn spec_config_home(d: Dirs) -> Result<Seq<char>, Seq<char>> {
    match d.asciinema_config_home {
        Some(h) => Ok(h@),
        None => match d.xdg_config_home {
            Some(h) => Ok(path_join(h@, "asciinema"@)),
            None => match d.home {
                Some(h) => Ok(path_join(path_join(h@, ".config"@), "asciinema"@)),
                None => Err("need $HOME or $XDG_CONFIG_HOME or $ASCIINEMA_CONFIG_HOME"@),
            },
        },
    }
}

/// The state directory: `$ASCIINEMA_STATE_HOME`, else
/// `$XDG_STATE_HOME/asciinema`, else `$HOME/.local/state/asciinema`.
pub open spec fn spec_state_home(d: Dirs) -> Result<Seq<char>, Seq<char>> {
    match d.asciinema_state_home {
        Some(h) => Ok(h@),
        None => match d.xdg_state_home {
            Some(h) => Ok(path_join(h@, "asciinema"@)),
            None => match d.home {
                Some(h) => Ok(
                    path_join(path_join(path_join(h@, ".local"@), "state"@), "asciinema"@),
                ),
                None => Err("need $HOME or $XDG_STATE_HOME or $ASCIINEMA_STATE_HOME"@),
            },
        },
    }
}

/// The view of a path or its error.
pub open spec fn result_view(r: Result<String, String>) -> Result<Seq<char>, Seq<char>> {
    match r {
        Ok(s) => Ok(s@),
        Err(e) => Err(e@),
    }
}

/// A copy of a string.
fn copy_str(s: &str) -> (r: String)
    ensures
        r@ == s@,
{
    s.to_owned()
}

/// The configuration directory.
pub fn config_home(d: &Dirs) -> (r: Result<String, String>)
    ensures
        result_view(r) == spec_config_home(*d),
{
    match &d.asciinema_config_home {
        Some(h) => Ok(copy_str(h.as_str())),
        None => match &d.xdg_config_home {
            Some(h) => Ok(join_path(h.as_str(), "asciinema")),
            None => match &d.home {
                Some(h) => {
                    let c = join_path(h.as_str(), ".config");
                    Ok(join_path(c.as_str(), "asciinema"))
                },
                None => Err("need $HOME or $XDG_CONFIG_HOME or $ASCIINEMA_CONFIG_HOME".to_owned()),
            },
        },
    }
}

/// The state directory.
pub fn state_home(d: &Dirs) -> (r: Result<String, String>)
    ensures
        result_view(r) == spec_state_home(*d),
{
    match &d.asciinema_state_home {
        Some(h) => Ok(copy_str(h.as_str())),
        None => match &d.xdg_state_home {
            Some(h) => Ok(join_path(h.as_str(), "asciinema")),
            None => match &d.home {
                Some(h) => {
                    let a = join_path(h.as_str(), ".local");
                    let b = join_path(a.as_str(), "state");
                    Ok(join_path(b.as_str(), "asciinema"))
                },
                None => Err("need $HOME or $XDG_STATE_HOME or $ASCIINEMA_STATE_HOME".to_owned()),
            },
        },
    }
}

/// A file in a directory, or the directory's error.
pub open spec fn in_dir(dir: Result<Seq<char>, Seq<char>>, name: Seq<char>) -> Result<Seq<char>, Seq<char>> {
    match dir {
        Ok(d) => Ok(path_join(d, name)),
        Err(e) => Err(e),
    }
}

fn file_in(dir: Result<String, String>, name: &str) -> (r: Result<String, String>)
    ensures
        result_view(r) == in_dir(result_view(dir), name@),
{
    match dir {
        Ok(d) => Ok(join_path(d.as_str(), name)),
        Err(e) => Err(e),
    }
}

/// The user's config file: `config.toml` in the configuration directory.
pub fn user_config_path(d: &Dirs) -> (r: Result<String, String>)
    ensures
        result_view(r) == in_dir(spec_config_home(*d), "config.toml"@),
{
    file_in(config_home(d), "config.toml")
}

/// The config file of asciinema 2.x: `config` in the configuration
/// directory.
pub fn legacy_user_config_path(d: &Dirs) -> (r: Result<String, String>)
    ensures
        result_view(r) == in_dir(spec_config_home(*d), "config"@),
{
    file_in(config_home(d), "config")
}

/// The file of saved defaults: `defaults.toml` in the configuration
/// directory.
pub fn user_defaults_path(d: &Dirs) -> (r: Result<String, String>)
    ensures
        result_view(r) == in_dir(spec_config_home(*d), "defaults.toml"@),
{
    file_in(config_home(d), "defaults.toml")
}

/// The install id file: `install-id` in the state directory.
pub fn install_id_path(d: &Dirs) -> (r: Result<String, String>)
    ensures
        result_view(r) == in_dir(spec_state_home(*d), "install-id"@),
{
    file_in(state_home(d), "install-id")
}

/// Where asciinema 2.x kept the install id: `install-id` in the
/// configuration directory.
pub fn legacy_install_id_path(d: &Dirs) -> (r: Result<String, String>)
    ensures
        result_view(r) == in_dir(spec_config_home(*d), "install-id"@),
{
    file_in(config_home(d), "install-id")
}

/// The warnings about a config file of asciinema 2.x: given when that file
/// exists and the new one does not.
pub open spec fn spec_legacy_warnings(legacy: Seq<char>, new: Seq<char>, legacy_exists: bool, new_exists: bool) -> Seq<Seq<char>> {
    if legacy_exists && !new_exists {
        seq![
            "Your config file at "@ + legacy + " uses the location and format from asciinema 2.x."@,
            "For asciinema 3.x (this version) create a new config file at "@ + new + "."@,
            "Read the documentation (CLI -> Configuration) for details.\n"@,
        ]
    } else {
        seq![]
    }
}

/// The warnings to print about a legacy config file, given the two paths
/// and whether each file exists.
pub fn check_legacy_config_file(legacy_path: &str, new_path: &str, legacy_exists: bool, new_exists: bool) -> (r: Vec<String>)
    ensures
        r@.map_values(|s: String| s@) == spec_legacy_warnings(legacy_path@, new_path@, legacy_exists, new_exists),
{
    let mut r: Vec<String> = Vec::new();
    if legacy_exists && !new_exists {
        let mut a = chars_of("Your config file at ");
        append_str(&mut a, legacy_path);
        append_str(&mut a, " uses the location and format from asciinema 2.x.");
        let mut b = chars_of("For asciinema 3.x (this version) create a new config file at ");
        append_str(&mut b, new_path);
        append_str(&mut b, ".");
        r.push(string_from_chars(a.as_slice()));
        r.push(string_from_chars(b.as_slice()));
        r.push("Read the documentation (CLI -> Configuration) for details.\n".to_owned());
    }
    assert(r@.map_values(|s: String| s@) =~= spec_legacy_warnings(legacy_path@, new_path@, legacy_exists, new_exists));
    r
}

/// The error for a server URL without a host.
pub open spec fn missing_host_error() -> Seq<char> {
    "server URL is missing a host"@
}

/// Reads the server URL: it must parse and have a host. The URL is given
/// back as its serialization.
pub fn parse_server_url(s: &str) -> (r: Result<String, String>)
    ensures
        match crate::urls::url_parse_result(s@) {
            Ok((u, _, true)) => r matches Ok(x) && x@ == u,
            Ok((_, _, false)) => r matches Err(e) && e@ == missing_host_error(),
            Err((_, m)) => r matches Err(e) && e@ == m,
        },
{
    match crate::urls::parse_url(s) {
        Ok((u, _, has_host)) => {
            if !has_host {
                Err("server URL is missing a host".to_string())
            } else {
                Ok(u)
            }
        },
        Err((_, m)) => Err(m),
    }
}

/// A configured key: the parsed definition when one is given, else the
/// default.
pub open spec fn key_setting(def: Option<String>, default: Option<Seq<u8>>) -> Result<
    Option<Seq<u8>>,
    Seq<char>,
> {
    match def {
        Some(s) => spec_parse_key(s@),
        None => Ok(default),
    }
}

/// Three configured keys in order: their keys, or the error of the first
/// definition that is refused.
pub open spec fn three_keys(
    a: Result<Option<Seq<u8>>, Seq<char>>,
    b: Result<Option<Seq<u8>>, Seq<char>>,
    c: Result<Option<Seq<u8>>, Seq<char>>,
) -> Result<(Option<Seq<u8>>, Option<Seq<u8>>, Option<Seq<u8>>), Seq<char>> {
    match (a, b, c) {
        (Err(e), _, _) => Err(e),
        (Ok(_), Err(e), _) => Err(e),
        (Ok(_), Ok(_), Err(e)) => Err(e),
        (Ok(x), Ok(y), Ok(z)) => Ok((x, y, z)),
    }
}

/// A configured key, or `current` when none is configured.
pub fn configured_key(def: Option<String>, current: Key) -> (r: Result<Key, String>)
    ensures
        match key_setting(def, key_view(current)) {
            Ok(k) => r matches Ok(x) && key_view(x) == k,
            Err(e) => r matches Err(x) && x@ == e,
        },
{
    match def {
        Some(s) => parse_key(s.as_str()),
        None => Ok(current),
    }
}

} // verus!
