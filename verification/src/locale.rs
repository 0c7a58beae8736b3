//! The character encoding check made before a session: asciinema needs an
//! ASCII or UTF-8 locale.
use vstd::prelude::*;
use crate::text::{append_str, chars_of, str_eq, string_from_chars};

verus! {

/// The name of the locale's character set as reported: glibc's name for
/// ASCII, `ANSI_X3.4-1968`, is `US-ASCII`.
pub open spec fn spec_encoding_name(codeset: Seq<char>) -> Seq<char> {
    if codeset == "ANSI_X3.4-1968"@ {
        "US-ASCII"@
    } else {
        codeset
    }
}

/// The name of the locale's character set, given the codeset name the C
/// library reports.
pub fn get_encoding(codeset: &str) -> (r: String)
    ensures
        r@ == spec_encoding_name(codeset@),
{
    if str_eq(codeset, "ANSI_X3.4-1968") {
        "US-ASCII".to_string()
    } else {
        codeset.to_string()
    }
}

/// The variable that sets the locale, for the error message: `LC_ALL`,
/// else `LC_CTYPE`, else `LANG`, as `NAME=value`; empty when none is set.
pub open spec fn locale_source(
    lc_all: Option<Seq<char>>,
    lc_ctype: Option<Seq<char>>,
    lang: Option<Seq<char>>,
) -> Seq<char> {
    match lc_all {
        Some(v) => "LC_ALL="@ + v,
        None => match lc_ctype {
            Some(v) => "LC_CTYPE="@ + v,
            None => match lang {
                Some(v) => "LANG="@ + v,
                None => Seq::empty(),
            },
        },
    }
}

/// The text of an optional string.
pub open spec fn opt_view(s: Option<String>) -> Option<Seq<char>> {
    match s {
        Some(x) => Some(x@),
        None => None,
    }
}

/// The refusal of an encoding that is neither ASCII nor UTF-8.
pub open spec fn encoding_error(env: Seq<char>, encoding: Seq<char>) -> Seq<char> {
    "asciinema requires ASCII or UTF-8 character encoding. The environment ("@ + env
        + ") specifies the character set \""@ + encoding
        + "\". Check the output of `locale` command."@
}

/// Accepts the `US-ASCII` and `UTF-8` encodings; refuses any other,
/// naming the variable that set the locale.
pub fn check_utf8_locale(
    encoding: &str,
    lc_all: Option<String>,
    lc_ctype: Option<String>,
    lang: Option<String>,
) -> (r: Result<(), String>)
    ensures
        (encoding@ == "US-ASCII"@ || encoding@ == "UTF-8"@) ==> r is Ok,
        !(encoding@ == "US-ASCII"@ || encoding@ == "UTF-8"@) ==> (r matches Err(e) && e@
            == encoding_error(
            locale_source(opt_view(lc_all), opt_view(lc_ctype), opt_view(lang)),
            encoding@,
        )),
{
    if str_eq(encoding, "US-ASCII") || str_eq(encoding, "UTF-8") {
        return Ok(());
    }
    let mut msg = chars_of(
        "asciinema requires ASCII or UTF-8 character encoding. The environment (",
    );
    let ghost start = msg@;
    match lc_all {
        Some(v) => {
            append_str(&mut msg, "LC_ALL=");
            append_str(&mut msg, v.as_str());
        },
        None => match lc_ctype {
            Some(v) => {
                append_str(&mut msg, "LC_CTYPE=");
                append_str(&mut msg, v.as_str());
            },
            None => match lang {
                Some(v) => {
                    append_str(&mut msg, "LANG=");
                    append_str(&mut msg, v.as_str());
                },
                None => {},
            },
        },
    }
    let ghost env = locale_source(opt_view(lc_all), opt_view(lc_ctype), opt_view(lang));
    assert(msg@ =~= start + env);
    append_str(&mut msg, ") specifies the character set \"");
    append_str(&mut msg, encoding);
    append_str(&mut msg, "\". Check the output of `locale` command.");
    assert(msg@ =~= encoding_error(env, encoding@));
    Err(string_from_chars(msg.as_slice()))
}

} // verus!
