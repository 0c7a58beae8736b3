//! Web addresses, read and changed with the url crate.
use vstd::prelude::*;

verus! {

/// What url's `Url::parse` gives for a text: the URL's serialization, its
/// scheme and whether it has a host; or whether the error is a relative
/// URL without a base, with the error's message.
pub uninterp spec fn url_parse_result(s: Seq<char>) -> Result<
    (Seq<char>, Seq<char>, bool),
    (bool, Seq<char>),
>;

/// Parses a URL; wraps url's `Url::parse`, converting the URL to its
/// serialization, scheme and host presence, and the error to whether it is
/// `RelativeUrlWithoutBase` and its message.
#[verifier::external_body]
pub(crate) fn parse_url(s: &str) -> (r: Result<(String, String, bool), (bool, String)>)
    ensures
        match r {
            Ok((u, scheme, host)) => url_parse_result(s@) == Ok::<
                (Seq<char>, Seq<char>, bool),
                (bool, Seq<char>),
            >((u@, scheme@, host)),
            Err((relative, m)) => url_parse_result(s@) == Err::<
                (Seq<char>, Seq<char>, bool),
                (bool, Seq<char>),
            >((relative, m@)),
        },
{
    match url::Url::parse(s) {
        Ok(u) => Ok((u.to_string(), u.scheme().to_string(), u.host().is_some())),
        Err(e) => Err((e == url::ParseError::RelativeUrlWithoutBase, e.to_string())),
    }
}

/// What url's `Url::set_query` makes of the URL `url` parses to: the
/// serialization with the query replaced by `query`; `None` when `url` does
/// not parse.
pub uninterp spec fn url_with_query(url: Seq<char>, query: Seq<char>) -> Option<Seq<char>>;

/// Replaces the query of a URL; wraps url's `Url::set_query` on the URL
/// that `Url::parse` reads from `url`, which fails exactly when
/// `parse_url` does.
#[verifier::external_body]
pub(crate) fn set_url_query(url: &str, query: &str) -> (r: Option<String>)
    ensures
        match r {
            Some(u) => url_with_query(url@, query@) == Some(u@),
            None => url_with_query(url@, query@) is None,
        },
        r is Some <==> url_parse_result(url@) is Ok,
{
    match url::Url::parse(url) {
        Ok(mut u) => {
            u.set_query(Some(query));
            Some(u.to_string())
        },
        Err(_) => None,
    }
}

/// What url's `Url::set_path` makes of the URL `url` parses to: the
/// serialization with the path replaced by `path`; `None` when `url` does
/// not parse.
pub uninterp spec fn url_with_path(url: Seq<char>, path: Seq<char>) -> Option<Seq<char>>;

/// Replaces the path of a URL; wraps url's `Url::set_path` on the URL that
/// `Url::parse` reads from `url`, which fails exactly when `parse_url`
/// does.
#[verifier::external_body]
pub(crate) fn set_url_path(url: &str, path: &str) -> (r: Option<String>)
    ensures
        match r {
            Some(u) => url_with_path(url@, path@) == Some(u@),
            None => url_with_path(url@, path@) is None,
        },
        r is Some <==> url_parse_result(url@) is Ok,
{
    match url::Url::parse(url) {
        Ok(mut u) => {
            u.set_path(path);
            Some(u.to_string())
        },
        Err(_) => None,
    }
}

/// The bytes that the form encoding leaves as they are: `*`, `-`, `.`,
/// `_`, ASCII digits and ASCII letters.
pub open spec fn form_byte_unchanged(b: u8) -> bool {
    b == 0x2a || b == 0x2d || b == 0x2e || b == 0x5f || (0x30 <= b <= 0x39) || (0x41 <= b
        <= 0x5a) || (0x61 <= b <= 0x7a)
}

/// An upper-case hexadecimal digit.
pub open spec fn upper_hex_digit(d: int) -> char {
    if d < 10 {
        (48 + d) as char
    } else {
        (55 + d) as char
    }
}

/// The text of one byte in a form: the byte itself where it is left as it
/// is, `+` for a space, and `%` with two upper-case hex digits otherwise.
pub open spec fn form_byte(b: u8) -> Seq<char> {
    if form_byte_unchanged(b) {
        seq![b as char]
    } else if b == 0x20 {
        seq!['+']
    } else {
        seq!['%', upper_hex_digit(b as int / 16), upper_hex_digit(b as int % 16)]
    }
}

/// The form text of a byte string: the texts of its bytes in order.
pub open spec fn form_bytes(bs: Seq<u8>) -> Seq<char>
    decreases bs.len(),
{
    if bs.len() == 0 {
        Seq::empty()
    } else {
        form_bytes(bs.drop_last()) + form_byte(bs.last())
    }
}

/// One pair in a form: the encoded UTF-8 bytes of the name, `=`, and those
/// of the value.
pub open spec fn form_pair(p: (Seq<char>, Seq<char>)) -> Seq<char> {
    form_bytes(vstd::utf8::encode_utf8(p.0)) + seq!['='] + form_bytes(
        vstd::utf8::encode_utf8(p.1),
    )
}

/// The `application/x-www-form-urlencoded` text of name-value pairs: the
/// encoded pairs in order, joined by `&`.
pub open spec fn form_encoded(pairs: Seq<(Seq<char>, Seq<char>)>) -> Seq<char>
    decreases pairs.len(),
{
    if pairs.len() == 0 {
        Seq::empty()
    } else if pairs.len() == 1 {
        form_pair(pairs[0])
    } else {
        form_encoded(pairs.drop_last()) + seq!['&'] + form_pair(pairs.last())
    }
}

/// The pairs as text.
pub open spec fn pair_texts(pairs: Seq<(String, String)>) -> Seq<(Seq<char>, Seq<char>)> {
    pairs.map_values(|p: (String, String)| (p.0@, p.1@))
}

/// Encodes name-value pairs as a form query; wraps the url crate's
/// `form_urlencoded::Serializer` with `extend_pairs` and `finish`. The
/// serializer appends, for each pair, `&` when the text is not empty, the
/// byte-serialized UTF-8 of the name, `=` and that of the value; its byte
/// serializer keeps `*-._`, digits and letters, writes a space as `+` and
/// any other byte as `%` and two upper-case hex digits.
#[verifier::external_body]
pub(crate) fn form_encode(pairs: &Vec<(String, String)>) -> (r: String)
    ensures
        r@ == form_encoded(pair_texts(pairs@)),
{
    url::form_urlencoded::Serializer::new(String::new()).extend_pairs(pairs.iter()).finish()
}

} // verus!
