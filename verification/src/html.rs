//! Discovery of an asciicast link in an HTML page's `<head>`.
use vstd::prelude::*;
use crate::text::{
    chars_eq_ignore_ascii_case, chars_of, is_unicode_ws, is_unicode_ws_char, eq_ignore_ascii_case, find_from, occurs_at, slice_copy,
    spec_find, spec_find_from, spec_lower_seq, string_from_chars, to_ascii_lowercase,
};

verus! {

/// ASCII whitespace as `u8::is_ascii_whitespace` sees it: space, tab, line
/// feed, form feed and carriage return.
pub open spec fn is_ascii_ws(c: char) -> bool {
    c == ' ' || c == '\t' || c == '\n' || c == '\x0C' || c == '\r'
}

/// The first position at or after `i` that does not hold ASCII whitespace.
pub open spec fn skip_ascii_ws(s: Seq<char>, i: int) -> int
    decreases s.len() - i,
{
    if 0 <= i < s.len() && is_ascii_ws(s[i]) {
        skip_ascii_ws(s, i + 1)
    } else {
        i
    }
}

/// The quoted value of attribute `name` in the tag text `tag`: the first
/// case-insensitive occurrence of `name=`, then optional ASCII whitespace,
/// then a single- or double-quoted value. An unquoted or unterminated value
/// gives `None`.
pub open spec fn spec_attr(tag: Seq<char>, name: Seq<char>) -> Option<Seq<char>> {
    let prefix = spec_lower_seq(name).push('=');
    match spec_find(spec_lower_seq(tag), prefix) {
        None => None,
        Some(p) => {
            let i = skip_ascii_ws(tag, p + prefix.len());
            if i >= tag.len() {
                None
            } else if tag[i] == '\'' || tag[i] == '"' {
                match spec_find_from(tag, seq![tag[i]], i + 1) {
                    None => None,
                    Some(e) => Some(tag.subrange(i + 1, e)),
                }
            } else {
                None
            }
        }
    }
}

pub open spec fn alternate() -> Seq<char> {
    seq!['a', 'l', 't', 'e', 'r', 'n', 'a', 't', 'e']
}

pub open spec fn mime_x_asciicast() -> Seq<char> {
    seq!['a','p','p','l','i','c','a','t','i','o','n','/','x','-','a','s','c','i','i','c','a','s','t']
}

pub open spec fn mime_asciicast_json() -> Seq<char> {
    seq!['a','p','p','l','i','c','a','t','i','o','n','/','a','s','c','i','i','c','a','s','t','+','j','s','o','n']
}

/// Whether the whitespace-separated token list `rel` holds `alternate`,
/// ignoring ASCII case: some run of the word's length equals it, and is
/// preceded by the start or whitespace and followed by the end or whitespace.
pub open spec fn has_alternate_token(rel: Seq<char>) -> bool {
    exists|i: int| #[trigger] alternate_token_at(rel, i)
}

pub open spec fn alternate_token_at(rel: Seq<char>, i: int) -> bool {
    let n = alternate().len();
    &&& 0 <= i
    &&& i + n <= rel.len()
    &&& eq_ignore_ascii_case(rel.subrange(i, i + n), alternate())
    &&& (i == 0 || is_unicode_ws(rel[i - 1]))
    &&& (i + n == rel.len() || is_unicode_ws(rel[i + n]))
}

/// The asciicast URL that a `<link>` tag announces, if it announces one:
/// `rel` holds `alternate`, `type` is one of the asciicast media types
/// (ignoring ASCII case), and `href` is present and non-empty.
pub open spec fn link_href(link: Seq<char>) -> Option<Seq<char>> {
    match spec_attr(link, seq!['r', 'e', 'l']) {
        Some(rel) if has_alternate_token(rel) => match spec_attr(link, seq!['t', 'y', 'p', 'e']) {
            Some(t) if eq_ignore_ascii_case(t, mime_x_asciicast()) || eq_ignore_ascii_case(
                t,
                mime_asciicast_json(),
            ) => match spec_attr(link, seq!['h', 'r', 'e', 'f']) {
                Some(href) if href.len() > 0 => Some(href),
                _ => None,
            },
            _ => None,
        },
        _ => None,
    }
}

pub open spec fn link_open() -> Seq<char> {
    seq!['<', 'l', 'i', 'n', 'k']
}

/// Scans `head` from `off` for `<link ...>` tags in order and gives the
/// first announced asciicast URL; a `<link` without a closing `>` ends the
/// scan with `None`.
pub open spec fn scan_links(head: Seq<char>, off: int) -> Option<Seq<char>>
    decreases head.len() + 1 - off,
{
    if off < 0 || off > head.len() {
        None
    } else {
        match spec_find_from(spec_lower_seq(head), link_open(), off) {
            None => None,
            Some(ls) => match spec_find_from(head, seq!['>'], ls) {
                None => None,
                Some(gt) => {
                    proof {
                        lemma_find_from_bounds(spec_lower_seq(head), link_open(), off);
                        lemma_find_from_bounds(head, seq!['>'], ls);
                    }
                    match link_href(head.subrange(ls, gt + 1)) {
                        Some(h) => Some(h),
                        None => scan_links(head, gt + 1),
                    }
                }
            },
        }
    }
}

/// The asciicast URL announced in the `<head>` of `html`: the head runs from
/// the first `<head` to the first `</head>` after it (ignoring ASCII case);
/// without either there is none.
pub open spec fn spec_extract_asciicast_link(html: Seq<char>) -> Option<Seq<char>> {
    let lc = spec_lower_seq(html);
    match spec_find(lc, seq!['<', 'h', 'e', 'a', 'd']) {
        None => None,
        Some(hs) => match spec_find_from(lc, seq!['<', '/', 'h', 'e', 'a', 'd', '>'], hs) {
            None => None,
            Some(he) => scan_links(html.subrange(hs, he), 0),
        },
    }
}

/// A found position lies in range and holds the needle.
pub proof fn lemma_find_from_bounds(hay: Seq<char>, needle: Seq<char>, from: int)
    ensures
        spec_find_from(hay, needle, from) matches Some(p) ==> from <= p && p + needle.len()
            <= hay.len() && occurs_at(hay, needle, p),
    decreases hay.len() + 1 - from,
{
    if !(from < 0 || from + needle.len() > hay.len()) && !occurs_at(hay, needle, from) {
        lemma_find_from_bounds(hay, needle, from + 1);
    }
}

fn is_ascii_ws_char(c: char) -> (r: bool)
    ensures
        r == is_ascii_ws(c),
{
    c == ' ' || c == '\t' || c == '\n' || c == '\x0C' || c == '\r'
}

/// The quoted value of attribute `name` in `tag`.
fn attr(tag: &[char], name: &[char]) -> (r: Option<Vec<char>>)
    ensures
        r matches Some(v) ==> spec_attr(tag@, name@) == Some(v@),
        r is None ==> spec_attr(tag@, name@) is None,
{
    let tag_lc = to_ascii_lowercase(tag);
    let mut prefix = to_ascii_lowercase(name);
    prefix.push('=');
    let p = match find_from(tag_lc.as_slice(), prefix.as_slice(), 0) {
        Some(p) => p,
        None => {
            return None;
        },
    };
    proof {
        lemma_find_from_bounds(tag_lc@, prefix@, 0);
    }
    let tag_len = tag_lc.len();
    assert(p + prefix@.len() <= tag_len);
    let mut i: usize = p + prefix.len();
    assert(spec_lower_seq(tag@).len() == tag@.len());
    while i < tag.len() && is_ascii_ws_char(tag[i])
        invariant
            i <= tag@.len(),
            skip_ascii_ws(tag@, (p + prefix@.len()) as int) == skip_ascii_ws(tag@, i as int),
        decreases tag.len() - i,
    {
        i = i + 1;
    }
    if i >= tag.len() {
        return None;
    }
    let quote = tag[i];
    if quote == '\'' || quote == '"' {
        let q = vec![quote];
        assert(q@ =~= seq![tag@[i as int]]);
        match find_from(tag, q.as_slice(), i + 1) {
            Some(e) => {
                proof {
                    lemma_find_from_bounds(tag@, q@, i + 1);
                }
                Some(slice_copy(tag, i + 1, e))
            },
            None => None,
        }
    } else {
        None
    }
}

fn alternate_at(rel: &[char], i: usize, word: &[char]) -> (r: bool)
    requires
        word@ == alternate(),
    ensures
        r == alternate_token_at(rel@, i as int),
{
    if word.len() > rel.len() || i > rel.len() - word.len() {
        return false;
    }
    let token = slice_copy(rel, i, i + word.len());
    if !chars_eq_ignore_ascii_case(token.as_slice(), word) {
        return false;
    }
    let before = i == 0 || is_unicode_ws_char(rel[i - 1]);
    let after = i + word.len() == rel.len() || is_unicode_ws_char(rel[i + word.len()]);
    before && after
}

fn has_alternate(rel: &[char]) -> (r: bool)
    ensures
        r == has_alternate_token(rel@),
{
    let word = vec!['a', 'l', 't', 'e', 'r', 'n', 'a', 't', 'e'];
    assert(word@ =~= alternate());
    let mut i: usize = 0;
    while i < rel.len()
        invariant
            word@ == alternate(),
            forall|j: int| 0 <= j < i ==> !alternate_token_at(rel@, j),
        decreases rel.len() - i,
    {
        if alternate_at(rel, i, word.as_slice()) {
            return true;
        }
        i = i + 1;
    }
    assert forall|j: int| !(#[trigger] alternate_token_at(rel@, j)) by {
        if 0 <= j < i {
        } else if j >= i && alternate_token_at(rel@, j) {
            assert(j + 9 <= rel@.len());
        }
    }
    false
}

fn href_of(link: &[char]) -> (r: Option<Vec<char>>)
    ensures
        r matches Some(v) ==> link_href(link@) == Some(v@),
        r is None ==> link_href(link@) is None,
{
    let rel_name = vec!['r', 'e', 'l'];
    let ty_name = vec!['t', 'y', 'p', 'e'];
    let href_name = vec!['h', 'r', 'e', 'f'];
    assert(rel_name@ =~= seq!['r', 'e', 'l']);
    assert(ty_name@ =~= seq!['t', 'y', 'p', 'e']);
    assert(href_name@ =~= seq!['h', 'r', 'e', 'f']);
    let rel = match attr(link, rel_name.as_slice()) {
        Some(rel) => rel,
        None => {
            return None;
        },
    };
    if !has_alternate(rel.as_slice()) {
        return None;
    }
    let t = match attr(link, ty_name.as_slice()) {
        Some(t) => t,
        None => {
            return None;
        },
    };
    let m1 = vec!['a','p','p','l','i','c','a','t','i','o','n','/','x','-','a','s','c','i','i','c','a','s','t'];
    let m2 = vec!['a','p','p','l','i','c','a','t','i','o','n','/','a','s','c','i','i','c','a','s','t','+','j','s','o','n'];
    assert(m1@ =~= mime_x_asciicast());
    assert(m2@ =~= mime_asciicast_json());
    if !(chars_eq_ignore_ascii_case(t.as_slice(), m1.as_slice()) || chars_eq_ignore_ascii_case(
        t.as_slice(),
        m2.as_slice(),
    )) {
        return None;
    }
    match attr(link, href_name.as_slice()) {
        Some(href) => {
            if href.len() > 0 {
                Some(href)
            } else {
                None
            }
        },
        None => None,
    }
}

/// Finds the asciicast URL that an HTML page announces with
/// `<link rel="alternate" type="application/x-asciicast" href="...">` (or the
/// `application/asciicast+json` type) in its `<head>`.
pub fn extract_asciicast_link(html: &str) -> (r: Option<String>)
    ensures
        r matches Some(s) ==> spec_extract_asciicast_link(html@) == Some(s@),
        r is None ==> spec_extract_asciicast_link(html@) is None,
{
    let chars = chars_of(html);
    let html_lc = to_ascii_lowercase(chars.as_slice());
    let head_open = vec!['<', 'h', 'e', 'a', 'd'];
    let head_close = vec!['<', '/', 'h', 'e', 'a', 'd', '>'];
    assert(head_open@ =~= seq!['<', 'h', 'e', 'a', 'd']);
    assert(head_close@ =~= seq!['<', '/', 'h', 'e', 'a', 'd', '>']);
    let hs = match find_from(html_lc.as_slice(), head_open.as_slice(), 0) {
        Some(p) => p,
        None => {
            return None;
        },
    };
    let he = match find_from(html_lc.as_slice(), head_close.as_slice(), hs) {
        Some(p) => p,
        None => {
            return None;
        },
    };
    proof {
        lemma_find_from_bounds(html_lc@, head_close@, hs as int);
    }
    let head = slice_copy(chars.as_slice(), hs, he);
    let head_lc = to_ascii_lowercase(head.as_slice());
    let link = vec!['<', 'l', 'i', 'n', 'k'];
    let gt = vec!['>'];
    assert(link@ =~= link_open());
    assert(gt@ =~= seq!['>']);
    let mut off: usize = 0;
    let hlen = head.len();
    assert(spec_extract_asciicast_link(html@) == scan_links(head@, 0));
    loop
        invariant
            off <= head@.len(),
            chars@ == html@,
            hlen == head@.len(),
            head_lc@ == spec_lower_seq(head@),
            link@ == link_open(),
            gt@ == seq!['>'],
            spec_extract_asciicast_link(html@) == scan_links(head@, off as int),
        decreases head@.len() + 1 - off,
    {
        let ls = match find_from(head_lc.as_slice(), link.as_slice(), off) {
            Some(p) => p,
            None => {
                assert(spec_find_from(spec_lower_seq(head@), link_open(), off as int) is None);
                assert(scan_links(head@, off as int) is None);
                return None;
            },
        };
        proof {
            lemma_find_from_bounds(head_lc@, link@, off as int);
        }
        let g = match find_from(head.as_slice(), gt.as_slice(), ls) {
            Some(p) => p,
            None => {
                return None;
            },
        };
        proof {
            lemma_find_from_bounds(head@, gt@, ls as int);
        }
        let tag = slice_copy(head.as_slice(), ls, g + 1);
        match href_of(tag.as_slice()) {
            Some(h) => {
                return Some(string_from_chars(h.as_slice()));
            },
            None => {},
        }
        off = g + 1;
    }
}

} // verus!
