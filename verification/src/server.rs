//! The decisions of the built-in HTTP server that serves the live player:
//! the content type of an asset, the names under which assets are served
//! with their digest, the rewriting of the index page to those names, and
//! the matching of `If-None-Match` against an asset's entity tag.
use vstd::prelude::*;
use crate::text::{
    append_str, chars_of, lowercase_of, replace_all, replace_text, spec_trim, split_on,
    split_on_char, str_eq, string_from_chars, to_lowercase, trim,
};
use crate::util::{extension_of, path_extension};

verus! {

/// The content type of an extension: HTML, JavaScript, CSS and WOFF2 fonts
/// by name; anything else is an octet stream.
pub open spec fn spec_mime(ext: Option<Seq<char>>) -> Seq<char> {
    match ext {
        Some(e) => if e == "html"@ {
            "text/html"@
        } else if e == "js"@ {
            "text/javascript"@
        } else if e == "css"@ {
            "text/css"@
        } else if e == "woff2"@ {
            "font/woff2"@
        } else {
            "application/octet-stream"@
        },
        None => "application/octet-stream"@,
    }
}

/// The content type of an asset, by the extension of its lowercased path.
pub fn mime_from_path(path: &str) -> (r: &'static str)
    ensures
        r@ == spec_mime(path_extension(lowercase_of(path@))),
{
    let lower = to_lowercase(path);
    match extension_of(lower.as_str()) {
        Some(e) => {
            let e = e.as_str();
            if str_eq(e, "html") {
                "text/html"
            } else if str_eq(e, "js") {
                "text/javascript"
            } else if str_eq(e, "css") {
                "text/css"
            } else if str_eq(e, "woff2") {
                "font/woff2"
            } else {
                "application/octet-stream"
            }
        },
        None => "application/octet-stream",
    }
}

/// Each byte as two lowercase hexadecimal digits.
pub open spec fn spec_hex_bytes(b: Seq<u8>) -> Seq<char>
    decreases b.len(),
{
    if b.len() == 0 {
        Seq::empty()
    } else {
        spec_hex_bytes(b.drop_last()) + seq![
            crate::json::hex_digit((b.last() / 16) as nat),
            crate::json::hex_digit((b.last() % 16) as nat),
        ]
    }
}

/// The bytes in hexadecimal, two lowercase digits each.
pub fn hex_encode(bytes: &[u8]) -> (s: String)
    ensures
        s@ == spec_hex_bytes(bytes@),
{
    let mut out: Vec<char> = Vec::new();
    let mut i: usize = 0;
    while i < bytes.len()
        invariant
            i <= bytes.len(),
            out@ == spec_hex_bytes(bytes@.take(i as int)),
        decreases bytes.len() - i,
    {
        let b = bytes[i];
        out.push(crate::asciicast::v2::hex_char(b / 16));
        out.push(crate::asciicast::v2::hex_char(b % 16));
        proof {
            let t = bytes@.take(i + 1);
            assert(t.drop_last() =~= bytes@.take(i as int));
            assert(t.last() == b);
        }
        i = i + 1;
    }
    assert(bytes@.take(i as int) =~= bytes@);
    string_from_chars(out.as_slice())
}

/// The position of the last `c` in `s`.
pub open spec fn last_index_of(s: Seq<char>, c: char) -> Option<int>
    decreases s.len(),
{
    if s.len() == 0 {
        None
    } else if s.last() == c {
        Some(s.len() - 1)
    } else {
        last_index_of(s.drop_last(), c)
    }
}

proof fn lemma_last_index_of(s: Seq<char>, c: char)
    ensures
        last_index_of(s, c) matches Some(i) ==> 0 <= i < s.len() && s[i] == c,
    decreases s.len(),
{
    if s.len() > 0 && s.last() != c {
        lemma_last_index_of(s.drop_last(), c);
    }
}

fn find_last(s: &[char], c: char) -> (r: Option<usize>)
    ensures
        match last_index_of(s@, c) {
            Some(i) => r == Some(i as usize),
            None => r is None,
        },
{
    let mut k: usize = s.len();
    assert(s@.take(k as int) =~= s@);
    while k > 0
        invariant
            k <= s.len(),
            last_index_of(s@, c) == last_index_of(s@.take(k as int), c),
        decreases k,
    {
        if s[k - 1] == c {
            return Some(k - 1);
        }
        assert(s@.take(k as int).drop_last() =~= s@.take(k - 1));
        k = k - 1;
    }
    None
}

/// The name under which an asset is served with its digest: the digest
/// goes before the last extension (`app.js` becomes `app.HASH.js`), or
/// after a name without one; the index page has none.
pub open spec fn spec_digest_path(path: Seq<char>, hash: Seq<char>) -> Option<Seq<char>> {
    if path == "index.html"@ {
        None
    } else {
        match last_index_of(path, '.') {
            Some(i) => Some(path.take(i) + seq!['.'] + hash + seq!['.'] + path.skip(i + 1)),
            None => Some(path + seq!['.'] + hash),
        }
    }
}

/// The name under which an asset is served with its digest.
pub fn digest_path(path: &str, hash: &str) -> (r: Option<String>)
    ensures
        match spec_digest_path(path@, hash@) {
            Some(p) => r matches Some(s) && s@ == p,
            None => r is None,
        },
{
    if str_eq(path, "index.html") {
        return None;
    }
    let cs = chars_of(path);
    let hs = chars_of(hash);
    proof {
        lemma_last_index_of(path@, '.');
    }
    let mut out: Vec<char> = Vec::new();
    match find_last(cs.as_slice(), '.') {
        Some(i) => {
            let base = crate::text::slice_copy(cs.as_slice(), 0, i);
            let ext = crate::text::slice_copy(cs.as_slice(), i + 1, cs.len());
            crate::text::append_chars(&mut out, base.as_slice());
            out.push('.');
            crate::text::append_chars(&mut out, hs.as_slice());
            out.push('.');
            crate::text::append_chars(&mut out, ext.as_slice());
            assert(out@ =~= path@.take(i as int) + seq!['.'] + hash@ + seq!['.'] + path@.skip(
                i + 1,
            ));
        },
        None => {
            crate::text::append_chars(&mut out, cs.as_slice());
            out.push('.');
            crate::text::append_chars(&mut out, hs.as_slice());
            assert(out@ =~= path@ + seq!['.'] + hash@);
        },
    }
    Some(string_from_chars(out.as_slice()))
}

/// The byte length of a text.
pub open spec fn byte_len(s: Seq<char>) -> nat {
    vstd::utf8::encode_utf8(s).len()
}

/// `x` placed after every mapping at least as long, before the first
/// shorter one.
pub open spec fn insert_by_length(sorted: Seq<(String, String)>, x: (String, String)) -> Seq<
    (String, String),
>
    decreases sorted.len(),
{
    if sorted.len() == 0 {
        seq![x]
    } else if byte_len(sorted[0].0@) < byte_len(x.0@) {
        seq![x] + sorted
    } else {
        seq![sorted[0]] + insert_by_length(sorted.drop_first(), x)
    }
}

/// The mappings ordered by decreasing length of the path, mappings of
/// equal length kept in their order.
pub open spec fn by_length_desc(ms: Seq<(String, String)>) -> Seq<(String, String)>
    decreases ms.len(),
{
    if ms.len() == 0 {
        Seq::empty()
    } else {
        insert_by_length(by_length_desc(ms.drop_last()), ms.last())
    }
}

/// `html` with each mapping's path replaced by its digest path, in order.
pub open spec fn apply_mappings(html: Seq<char>, ms: Seq<(String, String)>) -> Seq<char>
    decreases ms.len(),
{
    if ms.len() == 0 {
        html
    } else {
        replace_text(apply_mappings(html, ms.drop_last()), ms.last().0@, ms.last().1@)
    }
}

/// Inserts `x` into `sorted` by length.
fn insert_sorted(sorted: Vec<(String, String)>, x: (String, String)) -> (r: Vec<(String, String)>)
    ensures
        r@ == insert_by_length(sorted@, x),
{
    let ghost s0 = sorted@;
    let xl = x.0.as_str().as_bytes().len();
    assert(s0.skip(0) =~= s0);
    assert(s0.take(0) =~= Seq::<(String, String)>::empty());
    assert(Seq::<(String, String)>::empty() + insert_by_length(s0, x) =~= insert_by_length(s0, x));
    let mut rev = crate::util::reversed(sorted);
    let mut front: Vec<(String, String)> = Vec::new();
    let mut k: usize = 0;
    let n = rev.len();
    // Move the mappings at least as long as `x` to the front part.
    loop
        invariant
            n == s0.len(),
            k + rev@.len() == n,
            forall|j: int| 0 <= j < rev@.len() ==> rev@[j] == s0[n - 1 - j],
            front@ == s0.take(k as int),
            xl == byte_len(x.0@),
            insert_by_length(s0, x) == front@ + insert_by_length(s0.skip(k as int), x),
        ensures
            n == s0.len(),
            k + rev@.len() == n,
            forall|j: int| 0 <= j < rev@.len() ==> rev@[j] == s0[n - 1 - j],
            front@ == s0.take(k as int),
            insert_by_length(s0, x) == front@ + insert_by_length(s0.skip(k as int), x),
            rev@.len() > 0 ==> byte_len(s0[k as int].0@) < byte_len(x.0@),
        decreases rev@.len(),
    {
        if rev.len() == 0 {
            break;
        }
        let last = rev.len() - 1;
        let l = rev[last].0.as_str().as_bytes().len();
        assert(rev@[last as int] == s0[k as int]);
        if l < xl {
            break;
        }
        let m = rev.pop().unwrap();
        proof {
            assert(m == s0[k as int]);
            let rest = s0.skip(k as int);
            assert(rest[0] == m);
            assert(rest.drop_first() =~= s0.skip(k + 1));
            assert(front@.push(m) + insert_by_length(s0.skip(k + 1), x) =~= front@ + (seq![m]
                + insert_by_length(s0.skip(k + 1), x)));
        }
        front.push(m);
        k = k + 1;
        assert(front@ =~= s0.take(k as int));
    }
    front.push(x);
    let ghost with_x = front@;
    let tail = crate::util::reversed(rev);
    let ghost t = tail@;
    proof {
        assert(t =~= s0.skip(k as int));
        assert(insert_by_length(s0.skip(k as int), x) == seq![x] + s0.skip(k as int)) by {
            if s0.skip(k as int).len() > 0 {
                assert(s0.skip(k as int)[0] == s0[k as int]);
            }
        }
    }
    let mut out = front;
    let mut tail = tail;
    let mut rest = crate::util::reversed(tail);
    while rest.len() > 0
        invariant
            rest@.len() <= t.len(),
            forall|j: int| 0 <= j < rest@.len() ==> rest@[j] == t[t.len() - 1 - j],
            out@ == with_x + t.take(t.len() - rest@.len()),
        decreases rest@.len(),
    {
        let m = rest.pop().unwrap();
        proof {
            assert(m == t[t.len() - 1 - rest@.len()]);
        }
        out.push(m);
        assert(out@ =~= with_x + t.take(t.len() - rest@.len()));
    }
    assert(t.take(t.len() as int) =~= t);
    assert(out@ =~= s0.take(k as int).push(x) + s0.skip(k as int));
    assert(s0.take(k as int).push(x) + s0.skip(k as int) =~= s0.take(k as int) + (seq![x] + s0.skip(
        k as int,
    )));
    out
}

/// The index page with every asset path replaced by the path with its
/// digest, longest paths first so that no path is replaced inside a longer
/// one.
pub fn rewrite_index_html(html: String, mappings: Vec<(String, String)>) -> (r: String)
    ensures
        r@ == apply_mappings(html@, by_length_desc(mappings@)),
{
    let ghost ms = mappings@;
    let n = mappings.len();
    let mut rev = crate::util::reversed(mappings);
    let mut sorted: Vec<(String, String)> = Vec::new();
    let mut k: usize = 0;
    while rev.len() > 0
        invariant
            n == ms.len(),
            k + rev@.len() == n,
            forall|j: int| 0 <= j < rev@.len() ==> rev@[j] == ms[n - 1 - j],
            sorted@ == by_length_desc(ms.take(k as int)),
        decreases rev@.len(),
    {
        let m = rev.pop().unwrap();
        proof {
            assert(m == ms[k as int]);
            assert(ms.take(k + 1).drop_last() =~= ms.take(k as int));
        }
        sorted = insert_sorted(sorted, m);
        k = k + 1;
    }
    assert(ms.take(k as int) =~= ms);
    let ghost order = sorted@;
    let mut html = html;
    let ghost h0 = html@;
    let mut i: usize = 0;
    while i < sorted.len()
        invariant
            order == sorted@,
            i <= sorted.len(),
            html@ == apply_mappings(h0, order.take(i as int)),
        decreases sorted.len() - i,
    {
        html = replace_all(html.as_str(), sorted[i].0.as_str(), sorted[i].1.as_str());
        assert(order.take(i + 1).drop_last() =~= order.take(i as int));
        i = i + 1;
    }
    assert(order.take(i as int) =~= order);
    html
}

/// `s` without all the `W/` prefixes it starts with.
pub open spec fn strip_weak(s: Seq<char>) -> Seq<char>
    decreases s.len(),
{
    if s.len() >= 2 && s[0] == 'W' && s[1] == '/' {
        strip_weak(s.skip(2))
    } else {
        s
    }
}

/// Whether a candidate of an `If-None-Match` list matches the entity tag:
/// `*` matches any; otherwise the tags match ignoring `W/` prefixes and
/// surrounding whitespace.
pub open spec fn candidate_matches(candidate: Seq<char>, etag: Seq<char>) -> bool {
    let c = spec_trim(candidate);
    c == seq!['*'] || strip_weak(c) == strip_weak(spec_trim(etag))
}

/// Whether the request's `If-None-Match` value (absent, or not visible
/// ASCII, as `None`) matches the entity tag: some comma-separated candidate
/// does.
pub open spec fn spec_etag_matches(value: Option<Seq<char>>, etag: Seq<char>) -> bool {
    match value {
        None => false,
        Some(v) => any_candidate_matches(split_on(v, ','), etag),
    }
}

/// Whether some candidate matches the entity tag.
pub open spec fn any_candidate_matches(candidates: Seq<Seq<char>>, etag: Seq<char>) -> bool {
    exists|i: int| 0 <= i < candidates.len() && #[trigger] candidate_matches(candidates[i], etag)
}

fn strip_weak_chars(s: &[char]) -> (r: Vec<char>)
    ensures
        r@ == strip_weak(s@),
{
    let mut i: usize = 0;
    assert(s@.skip(0) =~= s@);
    while i < s.len() && s.len() - i >= 2 && s[i] == 'W' && s[i + 1] == '/'
        invariant
            i <= s.len(),
            strip_weak(s@) == strip_weak(s@.skip(i as int)),
        decreases s.len() - i,
    {
        assert(s@.skip(i as int).skip(2) =~= s@.skip(i + 2));
        i = i + 2;
    }
    crate::text::slice_copy(s, i, s.len())
}

/// Whether one candidate matches the entity tag whose weak prefixes and
/// whitespace are already removed.
fn candidate_matches_norm(candidate: &[char], norm: &[char], etag: Ghost<Seq<char>>) -> (r: bool)
    requires
        norm@ == strip_weak(spec_trim(etag@)),
    ensures
        r == candidate_matches(candidate@, etag@),
{
    let c = trim(candidate);
    let star: Vec<char> = vec!['*'];
    assert(star@ =~= seq!['*']);
    if crate::text::chars_eq(c.as_slice(), star.as_slice()) {
        return true;
    }
    let cw = strip_weak_chars(c.as_slice());
    crate::text::chars_eq(cw.as_slice(), norm)
}

/// Whether the request's `If-None-Match` value matches the entity tag.
pub fn etag_matches(value: Option<&str>, etag: &str) -> (r: bool)
    ensures
        r == spec_etag_matches(
            match value {
                Some(v) => Some(v@),
                None => None,
            },
            etag@,
        ),
{
    let v = match value {
        Some(v) => v,
        None => {
            return false;
        },
    };
    let ec = chars_of(etag);
    let et = trim(ec.as_slice());
    let norm = strip_weak_chars(et.as_slice());
    let vc = chars_of(v);
    let parts = split_on_char(vc.as_slice(), ',');
    let ghost ps = split_on(v@, ',');
    let mut i: usize = 0;
    while i < parts.len()
        invariant
            value == Some(v),
            ps == split_on(v@, ','),
            parts@.len() == ps.len(),
            forall|k: int| 0 <= k < parts@.len() ==> (#[trigger] parts@[k])@ == ps[k],
            norm@ == strip_weak(spec_trim(etag@)),
            i <= parts.len(),
            forall|k: int| 0 <= k < i ==> !candidate_matches(ps[k], etag@),
        decreases parts.len() - i,
    {
        if candidate_matches_norm(parts[i].as_slice(), norm.as_slice(), Ghost(etag@)) {
            assert(candidate_matches(ps[i as int], etag@));
            assert(any_candidate_matches(ps, etag@));
            return true;
        }
        i = i + 1;
    }
    false
}

} // verus!
