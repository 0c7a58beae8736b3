//! Character-sequence helpers shared by the text-processing modules.
use vstd::prelude::*;

verus! {

broadcast use vstd::string::group_string_axioms;

/// The characters of `s`, in order.
pub fn chars_of(s: &str) -> (v: Vec<char>)
    ensures
        v@ == s@,
{
    let mut v: Vec<char> = Vec::new();
    for c in it: s.chars()
        invariant
            it.seq() == s@,
            v@ == it.seq().take(it.index() as int),
    {
        v.push(c);
        assert(v@ =~= it.seq().take(it.index() + 1));
    }
    assert(v@ =~= s@);
    v
}

/// Collects characters into a `String`; wraps std's `String::from_iter`,
/// which appends the characters in order.
#[verifier::external_body]
pub(crate) fn string_from_chars(v: &[char]) -> (s: String)
    ensures
        s@ == v@,
{
    String::from_iter(v.iter())
}

/// What std's `String::from_utf8_lossy` makes of `bytes`: the decoded text,
/// with each invalid sequence replaced by U+FFFD.
pub uninterp spec fn utf8_lossy(bytes: Seq<u8>) -> Seq<char>;

/// Decodes `bytes` as UTF-8, replacing invalid sequences; wraps std's
/// `String::from_utf8_lossy`. The contract names the result and states what
/// the documentation promises of valid input: it comes back unchanged.
#[verifier::external_body]
pub(crate) fn string_from_utf8_lossy(bytes: &[u8]) -> (s: String)
    ensures
        s@ == utf8_lossy(bytes@),
        vstd::utf8::valid_utf8(bytes@) ==> s@ == vstd::utf8::decode_utf8(bytes@),
{
    String::from_utf8_lossy(bytes).into_owned()
}

/// `c` mapped by ASCII lowercasing: `A`..=`Z` become `a`..=`z`, every other
/// character stays as it is.
pub open spec fn spec_lower(c: char) -> char {
    if 'A' <= c && c <= 'Z' {
        ((c as u32) + 32) as char
    } else {
        c
    }
}

/// `s` with every character ASCII-lowercased.
pub open spec fn spec_lower_seq(s: Seq<char>) -> Seq<char> {
    s.map_values(|c: char| spec_lower(c))
}

/// ASCII lowercasing of one character.
pub fn lower_char(c: char) -> (r: char)
    ensures
        r == spec_lower(c),
{
    if 'A' <= c && c <= 'Z' {
        let u: u32 = (c as u32) + 32;
        assert(u <= 0x7f);
        char_from_ascii(u)
    } else {
        c
    }
}

/// The character with ASCII code `u`.
pub fn char_from_ascii(u: u32) -> (c: char)
    requires
        u < 128,
    ensures
        c == u as char,
        c as u32 == u,
{
    let b: u8 = u as u8;
    let c = b as char;
    c
}

/// ASCII lowercasing of a character sequence.
pub fn to_ascii_lowercase(v: &[char]) -> (r: Vec<char>)
    ensures
        r@ == spec_lower_seq(v@),
{
    let mut r: Vec<char> = Vec::new();
    let mut i: usize = 0;
    while i < v.len()
        invariant
            i <= v.len(),
            r@ == spec_lower_seq(v@.take(i as int)),
        decreases v.len() - i,
    {
        let c = lower_char(v[i]);
        r.push(c);
        i = i + 1;
        assert(r@ =~= spec_lower_seq(v@.take(i as int)));
    }
    assert(v@.take(i as int) =~= v@);
    r
}

/// Whether `needle` occurs in `hay` at position `i`.
pub open spec fn occurs_at(hay: Seq<char>, needle: Seq<char>, i: int) -> bool {
    &&& 0 <= i
    &&& i + needle.len() <= hay.len()
    &&& hay.subrange(i, i + needle.len()) == needle
}

/// The first position at or after `from` where `needle` occurs in `hay`.
pub open spec fn spec_find_from(hay: Seq<char>, needle: Seq<char>, from: int) -> Option<int>
    decreases hay.len() + 1 - from,
{
    if from < 0 || from + needle.len() > hay.len() {
        None
    } else if occurs_at(hay, needle, from) {
        Some(from)
    } else {
        spec_find_from(hay, needle, from + 1)
    }
}

/// A position found at or after `from` is where `needle` occurs, and no
/// earlier position at or after `from` holds it.
pub proof fn lemma_find_from_found(hay: Seq<char>, needle: Seq<char>, from: int)
    ensures
        spec_find_from(hay, needle, from) matches Some(p) ==> from <= p && occurs_at(hay, needle, p)
            && forall|q: int| from <= q < p ==> !occurs_at(hay, needle, q),
        spec_find_from(hay, needle, from) is None && 0 <= from ==> forall|q: int|
            from <= q ==> !occurs_at(hay, needle, q),
    decreases hay.len() + 1 - from,
{
    if from < 0 || from + needle.len() > hay.len() {
    } else if occurs_at(hay, needle, from) {
    } else {
        lemma_find_from_found(hay, needle, from + 1);
    }
}

/// The first position where `needle` occurs in `hay`.
pub open spec fn spec_find(hay: Seq<char>, needle: Seq<char>) -> Option<int> {
    spec_find_from(hay, needle, 0)
}

/// Whether `needle` occurs in `hay` at position `i`.
pub fn matches_at(hay: &[char], needle: &[char], i: usize) -> (r: bool)
    ensures
        r == occurs_at(hay@, needle@, i as int),
{
    if needle.len() > hay.len() || i > hay.len() - needle.len() {
        return false;
    }
    let mut j: usize = 0;
    while j < needle.len()
        invariant
            i + needle.len() <= hay.len(),
            j <= needle.len(),
            forall|k: int| 0 <= k < j ==> hay@[i + k] == needle@[k],
        decreases needle.len() - j,
    {
        if hay[i + j] != needle[j] {
            assert(hay@.subrange(i as int, i + needle.len())[j as int] != needle@[j as int]);
            return false;
        }
        j = j + 1;
    }
    assert(hay@.subrange(i as int, i + needle.len()) =~= needle@);
    true
}

/// The first position at or after `from` where `needle` occurs in `hay`.
pub fn find_from(hay: &[char], needle: &[char], from: usize) -> (r: Option<usize>)
    ensures
        r matches Some(p) ==> spec_find_from(hay@, needle@, from as int) == Some(p as int),
        r is None ==> spec_find_from(hay@, needle@, from as int) is None,
{
    let mut i: usize = from;
    while i <= hay.len() && needle.len() <= hay.len() - i
        invariant
            from <= i,
            spec_find_from(hay@, needle@, from as int) == spec_find_from(hay@, needle@, i as int),
        decreases hay.len() + 1 - i,
    {
        if matches_at(hay, needle, i) {
            return Some(i);
        }
        proof {
            if i == hay.len() {
                assert(hay@.subrange(i as int, i as int) =~= needle@);
            }
        }
        i = i + 1;
    }
    None
}

/// What std's `str::to_lowercase` gives for a text: each character
/// replaced by its Unicode lowercase mapping.
pub uninterp spec fn lowercase_of(s: Seq<char>) -> Seq<char>;

/// The Unicode lowercase of a text; wraps std's `str::to_lowercase`.
#[verifier::external_body]
pub(crate) fn to_lowercase(s: &str) -> (r: String)
    ensures
        r@ == lowercase_of(s@),
{
    s.to_lowercase()
}

/// `s` with the matches of a non-empty `from`, found from the front and
/// without overlaps, each replaced by `to`.
pub open spec fn replace_matches(s: Seq<char>, from: Seq<char>, to: Seq<char>) -> Seq<char>
    decreases s.len(),
{
    if from.len() == 0 || s.len() < from.len() {
        s
    } else if s.take(from.len() as int) == from {
        to + replace_matches(s.skip(from.len() as int), from, to)
    } else {
        seq![s[0]] + replace_matches(s.skip(1), from, to)
    }
}

/// `s` with the matches of a non-empty `from`, found from the front and
/// without overlaps, each replaced by `to`.
pub fn replace_chars(s: &[char], from: &[char], to: &[char]) -> (r: Vec<char>)
    requires
        from.len() > 0,
    ensures
        r@ == replace_matches(s@, from@, to@),
{
    let mut r: Vec<char> = Vec::new();
    let mut i: usize = 0;
    assert(s@.skip(0) =~= s@);
    assert(r@ + replace_matches(s@, from@, to@) =~= replace_matches(s@, from@, to@));
    while i < s.len()
        invariant
            i <= s.len(),
            from.len() > 0,
            r@ + replace_matches(s@.skip(i as int), from@, to@) == replace_matches(
                s@,
                from@,
                to@,
            ),
        decreases s.len() - i,
    {
        let ghost rest = s@.skip(i as int);
        let ghost r0 = r@;
        if matches_at(s, from, i) {
            proof {
                assert(rest.take(from@.len() as int) =~= from@);
                assert(rest.skip(from@.len() as int) =~= s@.skip(i + from@.len()));
            }
            append_chars(&mut r, to);
            i = i + from.len();
            assert(r@ + replace_matches(s@.skip(i as int), from@, to@) =~= r0
                + replace_matches(rest, from@, to@));
        } else {
            proof {
                assert(rest.skip(1) =~= s@.skip(i + 1));
                if rest.len() >= from@.len() {
                    assert(rest.take(from@.len() as int) != from@) by {
                        if rest.take(from@.len() as int) == from@ {
                            assert(s@.subrange(i as int, i + from@.len()) =~= rest.take(
                                from@.len() as int,
                            ));
                        }
                    }
                } else {
                    assert(replace_matches(rest.skip(1), from@, to@) == rest.skip(1));
                    assert(rest =~= seq![rest[0]] + rest.skip(1));
                }
            }
            r.push(s[i]);
            i = i + 1;
            assert(r@ + replace_matches(s@.skip(i as int), from@, to@) =~= r0
                + replace_matches(rest, from@, to@));
        }
    }
    assert(s@.skip(i as int) =~= Seq::<char>::empty());
    assert(r@ + Seq::<char>::empty() =~= r@);
    r
}

/// `s` with `to` before each character and once more at the end: what
/// replacing the empty pattern, which matches at every character boundary,
/// gives.
pub open spec fn surround_chars(s: Seq<char>, to: Seq<char>) -> Seq<char>
    decreases s.len(),
{
    if s.len() == 0 {
        to
    } else {
        to + seq![s[0]] + surround_chars(s.drop_first(), to)
    }
}

/// `s` with `to` before each character and once more at the end.
pub fn surround_each(s: &[char], to: &[char]) -> (r: Vec<char>)
    ensures
        r@ == surround_chars(s@, to@),
{
    let mut r: Vec<char> = Vec::new();
    let mut i: usize = 0;
    assert(s@.skip(0) =~= s@);
    assert(r@ + surround_chars(s@, to@) =~= surround_chars(s@, to@));
    while i < s.len()
        invariant
            i <= s.len(),
            r@ + surround_chars(s@.skip(i as int), to@) == surround_chars(s@, to@),
        decreases s.len() - i,
    {
        let ghost r0 = r@;
        let ghost rest = s@.skip(i as int);
        assert(rest.drop_first() =~= s@.skip(i + 1));
        append_chars(&mut r, to);
        r.push(s[i]);
        i = i + 1;
        assert(r@ + surround_chars(s@.skip(i as int), to@) =~= r0 + surround_chars(rest, to@));
    }
    append_chars(&mut r, to);
    assert(s@.skip(i as int) =~= Seq::<char>::empty());
    r
}

/// `s` with every match of `from` replaced by `to`, as std's `str::replace`
/// does it: the matches of a non-empty pattern are found from the front
/// and without overlaps; the empty pattern matches before each character
/// and at the end.
pub open spec fn replace_text(s: Seq<char>, from: Seq<char>, to: Seq<char>) -> Seq<char> {
    if from.len() > 0 {
        replace_matches(s, from, to)
    } else {
        surround_chars(s, to)
    }
}

/// Replaces every match of `from` in `s` by `to`.
pub fn replace_all(s: &str, from: &str, to: &str) -> (r: String)
    ensures
        r@ == replace_text(s@, from@, to@),
{
    let f = chars_of(from);
    let cs = chars_of(s);
    let t = chars_of(to);
    let out = if f.len() == 0 {
        surround_each(cs.as_slice(), t.as_slice())
    } else {
        replace_chars(cs.as_slice(), f.as_slice(), t.as_slice())
    };
    string_from_chars(out.as_slice())
}

/// Whether two strings are equal.
pub fn str_eq(a: &str, b: &str) -> (r: bool)
    ensures
        r == (a@ == b@),
{
    let x = chars_of(a);
    let y = chars_of(b);
    chars_eq(x.as_slice(), y.as_slice())
}

/// Copy of `v[a..b]`.
pub fn slice_copy(v: &[char], a: usize, b: usize) -> (r: Vec<char>)
    requires
        a <= b <= v.len(),
    ensures
        r@ == v@.subrange(a as int, b as int),
{
    let mut r: Vec<char> = Vec::new();
    let mut i: usize = a;
    while i < b
        invariant
            a <= i <= b <= v.len(),
            r@ == v@.subrange(a as int, i as int),
        decreases b - i,
    {
        r.push(v[i]);
        i = i + 1;
        assert(r@ =~= v@.subrange(a as int, i as int));
    }
    r
}

/// Whether the two sequences are equal ignoring ASCII case.
pub open spec fn eq_ignore_ascii_case(a: Seq<char>, b: Seq<char>) -> bool {
    spec_lower_seq(a) == spec_lower_seq(b)
}

/// Whether the two sequences are equal ignoring ASCII case.
pub fn chars_eq_ignore_ascii_case(a: &[char], b: &[char]) -> (r: bool)
    ensures
        r == eq_ignore_ascii_case(a@, b@),
{
    if a.len() != b.len() {
        assert(spec_lower_seq(a@).len() != spec_lower_seq(b@).len());
        return false;
    }
    let mut i: usize = 0;
    while i < a.len()
        invariant
            a.len() == b.len(),
            i <= a.len(),
            forall|k: int| 0 <= k < i ==> spec_lower(a@[k]) == spec_lower(b@[k]),
        decreases a.len() - i,
    {
        if lower_char(a[i]) != lower_char(b[i]) {
            assert(spec_lower_seq(a@)[i as int] != spec_lower_seq(b@)[i as int]);
            return false;
        }
        i = i + 1;
    }
    assert(spec_lower_seq(a@) =~= spec_lower_seq(b@));
    true
}

/// Whether two character sequences are equal.
pub fn chars_eq(a: &[char], b: &[char]) -> (r: bool)
    ensures
        r == (a@ == b@),
{
    if a.len() != b.len() {
        return false;
    }
    let mut i: usize = 0;
    while i < a.len()
        invariant
            a.len() == b.len(),
            i <= a.len(),
            forall|k: int| 0 <= k < i ==> a@[k] == b@[k],
        decreases a.len() - i,
    {
        if a[i] != b[i] {
            return false;
        }
        i = i + 1;
    }
    assert(a@ =~= b@);
    true
}

} // verus!

verus! {

/// The ASCII decimal digit for `d < 10`.
pub open spec fn digit_char(d: nat) -> char {
    (0x30 + d) as char
}

/// The decimal representation of `n`, without leading zeros (`0` for 0).
pub open spec fn spec_decimal(n: nat) -> Seq<char>
    decreases n,
{
    if n < 10 {
        seq![digit_char(n)]
    } else {
        spec_decimal(n / 10) + seq![digit_char(n % 10)]
    }
}

/// The character for a decimal digit.
pub fn digit(d: u64) -> (c: char)
    requires
        d < 10,
    ensures
        c == digit_char(d as nat),
{
    char_from_ascii((0x30 + d) as u32)
}

/// Appends the decimal representation of `n`.
pub fn push_decimal(out: &mut Vec<char>, n: u64)
    ensures
        final(out)@ == old(out)@ + spec_decimal(n as nat),
    decreases n,
{
    if n < 10 {
        out.push(digit(n));
        assert(out@ =~= old(out)@ + spec_decimal(n as nat));
    } else {
        push_decimal(out, n / 10);
        out.push(digit(n % 10));
        assert(out@ =~= old(out)@ + spec_decimal(n as nat));
    }
}

/// Appends the characters of `src`.
pub fn append_chars(dst: &mut Vec<char>, src: &[char])
    ensures
        final(dst)@ == old(dst)@ + src@,
{
    let mut i: usize = 0;
    let ghost d0 = dst@;
    while i < src.len()
        invariant
            i <= src@.len(),
            dst@ == d0 + src@.take(i as int),
        decreases src@.len() - i,
    {
        dst.push(src[i]);
        i = i + 1;
        assert(dst@ =~= d0 + src@.take(i as int));
    }
    assert(src@.take(i as int) =~= src@);
}

/// Appends the characters of `s`.
pub fn append_str(dst: &mut Vec<char>, s: &str)
    ensures
        final(dst)@ == old(dst)@ + s@,
{
    let cs = chars_of(s);
    append_chars(dst, cs.as_slice());
}

/// The UTF-8 bytes of `s`.
pub fn utf8_bytes(s: &str) -> (b: Vec<u8>)
    ensures
        b@ == vstd::utf8::encode_utf8(s@),
{
    let bytes = s.as_bytes();
    vstd::slice::slice_to_vec(bytes)
}

/// Unicode whitespace as `char::is_whitespace` sees it (the White_Space
/// property).
pub open spec fn is_unicode_ws(c: char) -> bool {
    ('\t' <= c && c <= '\r') || c == ' ' || c == '\u{85}' || c == '\u{a0}' || c == '\u{1680}'
        || ('\u{2000}' <= c && c <= '\u{200a}') || c == '\u{2028}' || c == '\u{2029}'
        || c == '\u{202f}' || c == '\u{205f}' || c == '\u{3000}'
}

/// Whether `c` is Unicode whitespace.
pub fn is_unicode_ws_char(c: char) -> (r: bool)
    ensures
        r == is_unicode_ws(c),
{
    ('\t' <= c && c <= '\r') || c == ' ' || c == '\u{85}' || c == '\u{a0}' || c == '\u{1680}'
        || ('\u{2000}' <= c && c <= '\u{200a}') || c == '\u{2028}' || c == '\u{2029}'
        || c == '\u{202f}' || c == '\u{205f}' || c == '\u{3000}'
}

/// `s` without leading Unicode whitespace.
pub open spec fn trim_start(s: Seq<char>) -> Seq<char>
    decreases s.len(),
{
    if s.len() > 0 && is_unicode_ws(s[0]) {
        trim_start(s.drop_first())
    } else {
        s
    }
}

/// `s` without trailing Unicode whitespace.
pub open spec fn trim_end(s: Seq<char>) -> Seq<char>
    decreases s.len(),
{
    if s.len() > 0 && is_unicode_ws(s.last()) {
        trim_end(s.drop_last())
    } else {
        s
    }
}

/// `s` without leading and trailing Unicode whitespace, as `str::trim`
/// gives it.
pub open spec fn spec_trim(s: Seq<char>) -> Seq<char> {
    trim_end(trim_start(s))
}

/// `s` without leading and trailing Unicode whitespace.
pub fn trim(s: &[char]) -> (r: Vec<char>)
    ensures
        r@ == spec_trim(s@),
{
    let mut a: usize = 0;
    assert(s@.skip(0) =~= s@);
    while a < s.len() && is_unicode_ws_char(s[a])
        invariant
            a <= s@.len(),
            trim_start(s@) == trim_start(s@.skip(a as int)),
        decreases s@.len() - a,
    {
        assert(s@.skip(a as int).drop_first() =~= s@.skip(a + 1));
        a = a + 1;
    }
    assert(trim_start(s@) == s@.skip(a as int)) by {
        if a < s@.len() {
            assert(s@.skip(a as int)[0] == s@[a as int]);
        }
    }
    let mut b: usize = s.len();
    while b > a && is_unicode_ws_char(s[b - 1])
        invariant
            a <= b <= s@.len(),
            trim_start(s@) == s@.skip(a as int),
            spec_trim(s@) == trim_end(s@.subrange(a as int, b as int)),
        decreases b,
    {
        assert(s@.subrange(a as int, b as int).drop_last() =~= s@.subrange(a as int, b - 1));
        b = b - 1;
    }
    assert(s@.skip(a as int) =~= s@.subrange(a as int, s@.len() as int));
    slice_copy(s, a, b)
}

/// The position of the first `c` in `s`.
pub open spec fn index_of(s: Seq<char>, c: char) -> Option<int>
    decreases s.len(),
{
    if s.len() == 0 {
        None
    } else if s[0] == c {
        Some(0)
    } else {
        match index_of(s.drop_first(), c) {
            Some(i) => Some(i + 1),
            None => None,
        }
    }
}

pub proof fn lemma_index_of(s: Seq<char>, c: char)
    ensures
        match index_of(s, c) {
            Some(i) => 0 <= i < s.len() && s[i] == c && forall|j: int| 0 <= j < i ==> s[j] != c,
            None => forall|j: int| 0 <= j < s.len() ==> s[j] != c,
        },
    decreases s.len(),
{
    if s.len() > 0 {
        lemma_index_of(s.drop_first(), c);
        if s[0] != c {
            assert forall|j: int| 1 <= j < s.len() implies s[j] == s.drop_first()[j - 1] by {}
        }
    }
}

/// The position of the first `c` in `s`.
pub fn find_char(s: &[char], c: char) -> (r: Option<usize>)
    ensures
        match index_of(s@, c) {
            Some(i) => r == Some(i as usize),
            None => r is None,
        },
{
    proof {
        lemma_index_of(s@, c);
    }
    let mut i: usize = 0;
    while i < s.len()
        invariant
            i <= s@.len(),
            forall|j: int| 0 <= j < i ==> s@[j] != c,
        decreases s@.len() - i,
    {
        if s[i] == c {
            proof {
                lemma_index_of(s@, c);
            }
            return Some(i);
        }
        i = i + 1;
    }
    proof {
        lemma_index_of(s@, c);
    }
    None
}

/// `s` split at its first `c`, as `str::split_once` gives it.
pub open spec fn split_once(s: Seq<char>, c: char) -> Option<(Seq<char>, Seq<char>)> {
    match index_of(s, c) {
        Some(i) => Some((s.take(i), s.skip(i + 1))),
        None => None,
    }
}

/// The pieces of `s` between the separators `c`, as `str::split` gives them.
pub open spec fn split_on(s: Seq<char>, c: char) -> Seq<Seq<char>>
    decreases s.len(),
{
    match index_of(s, c) {
        Some(i) => {
            proof {
                lemma_index_of(s, c);
            }
            seq![s.take(i)] + split_on(s.skip(i + 1), c)
        },
        None => seq![s],
    }
}

/// Splits `s` at its first `c`.
pub fn split_once_char(s: &[char], c: char) -> (r: Option<(Vec<char>, Vec<char>)>)
    ensures
        match split_once(s@, c) {
            Some((a, b)) => r matches Some((x, y)) && x@ == a && y@ == b,
            None => r is None,
        },
{
    proof {
        lemma_index_of(s@, c);
    }
    match find_char(s, c) {
        Some(i) => {
            let a = slice_copy(s, 0, i);
            let b = slice_copy(s, i + 1, s.len());
            assert(a@ =~= s@.take(i as int));
            assert(b@ =~= s@.skip(i + 1));
            Some((a, b))
        },
        None => None,
    }
}

/// The pieces of `s` between the separators `c`.
pub fn split_on_char(s: &[char], c: char) -> (r: Vec<Vec<char>>)
    ensures
        r@.len() == split_on(s@, c).len(),
        forall|k: int| 0 <= k < r@.len() ==> (#[trigger] r@[k])@ == split_on(s@, c)[k],
{
    let ghost pieces = split_on(s@, c);
    let mut r: Vec<Vec<char>> = Vec::new();
    let mut start: usize = 0;
    assert(s@.skip(0) =~= s@);
    assert(pieces.skip(0) =~= pieces);
    loop
        invariant
            start <= s@.len(),
            pieces == split_on(s@, c),
            r@.len() <= pieces.len(),
            pieces.skip(r@.len() as int) == split_on(s@.skip(start as int), c),
            forall|k: int| 0 <= k < r@.len() ==> (#[trigger] r@[k])@ == pieces[k],
        decreases s@.len() - start,
    {
        let rest = vstd::slice::slice_subrange(s, start, s.len());
        assert(rest@ =~= s@.skip(start as int));
        proof {
            lemma_index_of(rest@, c);
        }
        let ghost n = r@.len() as int;
        match find_char(rest, c) {
            Some(i) => {
                let piece = slice_copy(rest, 0, i);
                assert(piece@ =~= rest@.take(i as int));
                assert(s@.skip(start as int).skip(i + 1) =~= s@.skip(start + i + 1));
                let ghost tail = split_on(s@.skip(start + i + 1), c);
                assert(split_on(s@.skip(start as int), c) =~= seq![piece@] + tail);
                assert(pieces.skip(n)[0] == pieces[n]);
                assert(pieces.skip(n + 1) =~= pieces.skip(n).drop_first());
                r.push(piece);
                start = start + i + 1;
            },
            None => {
                let piece = slice_copy(rest, 0, rest.len());
                assert(piece@ =~= rest@);
                assert(split_on(s@.skip(start as int), c) =~= seq![piece@]);
                assert(pieces.skip(n)[0] == pieces[n]);
                assert(pieces.skip(n).len() == 1);
                r.push(piece);
                return r;
            },
        }
    }
}

/// Whether every character of `s` is an ASCII decimal digit.
pub open spec fn all_digit_chars(s: Seq<char>) -> bool {
    forall|i: int| 0 <= i < s.len() ==> '0' <= #[trigger] s[i] <= '9'
}

/// The number that the decimal digits `s` write.
pub open spec fn digit_chars_value(s: Seq<char>) -> nat
    decreases s.len(),
{
    if s.len() == 0 {
        0
    } else {
        digit_chars_value(s.drop_last()) * 10 + (s.last() as u32 - 0x30) as nat
    }
}

/// What `from_str` of an unsigned integer type with maximum `max` gives for
/// `s`: an optional `+`, then at least one decimal digit and nothing else,
/// with a value of at most `max`.
pub open spec fn spec_parse_uint(s: Seq<char>, max: nat) -> Option<nat> {
    let d = if s.len() > 0 && s[0] == '+' {
        s.skip(1)
    } else {
        s
    };
    if d.len() == 0 || !all_digit_chars(d) || digit_chars_value(d) > max {
        None
    } else {
        Some(digit_chars_value(d))
    }
}

/// A longer run of digits has at least the value of a prefix of it.
pub proof fn lemma_digit_chars_prefix_le(s: Seq<char>, k: int)
    requires
        0 <= k <= s.len(),
        all_digit_chars(s),
    ensures
        digit_chars_value(s.take(k)) <= digit_chars_value(s),
    decreases s.len(),
{
    if k < s.len() {
        assert(s.drop_last().take(k) =~= s.take(k));
        lemma_digit_chars_prefix_le(s.drop_last(), k);
        assert(all_digit_chars(s.drop_last()));
    } else {
        assert(s.take(k) =~= s);
    }
}

/// Parses an unsigned integer of at most `max`, as `from_str` does.
pub fn parse_uint(s: &[char], max: u64) -> (r: Option<u64>)
    ensures
        match spec_parse_uint(s@, max as nat) {
            Some(v) => r == Some(v as u64),
            None => r is None,
        },
{
    let start: usize = if s.len() > 0 && s[0] == '+' {
        1
    } else {
        0
    };
    let ghost d = if s@.len() > 0 && s@[0] == '+' {
        s@.skip(1)
    } else {
        s@
    };
    assert(d =~= s@.skip(start as int));
    if start == s.len() {
        return None;
    }
    let mut value: u64 = 0;
    let mut i: usize = start;
    while i < s.len()
        invariant
            start <= i <= s@.len(),
            d == s@.skip(start as int),
            d == (if s@.len() > 0 && s@[0] == '+' {
                s@.skip(1)
            } else {
                s@
            }),
            all_digit_chars(d.take(i - start)),
            value == digit_chars_value(d.take(i - start)),
            value <= max,
        decreases s@.len() - i,
    {
        let c = s[i];
        assert(d.take(i + 1 - start).drop_last() =~= d.take(i - start));
        if c < '0' || c > '9' {
            assert(!all_digit_chars(d)) by {
                assert(d[i - start] == c);
            }
            return None;
        }
        let dv = (c as u32 - 0x30) as u64;
        assert(all_digit_chars(d.take(i + 1 - start)));
        if (value as u128) * 10 + (dv as u128) > (max as u128) {
            proof {
                if all_digit_chars(d) {
                    lemma_digit_chars_prefix_le(d, i + 1 - start);
                }
            }
            return None;
        }
        value = value * 10 + dv;
        i = i + 1;
    }
    assert(d.take(i - start) =~= d);
    Some(value)
}

/// Why an unsigned integer could not be parsed.
#[derive(Clone, Copy, Debug, PartialEq, Eq, Structural)]
pub enum IntErrorKind {
    /// The text is empty.
    Empty,
    /// A character is not a digit (a lone `+` counts as one).
    InvalidDigit,
    /// The value is too large for the type.
    PosOverflow,
}

/// Scanning the digits `d` from position `k` on, left to right: the first
/// character that is not a digit, or the first digit after which the value
/// exceeds `max`, decides the error; `None` when there is neither.
pub open spec fn first_failure(d: Seq<char>, max: nat, k: int) -> Option<IntErrorKind>
    decreases d.len() - k,
{
    if k < 0 || k >= d.len() {
        None
    } else if !('0' <= d[k] <= '9') {
        Some(IntErrorKind::InvalidDigit)
    } else if digit_chars_value(d.take(k + 1)) > max {
        Some(IntErrorKind::PosOverflow)
    } else {
        first_failure(d, max, k + 1)
    }
}

/// What `from_str` of an unsigned integer type with maximum `max` gives for
/// `s`, with the kind of error when it fails.
pub open spec fn spec_parse_uint_result(s: Seq<char>, max: nat) -> Result<nat, IntErrorKind> {
    if s.len() == 0 {
        Err(IntErrorKind::Empty)
    } else if s == seq!['+'] {
        Err(IntErrorKind::InvalidDigit)
    } else {
        let d = if s[0] == '+' {
            s.skip(1)
        } else {
            s
        };
        match first_failure(d, max, 0) {
            Some(e) => Err(e),
            None => Ok(digit_chars_value(d)),
        }
    }
}

/// A scan without failure stays within `max` to the end.
pub proof fn lemma_no_failure_bounded(d: Seq<char>, max: nat, k: int)
    requires
        0 <= k <= d.len(),
        first_failure(d, max, k) is None,
        digit_chars_value(d.take(k)) <= max,
    ensures
        digit_chars_value(d) <= max,
    decreases d.len() - k,
{
    if k < d.len() {
        lemma_no_failure_bounded(d, max, k + 1);
    } else {
        assert(d.take(k) =~= d);
    }
}

/// A successful parse stays within the maximum.
pub proof fn lemma_parse_uint_result_bounded(s: Seq<char>, max: nat)
    ensures
        spec_parse_uint_result(s, max) matches Ok(v) ==> v <= max,
{
    if s.len() > 0 && s != seq!['+'] {
        let d = if s[0] == '+' {
            s.skip(1)
        } else {
            s
        };
        if first_failure(d, max, 0) is None {
            assert(d.take(0) =~= Seq::<char>::empty());
            lemma_no_failure_bounded(d, max, 0);
        }
    }
}

/// The message of a `ParseIntError` of this kind.
pub open spec fn int_error_message(e: IntErrorKind) -> Seq<char> {
    match e {
        IntErrorKind::Empty => "cannot parse integer from empty string"@,
        IntErrorKind::InvalidDigit => "invalid digit found in string"@,
        IntErrorKind::PosOverflow => "number too large to fit in target type"@,
    }
}

/// The message of a `ParseIntError` of this kind.
pub fn int_error_text(e: IntErrorKind) -> (s: String)
    ensures
        s@ == int_error_message(e),
{
    match e {
        IntErrorKind::Empty => "cannot parse integer from empty string".to_owned(),
        IntErrorKind::InvalidDigit => "invalid digit found in string".to_owned(),
        IntErrorKind::PosOverflow => "number too large to fit in target type".to_owned(),
    }
}

/// Parses an unsigned integer of at most `max`, as `from_str` does, telling
/// why it fails.
pub fn parse_uint_result(s: &[char], max: u64) -> (r: Result<u64, IntErrorKind>)
    ensures
        match spec_parse_uint_result(s@, max as nat) {
            Ok(v) => r == Ok::<u64, IntErrorKind>(v as u64),
            Err(e) => r == Err::<u64, IntErrorKind>(e),
        },
{
    if s.len() == 0 {
        return Err(IntErrorKind::Empty);
    }
    if s.len() == 1 && s[0] == '+' {
        assert(s@ =~= seq!['+']);
        return Err(IntErrorKind::InvalidDigit);
    }
    assert(s@ != seq!['+']) by {
        if s@ == seq!['+'] {
            assert(s@.len() == 1 && s@[0] == '+');
        }
    }
    let start: usize = if s[0] == '+' {
        1
    } else {
        0
    };
    let ghost d = if s@[0] == '+' {
        s@.skip(1)
    } else {
        s@
    };
    assert(d =~= s@.skip(start as int));
    let mut value: u64 = 0;
    let mut i: usize = start;
    assert(d.take(0) =~= Seq::<char>::empty());
    while i < s.len()
        invariant
            start <= i <= s@.len(),
            s@.len() > 0,
            s@ != seq!['+'],
            d == (if s@[0] == '+' {
                s@.skip(1)
            } else {
                s@
            }),
            d == s@.skip(start as int),
            first_failure(d, max as nat, 0) == first_failure(d, max as nat, i - start),
            value == digit_chars_value(d.take(i - start)),
            value <= max,
        decreases s@.len() - i,
    {
        let c = s[i];
        assert(d[i - start] == c);
        if c < '0' || c > '9' {
            return Err(IntErrorKind::InvalidDigit);
        }
        let dv = (c as u32 - 0x30) as u64;
        assert(d.take(i + 1 - start).drop_last() =~= d.take(i - start));
        if (value as u128) * 10 + (dv as u128) > (max as u128) {
            return Err(IntErrorKind::PosOverflow);
        }
        value = value * 10 + dv;
        i = i + 1;
    }
    assert(d.take(i - start) =~= d);
    Ok(value)
}

/// `s` without trailing Unicode whitespace.
pub fn trim_end_chars(s: &[char]) -> (r: Vec<char>)
    ensures
        r@ == trim_end(s@),
{
    let mut b: usize = s.len();
    assert(s@.subrange(0, b as int) =~= s@);
    while b > 0 && is_unicode_ws_char(s[b - 1])
        invariant
            b <= s@.len(),
            trim_end(s@) == trim_end(s@.subrange(0, b as int)),
        decreases b,
    {
        assert(s@.subrange(0, b as int).drop_last() =~= s@.subrange(0, b - 1));
        b = b - 1;
    }
    slice_copy(s, 0, b)
}

/// The pieces joined with `sep` between them.
#[verifier::opaque]
pub open spec fn join(pieces: Seq<Seq<char>>, sep: Seq<char>) -> Seq<char>
    decreases pieces.len(),
{
    if pieces.len() == 0 {
        seq![]
    } else if pieces.len() == 1 {
        pieces[0]
    } else {
        join(pieces.drop_last(), sep) + sep + pieces.last()
    }
}

/// `c` mapped by ASCII uppercasing.
pub open spec fn spec_upper(c: char) -> char {
    if 'a' <= c && c <= 'z' {
        ((c as u32) - 32) as char
    } else {
        c
    }
}

/// ASCII uppercasing of one character.
pub fn upper_char(c: char) -> (r: char)
    ensures
        r == spec_upper(c),
{
    if 'a' <= c && c <= 'z' {
        char_from_ascii((c as u32) - 32)
    } else {
        c
    }
}

/// `l` without one trailing carriage return.
pub open spec fn strip_cr(l: Seq<char>) -> Seq<char> {
    if l.len() > 0 && l.last() == '\r' {
        l.drop_last()
    } else {
        l
    }
}

/// The lines of `s`, as `str::lines` gives them: split at each `\n`, a
/// `\r` before the `\n` removed, and no empty last line after a final
/// `\n`.
pub open spec fn std_lines(s: Seq<char>) -> Seq<Seq<char>> {
    let parts = split_on(s, '\n');
    let init = parts.drop_last().map_values(|l: Seq<char>| strip_cr(l));
    if parts.last().len() == 0 {
        init
    } else {
        init.push(parts.last())
    }
}

/// The position of the first whitespace character of `s`.
pub open spec fn index_of_ws(s: Seq<char>) -> Option<int>
    decreases s.len(),
{
    if s.len() == 0 {
        None
    } else if is_unicode_ws(s[0]) {
        Some(0)
    } else {
        match index_of_ws(s.drop_first()) {
            Some(i) => Some(i + 1),
            None => None,
        }
    }
}

pub proof fn lemma_index_of_ws(s: Seq<char>)
    ensures
        index_of_ws(s) matches Some(i) ==> 0 <= i < s.len() && is_unicode_ws(s[i]) && forall|
            j: int,
        | 0 <= j < i ==> !is_unicode_ws(s[j]),
        index_of_ws(s) is None ==> forall|j: int| 0 <= j < s.len() ==> !is_unicode_ws(s[j]),
    decreases s.len(),
{
    if s.len() > 0 && !is_unicode_ws(s[0]) {
        lemma_index_of_ws(s.drop_first());
        assert forall|j: int| 1 <= j < s.len() implies s[j] == s.drop_first()[j - 1] by {}
    }
}

/// The pieces of `s` between whitespace characters, empty ones included.
pub open spec fn split_ws(s: Seq<char>) -> Seq<Seq<char>>
    decreases s.len(),
{
    match index_of_ws(s) {
        Some(i) => {
            proof {
                lemma_index_of_ws(s);
            }
            seq![s.take(i)] + split_ws(s.skip(i + 1))
        },
        None => seq![s],
    }
}

/// The pieces that are not empty, in order.
pub open spec fn nonempty_pieces(ps: Seq<Seq<char>>) -> Seq<Seq<char>>
    decreases ps.len(),
{
    if ps.len() == 0 {
        ps
    } else if ps.last().len() > 0 {
        nonempty_pieces(ps.drop_last()).push(ps.last())
    } else {
        nonempty_pieces(ps.drop_last())
    }
}

/// The words of `s`, as `str::split_whitespace` gives them: the non-empty
/// pieces between whitespace.
pub open spec fn words(s: Seq<char>) -> Seq<Seq<char>> {
    nonempty_pieces(split_ws(s))
}

/// The position of the first whitespace character of `s`.
pub fn find_ws(s: &[char]) -> (r: Option<usize>)
    ensures
        match index_of_ws(s@) {
            Some(i) => r == Some(i as usize),
            None => r is None,
        },
{
    proof {
        lemma_index_of_ws(s@);
    }
    let mut i: usize = 0;
    while i < s.len()
        invariant
            i <= s@.len(),
            forall|j: int| 0 <= j < i ==> !is_unicode_ws(s@[j]),
        decreases s@.len() - i,
    {
        if is_unicode_ws_char(s[i]) {
            proof {
                lemma_index_of_ws(s@);
            }
            return Some(i);
        }
        i = i + 1;
    }
    proof {
        lemma_index_of_ws(s@);
    }
    None
}

/// The pieces of `s` between whitespace characters, empty ones included.
pub fn split_ws_chars(s: &[char]) -> (r: Vec<Vec<char>>)
    ensures
        r@.len() == split_ws(s@).len(),
        forall|k: int| 0 <= k < r@.len() ==> (#[trigger] r@[k])@ == split_ws(s@)[k],
{
    let ghost pieces = split_ws(s@);
    let mut r: Vec<Vec<char>> = Vec::new();
    let mut start: usize = 0;
    assert(s@.skip(0) =~= s@);
    assert(pieces.skip(0) =~= pieces);
    loop
        invariant
            start <= s@.len(),
            pieces == split_ws(s@),
            r@.len() <= pieces.len(),
            pieces.skip(r@.len() as int) == split_ws(s@.skip(start as int)),
            forall|k: int| 0 <= k < r@.len() ==> (#[trigger] r@[k])@ == pieces[k],
        decreases s@.len() - start,
    {
        let rest = vstd::slice::slice_subrange(s, start, s.len());
        assert(rest@ =~= s@.skip(start as int));
        proof {
            lemma_index_of_ws(rest@);
        }
        let ghost n = r@.len() as int;
        match find_ws(rest) {
            Some(i) => {
                let piece = slice_copy(rest, 0, i);
                assert(piece@ =~= rest@.take(i as int));
                assert(s@.skip(start as int).skip(i + 1) =~= s@.skip(start + i + 1));
                let ghost tail = split_ws(s@.skip(start + i + 1));
                assert(split_ws(s@.skip(start as int)) =~= seq![piece@] + tail);
                assert(pieces.skip(n)[0] == pieces[n]);
                assert(pieces.skip(n + 1) =~= pieces.skip(n).drop_first());
                r.push(piece);
                start = start + i + 1;
            },
            None => {
                let piece = slice_copy(rest, 0, rest.len());
                assert(piece@ =~= rest@);
                assert(split_ws(s@.skip(start as int)) =~= seq![piece@]);
                assert(pieces.skip(n)[0] == pieces[n]);
                assert(pieces.skip(n).len() == 1);
                r.push(piece);
                return r;
            },
        }
    }
}

/// The words of `s`, as `str::split_whitespace` gives them.
pub fn split_whitespace(s: &[char]) -> (r: Vec<Vec<char>>)
    ensures
        r@.len() == words(s@).len(),
        forall|k: int| 0 <= k < r@.len() ==> (#[trigger] r@[k])@ == words(s@)[k],
{
    let pieces = split_ws_chars(s);
    let ghost ps = split_ws(s@);
    let mut r: Vec<Vec<char>> = Vec::new();
    let mut i: usize = 0;
    while i < pieces.len()
        invariant
            ps == split_ws(s@),
            pieces@.len() == ps.len(),
            forall|k: int| 0 <= k < pieces@.len() ==> (#[trigger] pieces@[k])@ == ps[k],
            i <= pieces.len(),
            r@.len() == nonempty_pieces(ps.take(i as int)).len(),
            forall|k: int|
                0 <= k < r@.len() ==> (#[trigger] r@[k])@ == nonempty_pieces(ps.take(i as int))[k],
        decreases pieces.len() - i,
    {
        proof {
            let t = ps.take(i + 1);
            assert(t.drop_last() =~= ps.take(i as int));
            assert(t.last() == ps[i as int]);
        }
        if pieces[i].len() > 0 {
            let piece = slice_copy(pieces[i].as_slice(), 0, pieces[i].len());
            assert(piece@ =~= pieces@[i as int]@);
            r.push(piece);
        }
        i = i + 1;
    }
    assert(ps.take(i as int) =~= ps);
    r
}

/// The lines of `s`, as `str::lines` gives them.
pub fn lines_of(s: &[char]) -> (r: Vec<Vec<char>>)
    ensures
        r@.len() == std_lines(s@).len(),
        forall|k: int| 0 <= k < r@.len() ==> (#[trigger] r@[k])@ == std_lines(s@)[k],
{
    let parts = split_on_char(s, '\n');
    let ghost ps = split_on(s@, '\n');
    proof {
        lemma_split_on_nonempty(s@, '\n');
    }
    let last = parts.len() - 1;
    let ghost init = ps.drop_last().map_values(|l: Seq<char>| strip_cr(l));
    let mut r: Vec<Vec<char>> = Vec::new();
    let mut i: usize = 0;
    while i < last
        invariant
            ps == split_on(s@, '\n'),
            init == ps.drop_last().map_values(|l: Seq<char>| strip_cr(l)),
            parts@.len() == ps.len(),
            last == parts@.len() - 1,
            forall|k: int| 0 <= k < parts@.len() ==> (#[trigger] parts@[k])@ == ps[k],
            i <= last,
            r@.len() == i,
            forall|k: int| 0 <= k < i ==> (#[trigger] r@[k])@ == init[k],
        decreases last - i,
    {
        let p = &parts[i];
        let n = p.len();
        let line = if n > 0 && p[n - 1] == '\r' {
            slice_copy(p.as_slice(), 0, n - 1)
        } else {
            slice_copy(p.as_slice(), 0, n)
        };
        proof {
            assert(init[i as int] == strip_cr(ps[i as int]));
            if n > 0 && p@[n - 1] == '\r' {
                assert(line@ =~= ps[i as int].drop_last());
            } else {
                assert(line@ =~= ps[i as int]);
            }
        }
        r.push(line);
        i = i + 1;
    }
    if parts[last].len() > 0 {
        let line = slice_copy(parts[last].as_slice(), 0, parts[last].len());
        assert(line@ =~= ps.last());
        r.push(line);
    }
    r
}

/// Splitting always gives at least one piece.
pub proof fn lemma_split_on_nonempty(s: Seq<char>, c: char)
    ensures
        split_on(s, c).len() >= 1,
    decreases s.len(),
{
    lemma_index_of(s, c);
    match index_of(s, c) {
        Some(i) => {
            lemma_split_on_nonempty(s.skip(i + 1), c);
        },
        None => {},
    }
}

} // verus!
