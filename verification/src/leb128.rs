//! Unsigned LEB128 encoding, as used by the ALiS live stream protocol.
use vstd::prelude::*;

verus! {

/// The unsigned LEB128 encoding of `v`: seven bits per byte, least
/// significant group first, the high bit set on every byte but the last.
pub open spec fn spec_encode(v: nat) -> Seq<u8>
    decreases v,
{
    if v < 128 {
        seq![v as u8]
    } else {
        seq![(v % 128 + 128) as u8] + spec_encode(v / 128)
    }
}

/// The value that a LEB128 byte sequence stands for.
pub open spec fn spec_decode(bytes: Seq<u8>) -> nat
    decreases bytes.len(),
{
    if bytes.len() == 0 {
        0
    } else {
        (bytes[0] % 128) as nat + 128 * spec_decode(bytes.drop_first())
    }
}

/// Encodes `value` as unsigned LEB128.
pub fn encode(value: u64) -> (bytes: Vec<u8>)
    ensures
        bytes@ == spec_encode(value as nat),
{
    let mut value: u64 = value;
    let mut bytes: Vec<u8> = Vec::new();
    let ghost orig = value as nat;

    while value > 127
        invariant
            bytes@ + spec_encode(value as nat) == spec_encode(orig),
        decreases value,
    {
        let low: u64 = value % 128;
        value = value / 128;
        bytes.push((low + 128) as u8);
        assert(bytes@ + spec_encode(value as nat) =~= spec_encode(orig));
    }
    bytes.push(value as u8);
    assert(bytes@ =~= spec_encode(orig));
    bytes
}

/// Decoding an encoding gives back the value, the encoding is never empty,
/// and only its last byte has the high bit clear.
pub proof fn lemma_encode_decode(v: nat)
    ensures
        spec_decode(spec_encode(v)) == v,
        spec_encode(v).len() >= 1,
        forall|i: int| 0 <= i < spec_encode(v).len() - 1 ==> #[trigger] spec_encode(v)[i] >= 128,
        spec_encode(v).last() < 128,
    decreases v,
{
    if v < 128 {
        assert(spec_encode(v).drop_first() =~= Seq::<u8>::empty());
        assert(spec_decode(Seq::<u8>::empty()) == 0);
        assert(spec_encode(v)[0] == v as u8);
    } else {
        lemma_encode_decode(v / 128);
        let s = spec_encode(v);
        assert(s.drop_first() =~= spec_encode(v / 128));
        assert(s[0] == (v % 128 + 128) as u8);
        assert((s[0] % 128) as nat == v % 128);
        assert(v == v % 128 + 128 * (v / 128)) by (nonlinear_arith);
        assert(spec_decode(s) == (s[0] % 128) as nat + 128 * spec_decode(s.drop_first()));
        assert forall|i: int| 0 <= i < s.len() - 1 implies #[trigger] s[i] >= 128 by {
            if i > 0 {
                assert(s[i] == spec_encode(v / 128)[i - 1]);
            }
        }
    }
}

/// 128 to the power `k`.
pub open spec fn pow128(k: nat) -> nat
    decreases k,
{
    if k == 0 {
        1
    } else {
        128 * pow128((k - 1) as nat)
    }
}

proof fn lemma_pow128_at_least(k: nat)
    requires
        k >= 1,
    ensures
        pow128(k) >= 128,
    decreases k,
{
    if k > 1 {
        lemma_pow128_at_least((k - 1) as nat);
        assert(pow128(k) == 128 * pow128((k - 1) as nat));
    } else {
        assert(pow128(0) == 1);
        assert(pow128(k) == 128 * pow128(0));
    }
}

/// The encoding is as short as it can be: it fits in `k` bytes exactly
/// when the value is below 128 to the power `k`; and its last byte is zero
/// only for the value 0.
pub proof fn lemma_encode_minimal(v: nat, k: nat)
    requires
        k >= 1,
    ensures
        spec_encode(v).len() <= k <==> v < pow128(k),
        spec_encode(v).last() == 0 <==> v == 0,
    decreases v,
{
    lemma_pow128_at_least(k);
    if v >= 128 {
        let s = spec_encode(v);
        lemma_encode_decode(v / 128);
        assert(s.len() == 1 + spec_encode(v / 128).len());
        assert(s.last() == spec_encode(v / 128).last());
        if k > 1 {
            lemma_encode_minimal(v / 128, (k - 1) as nat);
            let p = pow128((k - 1) as nat);
            assert(pow128(k) == 128 * p);
            assert(v / 128 < p <==> v < 128 * p) by (nonlinear_arith);
        } else {
            lemma_encode_minimal(v / 128, 1);
            assert(pow128(0) == 1);
            assert(pow128(1) == 128 * pow128(0));
        }
    } else {
        assert(spec_encode(v).last() == v as u8);
        assert(spec_encode(v).len() == 1);
    }
}

/// A 64-bit value takes at most ten bytes.
pub proof fn lemma_encode_at_most_ten_bytes(v: u64)
    ensures
        1 <= spec_encode(v as nat).len() <= 10,
{
    lemma_encode_decode(v as nat);
    lemma_encode_minimal(v as nat, 10);
    reveal_with_fuel(pow128, 11);
    assert(pow128(10) == 0x400000000000000000);
}

/// The first LEB128 number at the front of `bytes`, as a reader takes it:
/// its value and how many bytes it takes, up to the first byte whose high
/// bit is clear; none when there is no such byte.
pub open spec fn read_leb(bytes: Seq<u8>) -> Option<(nat, nat)>
    decreases bytes.len(),
{
    if bytes.len() == 0 {
        None
    } else if bytes[0] < 128 {
        Some((bytes[0] as nat, 1))
    } else {
        match read_leb(bytes.drop_first()) {
            Some((v, n)) => Some(((bytes[0] - 128) as nat + 128 * v, n + 1)),
            None => None,
        }
    }
}

/// Reads `k` LEB128 numbers one after the other from the front of `bytes`:
/// the numbers and the bytes after them.
pub open spec fn read_lebs(bytes: Seq<u8>, k: nat) -> Option<(Seq<nat>, Seq<u8>)>
    decreases k,
{
    if k == 0 {
        Some((seq![], bytes))
    } else {
        match read_leb(bytes) {
            None => None,
            Some((v, n)) => match read_lebs(bytes.skip(n as int), (k - 1) as nat) {
                None => None,
                Some((vs, rest)) => Some((seq![v] + vs, rest)),
            },
        }
    }
}

/// An encoding is read back, whatever follows it: the reader gets the value
/// and stops exactly at the end of the encoding.
pub proof fn lemma_read_leb(v: nat, rest: Seq<u8>)
    ensures
        read_leb(spec_encode(v) + rest) == Some((v, spec_encode(v).len())),
    decreases v,
{
    let s = spec_encode(v) + rest;
    if v < 128 {
        assert(s[0] == v as u8);
    } else {
        lemma_read_leb(v / 128, rest);
        assert(s.drop_first() =~= spec_encode(v / 128) + rest);
        assert(s[0] == (v % 128 + 128) as u8);
        assert(v == v % 128 + 128 * (v / 128)) by (nonlinear_arith);
    }
}

/// Reading a number off an encoding followed by more: the value, then what
/// reading the rest gives.
pub proof fn lemma_read_lebs_step(v: nat, tail: Seq<u8>, k: nat)
    ensures
        read_lebs(spec_encode(v) + tail, k + 1) == match read_lebs(tail, k) {
            None => None,
            Some((vs, rest)) => Some((seq![v] + vs, rest)),
        },
{
    lemma_read_leb(v, tail);
    assert((spec_encode(v) + tail).skip(spec_encode(v).len() as int) =~= tail);
}

/// Encodings in a row, followed by anything, read back as the numbers in
/// order and what follows.
pub proof fn lemma_read_lebs_in_a_row(vs: Seq<nat>, rest: Seq<u8>)
    ensures
        read_lebs(encodings(vs) + rest, vs.len()) == Some((vs, rest)),
    decreases vs.len(),
{
    if vs.len() == 0 {
        assert(encodings(vs) + rest =~= rest);
    } else {
        let t = vs.drop_first();
        lemma_read_lebs_in_a_row(t, rest);
        assert(encodings(vs) == spec_encode(vs[0]) + encodings(t));
        assert(encodings(vs) + rest =~= spec_encode(vs[0]) + (encodings(t) + rest));
        lemma_read_lebs_step(vs[0], encodings(t) + rest, t.len());
        assert(seq![vs[0]] + t =~= vs);
    }
}

/// The encodings of numbers, one after the other.
pub open spec fn encodings(vs: Seq<nat>) -> Seq<u8>
    decreases vs.len(),
{
    if vs.len() == 0 {
        seq![]
    } else {
        spec_encode(vs[0]) + encodings(vs.drop_first())
    }
}

/// The encodings of three numbers.
pub proof fn lemma_encodings3(a: nat, b: nat, c: nat)
    ensures
        encodings(seq![a, b, c]) == spec_encode(a) + spec_encode(b) + spec_encode(c),
{
    assert(seq![a, b, c].drop_first() =~= seq![b, c]);
    assert(seq![b, c].drop_first() =~= seq![c]);
    assert(seq![c].drop_first() =~= Seq::<nat>::empty());
    assert(encodings(Seq::<nat>::empty()) =~= Seq::<u8>::empty());
    assert(encodings(seq![c]) =~= spec_encode(c));
    assert(encodings(seq![b, c]) =~= spec_encode(b) + spec_encode(c));
    assert(encodings(seq![a, b, c]) =~= spec_encode(a) + spec_encode(b) + spec_encode(c));
}

/// The encodings of four numbers.
pub proof fn lemma_encodings4(a: nat, b: nat, c: nat, d: nat)
    ensures
        encodings(seq![a, b, c, d]) == spec_encode(a) + spec_encode(b) + spec_encode(c)
            + spec_encode(d),
{
    lemma_encodings3(b, c, d);
    assert(seq![a, b, c, d].drop_first() =~= seq![b, c, d]);
    assert(encodings(seq![a, b, c, d]) =~= spec_encode(a) + spec_encode(b) + spec_encode(c)
        + spec_encode(d));
}

} // verus!
