//! Reading event times: a number of seconds, as its shortest decimal text,
//! into microseconds.
use vstd::prelude::*;
use crate::text::{
    chars_of, int_error_message, int_error_text, parse_uint_result, slice_copy, spec_parse_uint_result,
    spec_trim, split_on, split_on_char, trim, IntErrorKind,
};

verus! {

/// The fraction digits as microseconds: the first six characters, padded
/// on the right with zeros to six.
pub open spec fn micros_text(right: Seq<char>) -> Seq<char> {
    let t = if right.len() < 6 {
        right
    } else {
        right.take(6)
    };
    t + Seq::new((6 - t.len()) as nat, |i: int| '0')
}

/// The microseconds of a time text `SECS.FRACTION`: whole seconds and the
/// first six fraction digits (after trimming whitespace), or the error
/// message of the part that does not read. A text without exactly one `.`
/// has an invalid format.
pub open spec fn spec_time_text(s: Seq<char>) -> Result<int, Seq<char>> {
    let parts = split_on(s, '.');
    if parts.len() != 2 {
        Err("invalid time format"@)
    } else {
        match spec_parse_uint_result(parts[0], u64::MAX as nat) {
            Err(e) => Err(int_error_message(e)),
            Ok(secs) => match spec_parse_uint_result(
                micros_text(spec_trim(parts[1])),
                u64::MAX as nat,
            ) {
                Err(e) => Err(int_error_message(e)),
                Ok(micros) => Ok((secs * 1_000_000 + micros) as int),
            },
        }
    }
}

/// Ten to the power `n`.
pub open spec fn pow10(n: nat) -> nat
    decreases n,
{
    if n == 0 {
        1
    } else {
        10 * pow10((n - 1) as nat)
    }
}

/// Decimal digits write a number below ten to the power of their count.
proof fn lemma_digits_below_pow10(d: Seq<char>)
    requires
        crate::text::all_digit_chars(d),
    ensures
        crate::text::digit_chars_value(d) < pow10(d.len()),
    decreases d.len(),
{
    if d.len() > 0 {
        assert(crate::text::all_digit_chars(d.drop_last())) by {
            assert forall|i: int| 0 <= i < d.drop_last().len() implies '0' <= #[trigger] d.drop_last()[i]
                <= '9' by {
                assert(d.drop_last()[i] == d[i]);
            }
        }
        assert('0' <= d[d.len() - 1] <= '9');
        lemma_digits_below_pow10(d.drop_last());
    }
}

/// Scanning at most six characters, the value never exceeds 999999, so
/// the scan finds the same failure with any larger bound.
proof fn lemma_first_failure_same(d: Seq<char>, big: nat, k: int)
    requires
        d.len() <= 6,
        big >= 999_999,
        0 <= k <= d.len(),
        crate::text::all_digit_chars(d.take(k)),
    ensures
        crate::text::first_failure(d, 999_999, k) == crate::text::first_failure(d, big, k),
    decreases d.len() - k,
{
    if k < d.len() && '0' <= d[k] <= '9' {
        let t = d.take(k + 1);
        assert(crate::text::all_digit_chars(t)) by {
            assert forall|i: int| 0 <= i < t.len() implies '0' <= #[trigger] t[i] <= '9' by {
                if i < k {
                    assert(t[i] == d.take(k)[i]);
                }
            }
        }
        lemma_digits_below_pow10(t);
        assert(pow10(6) == 1_000_000) by {
            reveal_with_fuel(pow10, 7);
        }
        lemma_pow10_monotone(t.len(), 6);
        lemma_first_failure_same(d, big, k + 1);
    }
}

proof fn lemma_pow10_monotone(a: nat, b: nat)
    requires
        a <= b,
    ensures
        pow10(a) <= pow10(b),
    decreases b,
{
    if a < b {
        lemma_pow10_monotone(a, (b - 1) as nat);
    }
}

/// Six characters, the most that `micros_text` keeps, read as at most
/// 999999.
proof fn lemma_six_chars_bounded(t: Seq<char>)
    requires
        t.len() == 6,
    ensures
        spec_parse_uint_result(t, u64::MAX as nat) matches Ok(v) ==> v < 1_000_000,
{
    crate::text::lemma_parse_uint_result_bounded(t, 999_999);
    if t.len() > 0 && t != seq!['+'] {
        let d = if t[0] == '+' {
            t.skip(1)
        } else {
            t
        };
        assert(d.take(0) =~= Seq::<char>::empty());
        lemma_first_failure_same(d, u64::MAX as nat, 0);
    }
}

/// Reads a time text as microseconds. The text is the decimal text of a
/// number, so it is ASCII; the time must fit in 64 bits.
pub fn parse_time_text(s: &str) -> (r: Result<u64, String>)
    requires
        vstd::utf8::is_ascii_chars(s@),
        spec_time_text(s@) matches Ok(v) ==> v <= u64::MAX,
    ensures
        match spec_time_text(s@) {
            Ok(v) => r == Ok::<u64, String>(v as u64),
            Err(m) => r matches Err(e) && e@ == m,
        },
{
    let cs = chars_of(s);
    let parts = split_on_char(cs.as_slice(), '.');
    if parts.len() != 2 {
        return Err("invalid time format".to_string());
    }
    let secs = match parse_uint_result(parts[0].as_slice(), u64::MAX) {
        Ok(v) => v,
        Err(e) => {
            return Err(int_error_text(e));
        },
    };
    let right = trim(parts[1].as_slice());
    let k = if right.len() < 6 {
        right.len()
    } else {
        6
    };
    let mut digits = slice_copy(right.as_slice(), 0, k);
    while digits.len() < 6
        invariant
            digits.len() <= 6,
            digits@.take(k as int) == right@.take(k as int),
            k <= digits.len(),
            forall|j: int| k <= j < digits.len() ==> digits@[j] == '0',
        decreases 6 - digits.len(),
    {
        digits.push('0');
    }
    proof {
        let t = if right@.len() < 6 {
            right@
        } else {
            right@.take(6)
        };
        assert(t =~= right@.take(k as int));
        assert(digits@ =~= micros_text(right@));
        lemma_six_chars_bounded(digits@);
    }
    let micros = match parse_uint_result(digits.as_slice(), u64::MAX) {
        Ok(v) => v,
        Err(e) => {
            return Err(int_error_text(e));
        },
    };
    Ok(secs * 1_000_000 + micros)
}

} // verus!
