//! How one value change of one signal becomes bytes: a time delta packed
//! together with the value into a variable-length integer, followed, for a
//! multi-bit signal, by the value's bits or characters.
use crate::bytes::{lemma_var_len, var_bytes, write_bytes, write_u8, write_variant_u64};
use crate::types::FstWriteError;
use vstd::prelude::*;

verus! {

/// The three-bit code of a nine-valued logic character other than `0` and `1`.
pub open spec fn nine_value_code(c: u8) -> Option<u8> {
    if c == 0x78 || c == 0x58 {
        Some(0u8)  // x

    } else if c == 0x7a || c == 0x5a {
        Some(1u8)  // z

    } else if c == 0x68 || c == 0x48 {
        Some(2u8)  // h

    } else if c == 0x75 || c == 0x55 {
        Some(3u8)  // u

    } else if c == 0x77 || c == 0x57 {
        Some(4u8)  // w

    } else if c == 0x6c || c == 0x4c {
        Some(5u8)  // l

    } else if c == 0x2d {
        Some(6u8)  // -

    } else if c == 0x3f {
        Some(7u8)  // ?

    } else {
        None
    }
}

/// `c` is `0` or `1`.
pub open spec fn is_bit_char(c: u8) -> bool {
    c == 0x30 || c == 0x31
}

/// Every character of `s` is `0` or `1`.
pub open spec fn all_digital(s: Seq<u8>) -> bool {
    forall|i: int| 0 <= i < s.len() ==> is_bit_char(#[trigger] s[i])
}

/// The integer that encodes a change of a one-bit signal to `c`, `delta`
/// time steps after its previous change: two tag bits for `0` and `1`,
/// four for the other logic levels.
pub open spec fn one_bit_vli(delta: nat, c: u8) -> Option<nat> {
    if is_bit_char(c) {
        Some((delta * 4 + (c - 0x30) * 2) as nat)
    } else if nine_value_code(c) is Some {
        Some((delta * 16 + nine_value_code(c)->0 * 2 + 1) as nat)
    } else {
        None
    }
}

/// 1 where position `i` of `s` holds `1`, else 0 (also past the end).
pub open spec fn bit_at(s: Seq<u8>, i: int) -> nat {
    if 0 <= i < s.len() && s[i] == 0x31 {
        1
    } else {
        0
    }
}

/// Byte `k` of the packed form: characters `8k` to `8k + 7`, first one in the
/// most significant bit.
pub open spec fn packed_byte(s: Seq<u8>, k: int) -> u8 {
    (bit_at(s, 8 * k) * 128 + bit_at(s, 8 * k + 1) * 64 + bit_at(s, 8 * k + 2) * 32 + bit_at(
        s,
        8 * k + 3,
    ) * 16 + bit_at(s, 8 * k + 4) * 8 + bit_at(s, 8 * k + 5) * 4 + bit_at(s, 8 * k + 6) * 2
        + bit_at(s, 8 * k + 7)) as u8
}

/// A string of `0` and `1` packed eight to a byte, the last byte padded
/// with zeros.
pub open spec fn packed_bits(s: Seq<u8>) -> Seq<u8> {
    Seq::new(((s.len() + 7) / 8) as nat, |k: int| packed_byte(s, k))
}

/// The bytes of a change of a multi-bit signal to `s`, `delta` time steps
/// after its previous change.
pub open spec fn multi_bit_bytes(delta: nat, s: Seq<u8>) -> Seq<u8> {
    if all_digital(s) {
        var_bytes(delta * 2) + packed_bits(s)
    } else {
        var_bytes(delta * 2 + 1) + s
    }
}

/// What a value shorter than its signal becomes: padded on the left to
/// `len` characters, with `0` after a leading `0` or `1`, with a copy of a
/// leading `x`, `X`, `z` or `Z`; nothing for any other leading character.
pub open spec fn expand_spec(v: Seq<u8>, len: nat) -> Option<Seq<u8>> {
    if v.len() == 0 || v.len() >= len {
        None
    } else if is_bit_char(v[0]) {
        Some(Seq::new((len - v.len()) as nat, |i: int| 0x30u8) + v)
    } else if v[0] == 0x78 || v[0] == 0x58 || v[0] == 0x7a || v[0] == 0x5a {
        Some(Seq::new((len - v.len()) as nat, |i: int| v[0]) + v)
    } else {
        None
    }
}

/// A value brought to a signal's `len` characters, or why it cannot be. A
/// real_valued takes exactly its 8 bytes; a shorter bit vector value is padded.
pub open spec fn normalize(value: Seq<u8>, len: nat, real_valued: bool) -> Result<
    Seq<u8>,
    FstWriteError,
> {
    if value.len() == len {
        Ok(value)
    } else if real_valued {
        Err(FstWriteError::InvalidValueLength(len as usize, value.len() as usize))
    } else if value.len() > len || value.len() == 0 {
        Err(FstWriteError::InvalidValueLength(len as usize, value.len() as usize))
    } else {
        match expand_spec(value, len) {
            Some(e) => Ok(e),
            None => Err(FstWriteError::InvalidCharacter(value[0] as char)),
        }
    }
}

/// The bytes of a change of a real_valued signal to the 8 bytes `val`, `delta`
/// time steps after its previous change: bit 0 clear, then the bytes.
pub open spec fn real_bytes(delta: nat, val: Seq<u8>) -> Seq<u8> {
    var_bytes(delta * 2) + val
}

/// The bytes of a change of a signal to `val`, `delta` time steps after its
/// previous change: the real_valued form for a real_valued, else the one-bit form for a
/// value of one character.
pub open spec fn change_bytes(delta: nat, val: Seq<u8>, real_valued: bool) -> Option<Seq<u8>> {
    if real_valued {
        Some(real_bytes(delta, val))
    } else if val.len() == 1 {
        match one_bit_vli(delta, val[0]) {
            Some(vli) => Some(var_bytes(vli)),
            None => None,
        }
    } else {
        Some(multi_bit_bytes(delta, val))
    }
}

pub proof fn lemma_change_bytes_len(delta: nat, val: Seq<u8>, real_valued: bool)
    requires
        delta <= u32::MAX,
        val.len() >= 1,
    ensures
        change_bytes(delta, val, real_valued) matches Some(enc) ==> 1 <= enc.len() <= 10 + val.len(),
{
    lemma_var_len(delta * 2);
    lemma_var_len(delta * 2 + 1);
    if val.len() == 1 {
        match one_bit_vli(delta, val[0]) {
            Some(vli) => {
                lemma_var_len(vli);
            },
            None => {},
        }
    }
}

/// The three-bit code of a nine-valued logic character other than `0` and `1`.
pub fn encode_9_value(value: u8) -> (r: Option<u8>)
    ensures
        r == nine_value_code(value),
{
    match value {
        0x78 | 0x58 => Some(0),
        0x7a | 0x5a => Some(1),
        0x68 | 0x48 => Some(2),
        0x75 | 0x55 => Some(3),
        0x77 | 0x57 => Some(4),
        0x6c | 0x4c => Some(5),
        0x2d => Some(6),
        0x3f => Some(7),
        _ => None,
    }
}

/// Whether every character of `values` is `0` or `1`.
pub fn is_digital(values: &[u8]) -> (r: bool)
    ensures
        r == all_digital(values@),
{
    let mut i: usize = 0;
    while i < values.len()
        invariant
            i <= values@.len(),
            forall|k: int| 0 <= k < i ==> is_bit_char(#[trigger] values@[k]),
        decreases values@.len() - i,
    {
        if values[i] != 0x30 && values[i] != 0x31 {
            return false;
        }
        i += 1;
    }
    true
}

/// Writes a change of a one-bit signal to `value`, `time_delta` time
/// steps after its previous change.
pub fn write_one_bit_signal(out: &mut Vec<u8>, time_delta: u64, value: u8) -> (r: Result<
    (),
    FstWriteError,
>)
    requires
        time_delta <= 0x0FFF_FFFF_FFFF_FFFF,
    ensures
        match one_bit_vli(time_delta as nat, value) {
            Some(vli) => r is Ok && final(out)@ == old(out)@ + var_bytes(vli),
            None => r == Err::<(), FstWriteError>(FstWriteError::InvalidCharacter(value as char))
                && final(out)@ == old(out)@,
        },
{
    let vli: u64 = if value == 0x30 || value == 0x31 {
        time_delta * 4 + ((value - 0x30) as u64) * 2
    } else {
        match encode_9_value(value) {
            Some(code) => time_delta * 16 + (code as u64) * 2 + 1,
            None => {
                return Err(FstWriteError::InvalidCharacter(value as char));
            },
        }
    };
    write_variant_u64(out, vli);
    Ok(())
}

/// Writes a change of a real_valued signal to the 8 little-endian bytes `value`,
/// `time_delta` time steps after its previous change.
pub fn write_real_signal(out: &mut Vec<u8>, time_delta: u64, value: &[u8])
    requires
        time_delta <= 0x7FFF_FFFF_FFFF_FFFF,
    ensures
        final(out)@ == old(out)@ + real_bytes(time_delta as nat, value@),
{
    write_variant_u64(out, time_delta * 2);
    write_bytes(out, value);
    assert(final(out)@ =~= old(out)@ + real_bytes(time_delta as nat, value@));
}

/// 1 where position `i` of `values` holds `1`, else 0.
fn bit_value(values: &[u8], i: usize) -> (r: u8)
    ensures
        r == bit_at(values@, i as int),
{
    if i < values.len() && values[i] == 0x31 {
        1
    } else {
        0
    }
}

/// Writes a change of a multi-bit signal to `values`, `time_delta` time
/// steps after its previous change: packed eight bits to a byte where every
/// character is `0` or `1`, else character by character.
pub fn write_multi_bit_signal(out: &mut Vec<u8>, time_delta: u64, values: &[u8])
    requires
        time_delta <= 0x7FFF_FFFF_FFFF_FFFF,
        values@.len() <= u32::MAX,
    ensures
        final(out)@ == old(out)@ + multi_bit_bytes(time_delta as nat, values@),
{
    let digital = is_digital(values);
    let tag: u64 = if digital {
        0
    } else {
        1
    };
    write_variant_u64(out, time_delta * 2 + tag);
    if digital {
        let ghost start = out@;
        let n = values.len() / 8 + if values.len() % 8 == 0 {
            0
        } else {
            1
        };
        assert(n == (values@.len() + 7) / 8);
        let mut k: usize = 0;
        while k < n
            invariant
                k <= n,
                n == (values@.len() + 7) / 8,
                n <= values@.len(),
                values@.len() <= u32::MAX,
                out@ == start + packed_bits(values@).subrange(0, k as int),
            decreases n - k,
        {
            assert(8 * n <= values@.len() + 7);
            assert(8 * k < values@.len());
            let b = k * 8;
            let byte = bit_value(values, b) * 128 + bit_value(values, b + 1) * 64 + bit_value(
                values,
                b + 2,
            ) * 32 + bit_value(values, b + 3) * 16 + bit_value(values, b + 4) * 8 + bit_value(
                values,
                b + 5,
            ) * 4 + bit_value(values, b + 6) * 2 + bit_value(values, b + 7);
            write_u8(out, byte);
            proof {
                assert(byte == packed_byte(values@, k as int));
                assert(packed_bits(values@).subrange(0, k + 1) =~= packed_bits(values@).subrange(
                    0,
                    k as int,
                ).push(packed_byte(values@, k as int)));
            }
            k += 1;
        }
        assert(packed_bits(values@).subrange(0, n as int) =~= packed_bits(values@));
    } else {
        write_bytes(out, values);
    }
}

/// Pads a value that is shorter than its signal's `len` characters, after
/// its leading character.
pub fn expand_special_vector_cases(value: &[u8], len: usize) -> (r: Option<Vec<u8>>)
    ensures
        match expand_spec(value@, len as nat) {
            Some(e) => r is Some && r->0@ == e,
            None => r is None,
        },
{
    if value.len() >= len || value.len() == 0 {
        return None;
    }
    let first = value[0];
    let pad = if first == 0x30 || first == 0x31 {
        0x30u8
    } else if first == 0x78 || first == 0x58 || first == 0x7a || first == 0x5a {
        first
    } else {
        return None;
    };
    let mut extended: Vec<u8> = Vec::with_capacity(len);
    let fill = len - value.len();
    let mut i: usize = 0;
    while i < fill
        invariant
            i <= fill,
            extended@ == Seq::new(i as nat, |k: int| pad),
        decreases fill - i,
    {
        extended.push(pad);
        i += 1;
        assert(extended@ =~= Seq::new(i as nat, |k: int| pad));
    }
    write_bytes(&mut extended, value);
    Some(extended)
}

} // verus!
