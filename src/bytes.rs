//! Byte-level encodings: big-endian integers and variable-length integers.
use vstd::prelude::*;

verus! {

/// The 8 big-endian bytes of `v`.
pub open spec fn u64_be(v: u64) -> Seq<u8> {
    seq![
        ((v / 0x100000000000000) % 256) as u8,
        ((v / 0x1000000000000) % 256) as u8,
        ((v / 0x10000000000) % 256) as u8,
        ((v / 0x100000000) % 256) as u8,
        ((v / 0x1000000) % 256) as u8,
        ((v / 0x10000) % 256) as u8,
        ((v / 0x100) % 256) as u8,
        (v % 256) as u8,
    ]
}

/// The 4 big-endian bytes of `v`.
pub open spec fn u32_be(v: u32) -> Seq<u8> {
    seq![
        ((v / 0x1000000) % 256) as u8,
        ((v / 0x10000) % 256) as u8,
        ((v / 0x100) % 256) as u8,
        (v % 256) as u8,
    ]
}

/// Unsigned LEB128: seven payload bits per byte, least significant group
/// first, the high bit set on every byte but the last.
pub open spec fn var_bytes(v: nat) -> Seq<u8>
    decreases v,
{
    if v < 128 {
        seq![v as u8]
    } else {
        seq![(v % 128 + 128) as u8] + var_bytes(v / 128)
    }
}

/// Signed LEB128: like `var_bytes`, but the sequence ends once the rest of
/// the number is a sign extension of bit 6 of the last byte.
pub open spec fn svar_bytes(v: int) -> Seq<u8>
    decreases (if v < 0 { -v } else { v }),
{
    if -64 <= v < 64 {
        seq![(v % 128) as u8]
    } else {
        seq![(v % 128 + 128) as u8] + svar_bytes(v / 128)
    }
}

/// `s` begins with the unsigned variable-length encoding of `v`.
pub open spec fn starts_with_var(s: Seq<u8>, v: nat) -> bool {
    var_bytes(v).len() <= s.len() && s.subrange(0, var_bytes(v).len() as int) == var_bytes(v)
}

pub proof fn lemma_var_len(v: nat)
    ensures
        1 <= var_bytes(v).len(),
        v < 128 <==> var_bytes(v).len() == 1,
        v < 0x4000 ==> var_bytes(v).len() <= 2,
        v < 0x20_0000 ==> var_bytes(v).len() <= 3,
        v < 0x1000_0000 ==> var_bytes(v).len() <= 4,
        v < 0x8_0000_0000 ==> var_bytes(v).len() <= 5,
        v < 0x400_0000_0000 ==> var_bytes(v).len() <= 6,
        v < 0x2_0000_0000_0000 ==> var_bytes(v).len() <= 7,
        v < 0x100_0000_0000_0000 ==> var_bytes(v).len() <= 8,
        v < 0x8000_0000_0000_0000 ==> var_bytes(v).len() <= 9,
        v < 0x40_0000_0000_0000_0000 ==> var_bytes(v).len() <= 10,
    decreases v,
{
    if v >= 128 {
        lemma_var_len(v / 128);
    }
}

/// Reading back what `write_variant_u64` wrote gives the same number and
/// the number of bytes written, 1 to 10, whatever follows it: the read stops
/// at the encoding's last byte, and the bytes up to it stand for the number.
pub proof fn lemma_variant_round_trip(v: u64, tail: Seq<u8>)
    ensures
        var_terminated(var_bytes(v as nat) + tail),
        1 <= var_bytes(v as nat).len() <= 10,
        forall|n: int|
            1 <= n <= var_bytes(v as nat).len() + tail.len() && (var_bytes(v as nat) + tail)[n
                - 1] < 128 && (forall|j: int|
                0 <= j < n - 1 ==> #[trigger] (var_bytes(v as nat) + tail)[j] >= 128) ==> n
                == var_bytes(v as nat).len() && var_value((var_bytes(v as nat) + tail).subrange(0, n))
                % 0x1_0000_0000_0000_0000 == v,
{
    let vb = var_bytes(v as nat);
    let s = vb + tail;
    lemma_var_len(v as nat);
    lemma_var_bytes_shape(v as nat);
    assert(s[vb.len() - 1] == vb[vb.len() - 1]);
    assert(s.subrange(0, vb.len() as int) =~= vb);
    assert(starts_with_var(s, v as nat));
    assert forall|n: int|
        1 <= n <= s.len() && s[n - 1] < 128 && (forall|j: int|
            0 <= j < n - 1 ==> #[trigger] s[j] >= 128) implies n == vb.len() && var_value(
        s.subrange(0, n),
    ) % 0x1_0000_0000_0000_0000 == v by {
        lemma_read_encoding(
            s,
            v as nat,
            n,
            (var_value(s.subrange(0, n)) % 0x1_0000_0000_0000_0000) as int,
        );
    }
}

/// Appends `b` to `out`.
pub fn write_bytes(out: &mut Vec<u8>, b: &[u8])
    ensures
        final(out)@ == old(out)@ + b@,
{
    let mut i: usize = 0;
    while i < b.len()
        invariant
            i <= b@.len(),
            out@ == old(out)@ + b@.subrange(0, i as int),
        decreases b@.len() - i,
    {
        out.push(b[i]);
        i += 1;
        assert(b@.subrange(0, i as int) =~= b@.subrange(0, i - 1 as int).push(b@[i - 1]));
    }
    assert(b@.subrange(0, b@.len() as int) =~= b@);
}

/// Writes `value` as one byte.
pub fn write_u8(out: &mut Vec<u8>, value: u8)
    ensures
        final(out)@ == old(out)@.push(value),
{
    out.push(value);
}

/// Writes the two's complement byte of `value`.
pub fn write_i8(out: &mut Vec<u8>, value: i8)
    ensures
        final(out)@ == old(out)@.push(value as u8),
{
    out.push(value as u8);
}

/// Writes `value` in big-endian order.
pub fn write_u32(out: &mut Vec<u8>, value: u32)
    ensures
        final(out)@ == old(out)@ + u32_be(value),
{
    out.push(((value / 0x1000000) % 256) as u8);
    out.push(((value / 0x10000) % 256) as u8);
    out.push(((value / 0x100) % 256) as u8);
    out.push((value % 256) as u8);
    assert(final(out)@ =~= old(out)@ + u32_be(value));
}

/// Writes `value` in big-endian order.
pub fn write_u64(out: &mut Vec<u8>, value: u64)
    ensures
        final(out)@ == old(out)@ + u64_be(value),
{
    out.push(((value / 0x100000000000000) % 256) as u8);
    out.push(((value / 0x1000000000000) % 256) as u8);
    out.push(((value / 0x10000000000) % 256) as u8);
    out.push(((value / 0x100000000) % 256) as u8);
    out.push(((value / 0x1000000) % 256) as u8);
    out.push(((value / 0x10000) % 256) as u8);
    out.push(((value / 0x100) % 256) as u8);
    out.push((value % 256) as u8);
    assert(final(out)@ =~= old(out)@ + u64_be(value));
}

/// Overwrites the 8 bytes at `pos` with `value` in big-endian order.
pub fn patch_u64(out: &mut Vec<u8>, pos: usize, value: u64)
    requires
        pos + 8 <= old(out)@.len(),
    ensures
        final(out)@ == old(out)@.subrange(0, pos as int) + u64_be(value) + old(out)@.subrange(
            pos + 8,
            old(out)@.len() as int,
        ),
{
    let ghost b = u64_be(value);
    let len = out.len();
    assert(pos + 8 <= len);
    out.set(pos, ((value / 0x100000000000000) % 256) as u8);
    out.set(pos + 1, ((value / 0x1000000000000) % 256) as u8);
    out.set(pos + 2, ((value / 0x10000000000) % 256) as u8);
    out.set(pos + 3, ((value / 0x100000000) % 256) as u8);
    out.set(pos + 4, ((value / 0x1000000) % 256) as u8);
    out.set(pos + 5, ((value / 0x10000) % 256) as u8);
    out.set(pos + 6, ((value / 0x100) % 256) as u8);
    out.set(pos + 7, (value % 256) as u8);
    assert(final(out)@ =~= old(out)@.subrange(0, pos as int) + b + old(out)@.subrange(
        pos + 8,
        old(out)@.len() as int,
    ));
}

/// Writes `value` as an unsigned variable-length integer and returns the
/// number of bytes written.
pub fn write_variant_u64(out: &mut Vec<u8>, value: u64) -> (n: usize)
    ensures
        final(out)@ == old(out)@ + var_bytes(value as nat),
        n == var_bytes(value as nat).len(),
        1 <= n <= 10,
{
    proof {
        lemma_var_len(value as nat);
    }
    let ghost start = out@;
    let mut rest = value;
    let mut n: usize = 1;
    while rest >= 128
        invariant
            start + var_bytes(value as nat) == out@ + var_bytes(rest as nat),
            out@.len() - start.len() == n - 1,
            n + var_bytes(rest as nat).len() == var_bytes(value as nat).len() + 1,
            var_bytes(value as nat).len() <= 10,
        decreases rest,
    {
        let ghost before = out@;
        out.push((rest % 128 + 128) as u8);
        proof {
            lemma_var_len((rest / 128) as nat);
            assert(var_bytes(rest as nat) == seq![(rest % 128 + 128) as u8] + var_bytes(
                (rest / 128) as nat,
            ));
            assert(before + var_bytes(rest as nat) =~= out@ + var_bytes((rest / 128) as nat));
        }
        rest = rest / 128;
        n = n + 1;
    }
    out.push(rest as u8);
    proof {
        assert(var_bytes(rest as nat) == seq![rest as u8]);
    }
    n
}

/// The number that the low seven bits of the bytes of `s` stand for, the
/// first byte least significant.
pub open spec fn var_value(s: Seq<u8>) -> nat
    decreases s.len(),
{
    if s.len() == 0 {
        0
    } else {
        (s[0] % 128) as nat + 128 * var_value(s.drop_first())
    }
}

/// 128 to the power `n`.
pub open spec fn pow128(n: nat) -> nat
    decreases n,
{
    if n == 0 {
        1
    } else {
        128 * pow128((n - 1) as nat)
    }
}

/// One of the first ten bytes of `s` has its high bit clear.
pub open spec fn var_terminated(s: Seq<u8>) -> bool {
    exists|k: int| 0 <= k < 10 && k < s.len() && s[k] < 128
}

pub proof fn lemma_var_value_push(s: Seq<u8>, b: u8)
    ensures
        var_value(s.push(b)) == var_value(s) + (b % 128) as nat * pow128(s.len()),
    decreases s.len(),
{
    assert(var_value(Seq::<u8>::empty()) == 0);
    assert(s.push(b)[0] == if s.len() == 0 {
        b
    } else {
        s[0]
    });
    if s.len() == 0 {
        assert(s.push(b).drop_first() =~= Seq::<u8>::empty());
        assert(pow128(0) == 1);
    } else {
        assert(s.push(b).drop_first() =~= s.drop_first().push(b));
        lemma_var_value_push(s.drop_first(), b);
        assert(pow128(s.len()) == 128 * pow128(s.drop_first().len()));
        assert(128 * ((b % 128) as nat * pow128(s.drop_first().len())) == (b % 128) as nat
            * pow128(s.len())) by (nonlinear_arith)
            requires
                pow128(s.len()) == 128 * pow128(s.drop_first().len()),
        ;
    }
}

/// In an encoding every byte but the last has its high bit set, and the
/// bytes stand for the encoded number.
pub proof fn lemma_var_bytes_shape(v: nat)
    ensures
        var_value(var_bytes(v)) == v,
        var_bytes(v).last() < 128,
        forall|j: int| 0 <= j < var_bytes(v).len() - 1 ==> #[trigger] var_bytes(v)[j] >= 128,
    decreases v,
{
    assert(var_value(Seq::<u8>::empty()) == 0);
    if v >= 128 {
        lemma_var_bytes_shape(v / 128);
        lemma_var_len(v / 128);
        let vb = var_bytes(v);
        assert(vb.drop_first() =~= var_bytes(v / 128));
        assert(vb[0] % 128 == v % 128);
        assert(var_value(vb) == (vb[0] % 128) as nat + 128 * var_value(vb.drop_first()));
        assert forall|j: int| 0 <= j < vb.len() - 1 implies #[trigger] vb[j] >= 128 by {
            if j > 0 {
                assert(vb[j] == var_bytes(v / 128)[j - 1]);
            }
        }
    } else {
        assert(var_bytes(v).drop_first() =~= Seq::<u8>::empty());
        assert(var_bytes(v)[0] == v);
    }
}

/// Reading the start of `s`, which begins with the encoding of `v`, stops
/// at the encoding's last byte and gives `v`.
pub proof fn lemma_read_encoding(s: Seq<u8>, v: nat, n: int, value: int)
    requires
        starts_with_var(s, v),
        v < 0x1_0000_0000_0000_0000,
        1 <= n <= s.len(),
        s[n - 1] < 128,
        forall|j: int| 0 <= j < n - 1 ==> #[trigger] s[j] >= 128,
        value == var_value(s.subrange(0, n)) % 0x1_0000_0000_0000_0000,
    ensures
        n == var_bytes(v).len(),
        value == v,
{
    let vb = var_bytes(v);
    lemma_var_bytes_shape(v);
    lemma_var_len(v);
    assert(s[vb.len() - 1] == vb[vb.len() - 1]);
    if n - 1 < vb.len() - 1 {
        assert(s[n - 1] == vb[n - 1]);
    }
    assert(n == vb.len());
    assert(s.subrange(0, n) =~= vb);
}

/// Reads an unsigned variable-length integer from the start of `input` and
/// returns it with the number of bytes it took: up to the first byte with
/// its high bit clear, bits beyond the 64th dropped.
pub fn read_variant_u64(input: &[u8]) -> (r: (u64, usize))
    requires
        var_terminated(input@),
    ensures
        1 <= r.1 <= 10,
        r.1 <= input@.len(),
        input@[r.1 - 1] < 128,
        forall|j: int| 0 <= j < r.1 - 1 ==> #[trigger] input@[j] >= 128,
        r.0 == var_value(input@.subrange(0, r.1 as int)) % 0x1_0000_0000_0000_0000,
{
    let mut res: u64 = 0;
    let mut mult: u64 = 1;
    let mut ii: usize = 0;
    proof {
        assert(input@.subrange(0, 0) =~= Seq::<u8>::empty());
    }
    loop
        invariant
            var_terminated(input@),
            ii < 10,
            ii < input@.len(),
            forall|j: int| 0 <= j < ii ==> #[trigger] input@[j] >= 128,
            mult == pow128(ii as nat),
            mult <= 0x8000_0000_0000_0000,
            res == var_value(input@.subrange(0, ii as int)) % 0x1_0000_0000_0000_0000,
        decreases 10 - ii,
    {
        let byte = input[ii];
        let term = ((byte % 128) as u64).wrapping_mul(mult);
        proof {
            let pre = input@.subrange(0, ii as int);
            assert(input@.subrange(0, ii + 1) =~= pre.push(byte));
            lemma_var_value_push(pre, byte);
            vstd::arithmetic::div_mod::lemma_add_mod_noop(
                var_value(pre) as int,
                ((byte % 128) as nat * pow128(ii as nat)) as int,
                0x1_0000_0000_0000_0000,
            );
        }
        res = res.wrapping_add(term);
        if byte < 128 {
            return (res, ii + 1);
        }
        proof {
            let k = choose|k: int| 0 <= k < 10 && k < input@.len() && input@[k] < 128;
            assert(k > ii);
            assert(pow128((ii + 1) as nat) == 128 * pow128(ii as nat));
            if ii >= 9 {
                assert(false);
            }
            assert(mult * 128 <= 0x8000_0000_0000_0000) by {
                lemma_pow128_bound(ii as nat);
            }
        }
        mult = mult * 128;
        ii = ii + 1;
    }
}

proof fn lemma_pow128_bound(n: nat)
    requires
        n <= 8,
    ensures
        pow128(n) * 128 <= 0x8000_0000_0000_0000,
    decreases 8 - n,
{
    if n < 8 {
        lemma_pow128_bound(n + 1);
        assert(pow128(n + 1) == 128 * pow128(n));
    } else {
        reveal_with_fuel(pow128, 9);
    }
}

/// Writes `value` as a signed variable-length integer and returns the
/// number of bytes written.
pub fn write_variant_i64(out: &mut Vec<u8>, value: i64) -> (n: usize)
    ensures
        final(out)@ == old(out)@ + svar_bytes(value as int),
        n == svar_bytes(value as int).len(),
{
    let neg = value < 0;
    // the magnitude that is left to encode; for a negative value, its bitwise complement
    let mut w: u64 = if neg {
        (-(value + 1)) as u64
    } else {
        value as u64
    };
    let ghost start = out@;
    let start_len = out.len();
    while w >= 64
        invariant
            start + svar_bytes(value as int) == out@ + svar_bytes(
                if neg { -(w as int) - 1 } else { w as int },
            ),
            start_len == start.len(),
            start.len() <= out@.len(),
        decreases w,
    {
        let ghost cur: int = if neg { -(w as int) - 1 } else { w as int };
        let low = w % 128;
        let byte = if neg { (127 - low) as u8 } else { low as u8 };
        out.push(byte + 128);
        proof {
            assert(!(-64 <= cur < 64));
            assert(cur % 128 == byte as int);
            let next: int = if neg { -((w / 128) as int) - 1 } else { (w / 128) as int };
            assert(cur / 128 == next);
            assert(svar_bytes(cur) == seq![(cur % 128 + 128) as u8] + svar_bytes(cur / 128));
        }
        w = w / 128;
        proof {
            assert(out@ + svar_bytes(if neg { -(w as int) - 1 } else { w as int }) =~= start
                + svar_bytes(value as int));
        }
    }
    let ghost cur: int = if neg { -(w as int) - 1 } else { w as int };
    let byte = if neg { (127 - w) as u8 } else { w as u8 };
    out.push(byte);
    proof {
        assert(-64 <= cur < 64);
        assert(cur % 128 == byte as int);
        assert(svar_bytes(cur) == seq![(cur % 128) as u8]);
        assert(out@ =~= start + svar_bytes(value as int));
    }
    out.len() - start_len
}

/// `s` with the bytes from `start` on replaced by `val`.
pub open spec fn splice(s: Seq<u8>, start: int, val: Seq<u8>) -> Seq<u8> {
    s.subrange(0, start) + val + s.subrange(start + val.len(), s.len() as int)
}

/// Overwrites `dst` from `start` on with `src`.
pub fn copy_into(dst: &mut Vec<u8>, start: usize, src: &[u8])
    requires
        start + src@.len() <= old(dst)@.len(),
    ensures
        final(dst)@ == splice(old(dst)@, start as int, src@),
{
    let dst_len = dst.len();
    let mut k: usize = 0;
    while k < src.len()
        invariant
            k <= src@.len(),
            dst_len == dst@.len(),
            start + src@.len() <= dst@.len(),
            dst@.len() == old(dst)@.len(),
            dst@ == splice(old(dst)@, start as int, src@.subrange(0, k as int)),
        decreases src@.len() - k,
    {
        dst.set(start + k, src[k]);
        k += 1;
        assert(dst@ =~= splice(old(dst)@, start as int, src@.subrange(0, k as int)));
    }
    assert(src@.subrange(0, src@.len() as int) =~= src@);
}

} // verus!
