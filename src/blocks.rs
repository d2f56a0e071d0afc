//! The blocks of an FST file other than value-change sections: the header,
//! the hierarchy records and their compressed block, and the geometry block.
use crate::bytes::{
    patch_u64, u64_be, var_bytes, write_bytes, write_i8, write_u64, write_u8, write_variant_u64,
};
use crate::types::{
    FstFileType, FstScopeType, FstSignalType, FstVarDirection, FstVarType, FstWriteError,
};
use vstd::prelude::*;
use vstd::string::StringSliceAdditionalSpecFns;

verus! {

pub const BLOCK_HEADER: u8 = 0;
pub const BLOCK_GEOMETRY: u8 = 3;
pub const BLOCK_HIERARCHY_LZ4: u8 = 6;
pub const BLOCK_VC_DATA_DYNAMIC_ALIAS2: u8 = 8;

/// The length of the header section, without its tag byte.
pub const HEADER_LENGTH: u64 = 329;
pub const HEADER_VERSION_MAX_LEN: usize = 128;
pub const HEADER_DATE_MAX_LEN: usize = 119;
pub const HIERARCHY_TPE_VCD_SCOPE: u8 = 254;
pub const HIERARCHY_TPE_VCD_UP_SCOPE: u8 = 255;
/// A name in the hierarchy has at most this many bytes.
pub const HIERARCHY_NAME_MAX_SIZE: usize = 512;

/// The little-endian bytes of the double closest to e, by which a reader
/// finds the byte order of doubles.
pub open spec fn endian_test_bytes() -> Seq<u8> {
    seq![0x69u8, 0x57u8, 0x14u8, 0x8bu8, 0x0au8, 0xbfu8, 0x05u8, 0x40u8]
}

/// The bytes of a string followed by a zero terminator.
pub open spec fn c_str_bytes(s: Seq<u8>) -> Seq<u8> {
    s.push(0u8)
}

/// The bytes of a string padded with zeros to `n` bytes in all.
pub open spec fn c_str_fixed_bytes(s: Seq<u8>, n: nat) -> Seq<u8> {
    s + Seq::new((n - s.len()) as nat, |i: int| 0u8)
}

/// Writes the bytes of `value` and a zero terminator.
pub fn write_c_str(out: &mut Vec<u8>, value: &str)
    ensures
        final(out)@ == old(out)@ + c_str_bytes(value.spec_bytes()),
{
    write_bytes(out, value.as_bytes());
    write_u8(out, 0);
    assert(final(out)@ =~= old(out)@ + c_str_bytes(value.spec_bytes()));
}

/// Writes the bytes of `value` padded with zeros to `max_len` bytes; fails
/// where `value` leaves no room for a terminator.
pub fn write_c_str_fixed_length(out: &mut Vec<u8>, value: &str, max_len: usize) -> (r: Result<
    (),
    FstWriteError,
>)
    ensures
        value.spec_bytes().len() < max_len ==> r is Ok && final(out)@ == old(out)@
            + c_str_fixed_bytes(value.spec_bytes(), max_len as nat),
        value.spec_bytes().len() >= max_len ==> (r matches Err(FstWriteError::StringTooLong(n, s))
            && n == max_len && s@ == value@) && final(out)@ == old(out)@,
{
    let bytes = value.as_bytes();
    if bytes.len() >= max_len {
        return Err(FstWriteError::StringTooLong(max_len, value.to_owned()));
    }
    write_bytes(out, bytes);
    let ghost mid = out@;
    let fill = max_len - bytes.len();
    let mut i: usize = 0;
    while i < fill
        invariant
            i <= fill,
            out@ == mid + Seq::new(i as nat, |k: int| 0u8),
        decreases fill - i,
    {
        out.push(0);
        i += 1;
        assert(out@ =~= mid + Seq::new(i as nat, |k: int| 0u8));
    }
    assert(final(out)@ =~= old(out)@ + c_str_fixed_bytes(value.spec_bytes(), max_len as nat));
    Ok(())
}

/// The UTF-8 bytes of a string.
#[verifier::opaque]
pub open spec fn utf8(s: Seq<char>) -> Seq<u8> {
    vstd::utf8::encode_utf8(s)
}

/// The fields of the header block.
pub struct Header {
    pub start_time: u64,
    pub end_time: u64,
    pub memory_used_by_writer: u64,
    pub scope_count: u64,
    pub var_count: u64,
    /// the number of signals, aliases not counted
    pub max_signal_id: u64,
    pub vc_section_count: u64,
    pub timescale_exponent: i8,
    pub version: String,
    pub date: String,
    pub file_type: FstFileType,
    pub time_zero: u64,
}

/// The version and the date fit their fixed-length fields.
pub open spec fn header_strings_fit(h: Header) -> bool {
    utf8(h.version@).len() < HEADER_VERSION_MAX_LEN && utf8(h.date@).len() < HEADER_DATE_MAX_LEN
}

/// The header fields before the version string.
pub open spec fn header_numbers(h: Header) -> Seq<u8> {
    seq![BLOCK_HEADER] + u64_be(HEADER_LENGTH) + u64_be(h.start_time) + u64_be(h.end_time)
        + endian_test_bytes() + u64_be(h.memory_used_by_writer) + u64_be(h.scope_count) + u64_be(
        h.var_count,
    ) + u64_be(h.max_signal_id) + u64_be(h.vc_section_count) + seq![h.timescale_exponent as u8]
}

/// The header block: 330 bytes with its tag.
#[verifier::opaque]
pub open spec fn header_bytes(h: Header) -> Seq<u8> {
    header_numbers(h) + c_str_fixed_bytes(utf8(h.version@), HEADER_VERSION_MAX_LEN as nat)
        + c_str_fixed_bytes(utf8(h.date@), HEADER_DATE_MAX_LEN as nat) + seq![
        h.file_type.code_spec(),
    ] + u64_be(h.time_zero)
}

pub proof fn lemma_header_len(h: Header)
    requires
        header_strings_fit(h),
    ensures
        header_bytes(h).len() == HEADER_LENGTH + 1,
{
    reveal(header_bytes);
    let v = c_str_fixed_bytes(utf8(h.version@), HEADER_VERSION_MAX_LEN as nat);
    let d = c_str_fixed_bytes(utf8(h.date@), HEADER_DATE_MAX_LEN as nat);
    assert(v.len() == 128);
    assert(d.len() == 119);
    assert(header_numbers(h).len() == 74);
}

pub proof fn lemma_utf8_of_str(s: &str)
    ensures
        utf8(s@) == s.spec_bytes(),
{
    reveal(utf8);
}

/// Writes the header fields before the version string.
fn write_header_numbers(out: &mut Vec<u8>, header: &Header)
    ensures
        final(out)@ == old(out)@ + header_numbers(*header),
{
    write_u8(out, BLOCK_HEADER);
    write_u64(out, HEADER_LENGTH);
    write_u64(out, header.start_time);
    write_u64(out, header.end_time);
    // the double e, little endian
    write_u8(out, 0x69);
    write_u8(out, 0x57);
    write_u8(out, 0x14);
    write_u8(out, 0x8b);
    write_u8(out, 0x0a);
    write_u8(out, 0xbf);
    write_u8(out, 0x05);
    write_u8(out, 0x40);
    write_u64(out, header.memory_used_by_writer);
    write_u64(out, header.scope_count);
    write_u64(out, header.var_count);
    write_u64(out, header.max_signal_id);
    write_u64(out, header.vc_section_count);
    write_i8(out, header.timescale_exponent);
    assert(final(out)@ =~= old(out)@ + header_numbers(*header));
}

/// Writes the header block; fails where the version or the date does not fit.
#[verifier::rlimit(20)]
pub fn write_header(out: &mut Vec<u8>, header: &Header) -> (r: Result<(), FstWriteError>)
    ensures
        header_strings_fit(*header) ==> r is Ok && final(out)@ == old(out)@ + header_bytes(*header),
        utf8(header.version@).len() >= HEADER_VERSION_MAX_LEN ==> (r matches Err(
            FstWriteError::StringTooLong(n, s),
        ) && n == HEADER_VERSION_MAX_LEN && s@ == header.version@),
        utf8(header.version@).len() < HEADER_VERSION_MAX_LEN && utf8(header.date@).len()
            >= HEADER_DATE_MAX_LEN ==> (r matches Err(FstWriteError::StringTooLong(n, s)) && n
            == HEADER_DATE_MAX_LEN && s@ == header.date@),
{
    write_header_numbers(out, header);
    let version = header.version.as_str();
    let date = header.date.as_str();
    proof {
        lemma_utf8_of_str(version);
        lemma_utf8_of_str(date);
    }
    let r1 = write_c_str_fixed_length(out, version, HEADER_VERSION_MAX_LEN);
    if r1.is_err() {
        return r1;
    }
    let r2 = write_c_str_fixed_length(out, date, HEADER_DATE_MAX_LEN);
    if r2.is_err() {
        return r2;
    }
    let ghost mid3 = out@;
    write_u8(out, header.file_type.code());
    write_u64(out, header.time_zero);
    assert(out@ =~= mid3 + seq![header.file_type.code_spec()] + u64_be(header.time_zero));
    assert(final(out)@ =~= old(out)@ + header_bytes(*header)) by {
        reveal(header_bytes);
    }
    Ok(())
}

/// A scope record of the hierarchy.
pub open spec fn scope_record(name: Seq<u8>, component: Seq<u8>, tpe: FstScopeType) -> Seq<u8> {
    seq![HIERARCHY_TPE_VCD_SCOPE, tpe.code_spec()] + c_str_bytes(name) + c_str_bytes(component)
}

/// The record that closes the innermost scope.
pub open spec fn up_scope_record() -> Seq<u8> {
    seq![HIERARCHY_TPE_VCD_UP_SCOPE]
}

/// The length a variable record gives: zero for a real, three times the
/// width plus two for a port, else the width.
pub open spec fn raw_length(tpe: FstVarType, signal_tpe: FstSignalType) -> nat {
    if signal_tpe.is_real() {
        0
    } else if tpe == FstVarType::Port {
        (3 * signal_tpe.width() + 2) as nat
    } else {
        signal_tpe.width() as nat
    }
}

/// A variable record of the hierarchy; `alias` is the handle it shares, or zero.
pub open spec fn var_record(
    tpe: FstVarType,
    direction: FstVarDirection,
    name: Seq<u8>,
    signal_tpe: FstSignalType,
    alias: nat,
) -> Seq<u8> {
    seq![tpe.code_spec(), direction.code_spec()] + c_str_bytes(name) + var_bytes(
        raw_length(tpe, signal_tpe),
    ) + var_bytes(alias)
}

/// Writes a scope record.
pub fn write_hierarchy_scope(out: &mut Vec<u8>, name: &str, component: &str, tpe: FstScopeType)
    ensures
        final(out)@ == old(out)@ + scope_record(name.spec_bytes(), component.spec_bytes(), tpe),
{
    write_u8(out, HIERARCHY_TPE_VCD_SCOPE);
    write_u8(out, tpe.code());
    write_c_str(out, name);
    write_c_str(out, component);
    assert(final(out)@ =~= old(out)@ + scope_record(
        name.spec_bytes(),
        component.spec_bytes(),
        tpe,
    ));
}

/// Writes the record that closes the innermost scope.
pub fn write_hierarchy_up_scope(out: &mut Vec<u8>)
    ensures
        final(out)@ == old(out)@ + up_scope_record(),
{
    write_u8(out, HIERARCHY_TPE_VCD_UP_SCOPE);
    assert(final(out)@ =~= old(out)@ + up_scope_record());
}

/// Writes a variable record; `alias` is the handle it shares, or zero.
pub fn write_hierarchy_var(
    out: &mut Vec<u8>,
    tpe: FstVarType,
    direction: FstVarDirection,
    name: &str,
    signal_tpe: FstSignalType,
    alias: u32,
)
    ensures
        final(out)@ == old(out)@ + var_record(
            tpe,
            direction,
            name.spec_bytes(),
            signal_tpe,
            alias as nat,
        ),
{
    write_u8(out, tpe.code());
    write_u8(out, direction.code());
    write_c_str(out, name);
    let length: u64 = if signal_tpe.real_valued {
        0
    } else if matches!(tpe, FstVarType::Port) {
        3 * (signal_tpe.width as u64) + 2
    } else {
        signal_tpe.width as u64
    };
    write_variant_u64(out, length);
    write_variant_u64(out, alias as u64);
    assert(final(out)@ =~= old(out)@ + var_record(
        tpe,
        direction,
        name.spec_bytes(),
        signal_tpe,
        alias as nat,
    ));
}

/// The LZ4 block that `lz4_flex` makes of `b`.
pub uninterp spec fn lz4_block_of(b: Seq<u8>) -> Seq<u8>;

/// The largest hierarchy that is compressed: `lz4_flex` sizes its output
/// buffer as `input_len * 110 / 100`, which must not overflow a 32-bit `usize`.
pub const HIERARCHY_MAX_LEN: usize = 0x0200_0000;

/// Relies on lz4_flex::compress: the LZ4 block (without a size prefix) of
/// the input, which depends on the input bytes alone.
#[verifier::external_body]
fn lz4_compress(b: &[u8]) -> (r: Vec<u8>)
    requires
        b@.len() <= HIERARCHY_MAX_LEN,
    ensures
        r@ == lz4_block_of(b@),
{
    lz4_flex::compress(b)
}

/// The hierarchy block: the section length, the uncompressed length, then
/// the compressed records.
pub open spec fn hierarchy_block(uncompressed_len: nat, compressed: Seq<u8>) -> Seq<u8> {
    seq![BLOCK_HIERARCHY_LZ4] + u64_be((16 + compressed.len()) as u64) + u64_be(
        uncompressed_len as u64,
    ) + compressed
}

/// Writes the hierarchy block around records that were already compressed.
pub fn write_hierarchy_block(out: &mut Vec<u8>, uncompressed_len: u64, compressed: &[u8])
    ensures
        final(out)@ == old(out)@ + hierarchy_block(uncompressed_len as nat, compressed@),
{
    write_u8(out, BLOCK_HIERARCHY_LZ4);
    let start = out.len();
    write_u64(out, 0);
    write_u64(out, uncompressed_len);
    write_bytes(out, compressed);
    let end = out.len();
    patch_u64(out, start, (end - start) as u64);
    assert(final(out)@ =~= old(out)@ + hierarchy_block(uncompressed_len as nat, compressed@));
}

/// Compresses the hierarchy records `bytes` and writes them as the
/// hierarchy block.
pub fn write_hierarchy_bytes(out: &mut Vec<u8>, bytes: &[u8])
    requires
        bytes@.len() <= HIERARCHY_MAX_LEN,
    ensures
        final(out)@ == old(out)@ + hierarchy_block(bytes@.len(), lz4_block_of(bytes@)),
{
    let compressed = lz4_compress(bytes);
    write_hierarchy_block(out, bytes.len() as u64, compressed.as_slice());
}

/// The widths of the signals, one variable-length integer each.
pub open spec fn geometry_bytes(signals: Seq<FstSignalType>) -> Seq<u8>
    decreases signals.len(),
{
    if signals.len() == 0 {
        Seq::empty()
    } else {
        geometry_bytes(signals.drop_last()) + var_bytes(
            signals.last().to_file_format_spec() as nat,
        )
    }
}

/// The geometry block: the section length, the length of the widths, the
/// number of signals, then the widths.
pub open spec fn geometry_block(signals: Seq<FstSignalType>) -> Seq<u8> {
    seq![BLOCK_GEOMETRY] + u64_be((24 + geometry_bytes(signals).len()) as u64) + u64_be(
        geometry_bytes(signals).len() as u64,
    ) + u64_be(signals.len() as u64) + geometry_bytes(signals)
}

/// Writes the geometry block of `signals`.
pub fn write_geometry(out: &mut Vec<u8>, signals: &[FstSignalType])
    ensures
        final(out)@ == old(out)@ + geometry_block(signals@),
{
    write_u8(out, BLOCK_GEOMETRY);
    let start = out.len();
    write_u64(out, 0);
    write_u64(out, 0);
    write_u64(out, signals.len() as u64);
    let ghost mid = out@;
    let mut i: usize = 0;
    while i < signals.len()
        invariant
            i <= signals@.len(),
            out@ == mid + geometry_bytes(signals@.subrange(0, i as int)),
            mid.len() == start + 24,
        decreases signals@.len() - i,
    {
        write_variant_u64(out, signals[i].to_file_format() as u64);
        proof {
            assert(signals@.subrange(0, i + 1).drop_last() =~= signals@.subrange(0, i as int));
        }
        i += 1;
    }
    assert(signals@.subrange(0, signals@.len() as int) =~= signals@);
    let end = out.len();
    let section_len = (end - start) as u64;
    patch_u64(out, start, section_len);
    patch_u64(out, start + 8, section_len - 24);
    assert(final(out)@ =~= old(out)@ + geometry_block(signals@));
}

} // verus!
