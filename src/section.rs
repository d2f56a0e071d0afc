//! The layout of a value-change section: the frame, the per-signal packed
//! streams with the table that locates them, and the time table.
use crate::blocks::BLOCK_VC_DATA_DYNAMIC_ALIAS2;
use crate::bytes::{
    svar_bytes, u64_be, var_bytes, write_bytes, write_u64, write_variant_i64, write_variant_u64,
};
use crate::lists::total_len;
use vstd::prelude::*;

verus! {

/// The pack type of the signal streams; an uncompressed stream needs no
/// other.
pub const VALUE_CHANGE_PACK_TYPE_LZ4: u8 = 0x34;

/// A run of `z` signals without changes in the offset table.
pub open spec fn zeros_bytes(z: nat) -> Seq<u8> {
    if z == 0 {
        Seq::empty()
    } else {
        var_bytes(z * 2)
    }
}

/// The offset table of the signal streams: for a signal with a stream, the
/// distance from the previous stream's offset, doubled and tagged with a
/// set bit 0, as a signed variable-length integer; for a run of signals
/// without one, the length of the run, doubled.
pub open spec fn chain_table(offsets: Seq<u64>, prev: int, zeros: nat) -> Seq<u8>
    decreases offsets.len(),
{
    if offsets.len() == 0 {
        zeros_bytes(zeros)
    } else if offsets[0] == 0 {
        chain_table(offsets.drop_first(), prev, zeros + 1)
    } else {
        zeros_bytes(zeros) + svar_bytes((offsets[0] - prev) * 2 + 1) + chain_table(
            offsets.drop_first(),
            offsets[0] as int,
            0,
        )
    }
}

/// The stream of one signal: nothing without changes, else a zero (the
/// stream is stored uncompressed) and the changes.
pub open spec fn packed_stream(chain: Seq<u8>) -> Seq<u8> {
    if chain.len() == 0 {
        Seq::empty()
    } else {
        seq![0u8] + chain
    }
}

/// The streams of all signals, one after the other.
pub open spec fn packed_all(chains: Seq<Seq<u8>>) -> Seq<u8>
    decreases chains.len(),
{
    if chains.len() == 0 {
        Seq::empty()
    } else {
        packed_all(chains.drop_last()) + packed_stream(chains.last())
    }
}

/// Where each signal's stream starts, counted from the pack type byte; zero
/// for a signal without changes.
pub open spec fn stream_offsets(chains: Seq<Seq<u8>>) -> Seq<u64> {
    Seq::new(
        chains.len(),
        |i: int|
            if chains[i].len() == 0 {
                0u64
            } else {
                (1 + packed_all(chains.subrange(0, i)).len()) as u64
            },
    )
}

/// The value changes of a section: the number of signals, the pack type,
/// the streams, the offset table and its length.
pub open spec fn value_changes_bytes(chains: Seq<Seq<u8>>) -> Seq<u8> {
    var_bytes(chains.len()) + seq![VALUE_CHANGE_PACK_TYPE_LZ4] + packed_all(chains) + chain_table(
        stream_offsets(chains),
        0,
        0,
    ) + u64_be(chain_table(stream_offsets(chains), 0, 0).len() as u64)
}

/// The times of a section, its frame, and the number of signals.
pub open spec fn section_head(start_time: u64, end_time: u64, frame: Seq<u8>, n: nat) -> Seq<u8> {
    u64_be(start_time) + u64_be(end_time) + u64_be(0) + var_bytes(frame.len()) + var_bytes(
        frame.len(),
    ) + var_bytes(n) + frame
}

/// The time table of a section with its lengths and number of entries.
pub open spec fn section_tail(time_table: Seq<u8>, entries: nat) -> Seq<u8> {
    time_table + u64_be(time_table.len() as u64) + u64_be(time_table.len() as u64) + u64_be(
        entries as u64,
    )
}

/// The content of a value-change section after its length field.
pub open spec fn section_body(
    start_time: u64,
    end_time: u64,
    frame: Seq<u8>,
    chains: Seq<Seq<u8>>,
    time_table: Seq<u8>,
    entries: nat,
) -> Seq<u8> {
    section_head(start_time, end_time, frame, chains.len()) + value_changes_bytes(chains)
        + section_tail(time_table, entries)
}

/// Writes the times of a section, its frame, and the number of signals.
pub fn write_section_head(out: &mut Vec<u8>, start_time: u64, end_time: u64, frame: &[u8], n: u64)
    ensures
        final(out)@ == old(out)@ + section_head(start_time, end_time, frame@, n as nat),
{
    write_u64(out, start_time);
    write_u64(out, end_time);
    write_u64(out, 0);
    write_variant_u64(out, frame.len() as u64);
    write_variant_u64(out, frame.len() as u64);
    write_variant_u64(out, n);
    write_bytes(out, frame);
    assert(final(out)@ =~= old(out)@ + section_head(start_time, end_time, frame@, n as nat));
}

/// Writes the time table of a section with its lengths and number of entries.
pub fn write_section_tail(out: &mut Vec<u8>, time_table: &[u8], entries: u64)
    ensures
        final(out)@ == old(out)@ + section_tail(time_table@, entries as nat),
{
    write_bytes(out, time_table);
    write_u64(out, time_table.len() as u64);
    write_u64(out, time_table.len() as u64);
    write_u64(out, entries);
    assert(final(out)@ =~= old(out)@ + section_tail(time_table@, entries as nat));
}

/// A value-change section: its tag, its length, and its content.
pub open spec fn section_bytes(
    start_time: u64,
    end_time: u64,
    frame: Seq<u8>,
    chains: Seq<Seq<u8>>,
    time_table: Seq<u8>,
    entries: nat,
) -> Seq<u8> {
    let body = section_body(start_time, end_time, frame, chains, time_table, entries);
    seq![BLOCK_VC_DATA_DYNAMIC_ALIAS2] + u64_be((8 + body.len()) as u64) + body
}

pub proof fn lemma_packed_all_len(chains: Seq<Seq<u8>>)
    ensures
        packed_all(chains).len() <= chains.len() + total_len(chains),
    decreases chains.len(),
{
    if chains.len() > 0 {
        lemma_packed_all_len(chains.drop_last());
    }
}

pub proof fn lemma_prefix_totals(chains: Seq<Seq<u8>>, i: int)
    requires
        0 <= i <= chains.len(),
    ensures
        total_len(chains.subrange(0, i)) <= total_len(chains),
    decreases chains.len() - i,
{
    if i < chains.len() {
        lemma_prefix_totals(chains, i + 1);
        assert(chains.subrange(0, i + 1).drop_last() =~= chains.subrange(0, i));
    } else {
        assert(chains.subrange(0, i) =~= chains);
    }
}

/// Writes a run of `zeros` signals without changes, if there is one, and
/// resets the count.
pub fn flush_zeros(out: &mut Vec<u8>, zeros: &mut u32)
    ensures
        final(out)@ == old(out)@ + zeros_bytes(*old(zeros) as nat),
        *final(zeros) == 0,
{
    if *zeros > 0 {
        write_variant_u64(out, (*zeros as u64) * 2);
        *zeros = 0;
    }
}

/// Writes the offset table of the streams at `offsets`, zero standing for a
/// signal without changes.
pub fn write_offset_table(out: &mut Vec<u8>, offsets: &[u64])
    requires
        offsets@.len() <= u32::MAX,
        forall|i: int| 0 <= i < offsets@.len() ==> #[trigger] offsets@[i] <= u32::MAX,
    ensures
        final(out)@ == old(out)@ + chain_table(offsets@, 0, 0),
{
    let mut zeros: u32 = 0;
    let mut prev: u64 = 0;
    let mut i: usize = 0;
    assert(offsets@.subrange(0, offsets@.len() as int) =~= offsets@);
    while i < offsets.len()
        invariant
            i <= offsets@.len(),
            offsets@.len() <= u32::MAX,
            forall|k: int| 0 <= k < offsets@.len() ==> #[trigger] offsets@[k] <= u32::MAX,
            zeros <= i,
            prev <= u32::MAX,
            out@ + chain_table(offsets@.subrange(i as int, offsets@.len() as int), prev as int, zeros as nat)
                == old(out)@ + chain_table(offsets@, 0, 0),
        decreases offsets@.len() - i,
    {
        let ghost rest = offsets@.subrange(i as int, offsets@.len() as int);
        proof {
            assert(rest.drop_first() =~= offsets@.subrange(i + 1, offsets@.len() as int));
            assert(rest[0] == offsets@[i as int]);
        }
        let offset = offsets[i];
        if offset == 0 {
            zeros = zeros + 1;
        } else {
            flush_zeros(out, &mut zeros);
            let delta: i64 = (offset as i64) - (prev as i64);
            write_variant_i64(out, delta * 2 + 1);
            proof {
                assert(out@ + chain_table(
                    offsets@.subrange(i + 1, offsets@.len() as int),
                    offset as int,
                    0,
                ) =~= old(out)@ + chain_table(offsets@, 0, 0));
            }
            prev = offset;
        }
        i += 1;
    }
    flush_zeros(out, &mut zeros);
    proof {
        assert(offsets@.subrange(offsets@.len() as int, offsets@.len() as int) =~= Seq::<
            u64,
        >::empty());
        assert(final(out)@ =~= old(out)@ + chain_table(offsets@, 0, 0));
    }
}

} // verus!
