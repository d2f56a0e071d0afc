//! The value changes of the current section, kept in memory until the
//! section is flushed.
use crate::blocks::BLOCK_VC_DATA_DYNAMIC_ALIAS2;
use crate::bytes::{
    copy_into, lemma_var_len, patch_u64, splice, u64_be, var_bytes, write_bytes, write_u64,
    write_u8, write_variant_u64,
};
use crate::encode::{
    change_bytes, expand_special_vector_cases, lemma_change_bytes_len, normalize,
    write_multi_bit_signal, write_one_bit_signal, write_real_signal,
};
use crate::section::{
    lemma_packed_all_len, lemma_prefix_totals, packed_all, section_body, section_bytes,
    stream_offsets, value_changes_bytes, write_offset_table, write_section_head,
    write_section_tail, VALUE_CHANGE_PACK_TYPE_LZ4,
};
use crate::lists::{append_step, record_len, total_len, SingleVecLists};
use crate::types::{FstSignalId, FstSignalType, FstWriteError};
use vstd::prelude::*;

verus! {

/// Where a signal's value lies in the frame.
#[derive(Debug, Clone, Copy)]
pub struct SignalInfo {
    /// length in bytes, one per character
    pub len: u32,
    /// starting offset in the value buffer
    pub offset: u32,
    /// whether the signal holds a real_valued number
    pub real_valued: bool,
}

/// The sum of the first `i` lengths.
pub open spec fn prefix_len(lens: Seq<u32>, i: int) -> nat
    decreases i,
{
    if i <= 0 || lens.len() < i {
        0
    } else {
        prefix_len(lens, i - 1) + lens[i - 1] as nat
    }
}

pub proof fn lemma_prefix_len_mono(lens: Seq<u32>, i: int, j: int)
    requires
        0 <= i <= j <= lens.len(),
    ensures
        prefix_len(lens, i) <= prefix_len(lens, j),
        i < j ==> prefix_len(lens, i) + lens[i] <= prefix_len(lens, j),
    decreases j - i,
{
    if i < j {
        lemma_prefix_len_mono(lens, i, j - 1);
        if i + 1 < j {
            lemma_prefix_len_mono(lens, i + 1, j);
        }
    }
}

/// Which signals hold real_valued numbers.
pub open spec fn signal_reals(signals: Seq<FstSignalType>) -> Seq<bool> {
    Seq::new(signals.len(), |i: int| signals[i].is_real())
}

/// The number of bytes that one value of each signal takes.
pub open spec fn signal_lens(signals: Seq<FstSignalType>) -> Seq<u32> {
    Seq::new(signals.len(), |i: int| signals[i].len_spec())
}

/// Lays the signals' values out one after the other and returns where each
/// one lies, and the length of all of them.
pub fn gen_signal_info(signals: &[FstSignalType]) -> (r: (Vec<SignalInfo>, usize))
    requires
        prefix_len(signal_lens(signals@), signals@.len() as int) <= u32::MAX,
    ensures
        r.0@.len() == signals@.len(),
        forall|i: int|
            0 <= i < signals@.len() ==> (#[trigger] r.0@[i]).len == signals@[i].len_spec()
                && r.0@[i].offset == prefix_len(signal_lens(signals@), i) && r.0@[i].real_valued
                == signals@[i].is_real(),
        r.1 == prefix_len(signal_lens(signals@), signals@.len() as int),
{
    let ghost lens = signal_lens(signals@);
    let mut offset: u32 = 0;
    let mut out: Vec<SignalInfo> = Vec::with_capacity(signals.len());
    let mut i: usize = 0;
    while i < signals.len()
        invariant
            i <= signals@.len(),
            lens == signal_lens(signals@),
            prefix_len(lens, signals@.len() as int) <= u32::MAX,
            offset == prefix_len(lens, i as int),
            out@.len() == i,
            forall|k: int|
                0 <= k < i ==> (#[trigger] out@[k]).len == signals@[k].len_spec() && out@[k].offset
                    == prefix_len(lens, k) && out@[k].real_valued == signals@[k].is_real(),
        decreases signals@.len() - i,
    {
        proof {
            lemma_prefix_len_mono(lens, i as int, signals@.len() as int);
        }
        let len = signals[i].len();
        out.push(SignalInfo { len, offset, real_valued: signals[i].real_valued });
        offset = offset + len;
        i += 1;
    }
    (out, offset as usize)
}

/// The time table of a section: each time as its distance from the one
/// before, the first one from zero, as a reader counts each section's table
/// from zero.
pub open spec fn time_table_bytes(times: Seq<u64>) -> Seq<u8>
    decreases times.len(),
{
    if times.len() == 0 {
        Seq::empty()
    } else {
        time_table_bytes(times.drop_last()) + var_bytes(
            (times.last() - (if times.len() == 1 {
                0
            } else {
                times[times.len() - 2]
            })) as nat,
        )
    }
}

pub proof fn lemma_time_table_len(times: Seq<u64>)
    ensures
        times.len() <= time_table_bytes(times).len(),
    decreases times.len(),
{
    if times.len() > 0 {
        lemma_time_table_len(times.drop_last());
        lemma_var_len(
            (times.last() - (if times.len() == 1 {
                0
            } else {
                times[times.len() - 2]
            })) as nat,
        );
    }
}

/// Appends the step from `prev_time` to `current_time` to a time table.
pub fn write_time_chain_update(out: &mut Vec<u8>, prev_time: u64, current_time: u64)
    requires
        prev_time <= current_time,
    ensures
        final(out)@ == old(out)@ + var_bytes((current_time - prev_time) as nat),
{
    write_variant_u64(out, current_time - prev_time);
}

/// What a signal buffer holds, as values.
pub struct BufferView {
    /// the time of the section's frame
    pub start_time: u64,
    /// the latest time
    pub end_time: u64,
    /// the times of the section's time table
    pub times: Seq<u64>,
    /// the length of each signal's value
    pub lens: Seq<u32>,
    /// which signals hold real_valued numbers
    pub reals: Seq<bool>,
    /// the values at the start of the section
    pub frame: Seq<u8>,
    /// the current values
    pub values: Seq<u8>,
    /// the encoded changes of each signal in this section
    pub chains: Seq<Seq<u8>>,
    /// for each signal, the time table index of its latest change
    pub prev: Seq<u32>,
    /// the index of the latest entry of the time table
    pub time_index: u32,
}

/// The current value of signal `i`.
pub open spec fn current_value(v: BufferView, i: int) -> Seq<u8> {
    v.values.subrange(prefix_len(v.lens, i) as int, prefix_len(v.lens, i) + v.lens[i])
}

/// The buffer after a change of the signal with handle `id` to `value`,
/// and what the change returns.
pub open spec fn signal_change_spec(v: BufferView, id: FstSignalId, value: Seq<u8>) -> (Result<
    (),
    FstWriteError,
>, BufferView) {
    if id.index == 0 || id.index > v.lens.len() {
        (Err(FstWriteError::InvalidSignalId(id)), v)
    } else {
        let i = id.index - 1;
        match normalize(value, v.lens[i] as nat, v.reals[i]) {
            Err(e) => (Err(e), v),
            Ok(val) => {
                let values = splice(v.values, prefix_len(v.lens, i) as int, val);
                if v.times.len() == 0 {
                    (Ok(()), BufferView { values, ..v })
                } else if current_value(v, i) == val {
                    (Ok(()), v)
                } else {
                    match change_bytes((v.time_index - v.prev[i]) as nat, val, v.reals[i]) {
                        None => (Err(FstWriteError::InvalidCharacter(val[0] as char)), v),
                        Some(enc) => (
                            Ok(()),
                            BufferView {
                                values,
                                chains: append_step(v.chains, i, enc),
                                prev: v.prev.update(i, v.time_index),
                                ..v
                            },
                        ),
                    }
                }
            },
        }
    }
}

/// The bytes a change of the signal with handle `id` to `value` adds to the
/// change lists: one record where a change is recorded, else nothing.
pub open spec fn change_growth(v: BufferView, id: FstSignalId, value: Seq<u8>) -> nat {
    let after = signal_change_spec(v, id, value).1;
    if after.chains == v.chains {
        0
    } else {
        record_len(
            false,
            (after.chains[id.index - 1].len() - v.chains[id.index - 1].len()) as nat,
        )
    }
}

/// The bytes a move of time to `t` adds to the time table.
pub open spec fn time_growth(v: BufferView, t: u64) -> nat {
    if t > v.end_time {
        var_bytes((t - v.end_time) as nat).len()
    } else {
        0
    }
}

/// The facts that hold of every buffer: one change list, one previous index
/// and one kind per signal, values and frame as long as all signals
/// together, the latest time at the end of the time table, and the time
/// index at its last entry.
pub open spec fn buffer_shape(v: BufferView) -> bool {
    let n = v.lens.len();
    &&& v.chains.len() == n
    &&& v.prev.len() == n
    &&& v.reals.len() == n
    &&& v.values.len() == prefix_len(v.lens, n as int)
    &&& v.frame.len() == v.values.len()
    &&& (v.times.len() == 0 ==> v.end_time == 0 && v.time_index == 0)
    &&& (v.times.len() > 0 ==> v.times.last() == v.end_time && v.time_index == v.times.len()
        - 1)
    &&& forall|i: int| 0 <= i < n ==> #[trigger] v.prev[i] <= v.time_index
}

/// The buffer after time moves to `t`, and what the move returns. The first
/// step of a trace copies the current values into the frame, which stays at
/// the section's start time: the values written before any step are the
/// values at that start.
pub open spec fn time_change_spec(v: BufferView, t: u64) -> (Result<(), FstWriteError>, BufferView) {
    if t < v.end_time {
        (Err(FstWriteError::TimeDecrease(v.end_time, t)), v)
    } else if t == v.end_time {
        (Ok(()), v)
    } else {
        (
            Ok(()),
            BufferView {
                end_time: t,
                times: v.times.push(t),
                frame: if v.times.len() == 0 {
                    v.values
                } else {
                    v.frame
                },
                time_index: if v.times.len() == 0 {
                    0
                } else {
                    (v.time_index + 1) as u32
                },
                ..v
            },
        )
    }
}

/// The buffer at the start of the section that follows a flush: its time
/// table starts at the latest time, so that changes written before the next
/// step are recorded at that time, and its frame holds the current values.
pub open spec fn after_flush(v: BufferView) -> BufferView {
    BufferView {
        start_time: v.end_time,
        times: seq![v.end_time],
        frame: v.values,
        chains: Seq::new(v.lens.len(), |i: int| Seq::<u8>::empty()),
        prev: Seq::new(v.lens.len(), |i: int| 0u32),
        time_index: 0,
        ..v
    }
}

/// Moving time backwards fails with the current and the requested time and
/// changes nothing.
pub proof fn lemma_time_decrease_changes_nothing(v: BufferView, t: u64)
    requires
        t < v.end_time,
    ensures
        time_change_spec(v, t) == (Err::<(), FstWriteError>(
            FstWriteError::TimeDecrease(v.end_time, t),
        ), v),
{
}

/// Writing the value a signal already has, right after a successful write
/// of it, records nothing and changes nothing.
pub proof fn lemma_repeated_change_records_nothing(v: BufferView, id: FstSignalId, value: Seq<u8>)
    requires
        v.values.len() == prefix_len(v.lens, v.lens.len() as int),
        signal_change_spec(v, id, value).0 is Ok,
    ensures
        signal_change_spec(signal_change_spec(v, id, value).1, id, value) == (Ok::<
            (),
            FstWriteError,
        >(()), signal_change_spec(v, id, value).1),
{
    let v1 = signal_change_spec(v, id, value).1;
    let i = id.index - 1;
    lemma_prefix_len_mono(v.lens, i, v.lens.len() as int);
    let val = normalize(value, v.lens[i] as nat, v.reals[i])->Ok_0;
    let start = prefix_len(v.lens, i) as int;
    let spliced = splice(v.values, start, val);
    assert(v1.lens == v.lens);
    assert(spliced.subrange(start, start + v.lens[i]) =~= val);
    if v.times.len() == 0 {
        assert(splice(spliced, start, val) =~= spliced);
    } else if current_value(v, i) == val {
    } else {
        assert(current_value(v1, i) == val);
    }
}

/// A flush between writes changes neither what a later write returns nor
/// the values and the time it leaves: a trace reaches the same values with
/// one section or with several.
pub proof fn lemma_flush_keeps_writes(v: BufferView, id: FstSignalId, value: Seq<u8>, t: u64)
    requires
        v.times.len() > 0,
        v.prev.len() == v.lens.len(),
    ensures
        signal_change_spec(after_flush(v), id, value).0 == signal_change_spec(v, id, value).0,
        signal_change_spec(after_flush(v), id, value).1.values == signal_change_spec(
            v,
            id,
            value,
        ).1.values,
        time_change_spec(after_flush(v), t).0 == time_change_spec(v, t).0,
        time_change_spec(after_flush(v), t).1.end_time == time_change_spec(v, t).1.end_time,
        time_change_spec(after_flush(v), t).1.values == time_change_spec(v, t).1.values,
{
    let f = after_flush(v);
    assert(f.lens == v.lens);
    assert(f.values == v.values);
    if !(id.index == 0 || id.index > v.lens.len()) {
        let i = id.index - 1;
        assert(current_value(f, i) == current_value(v, i));
    }
}

/// Keeps track of signal values before they are written out.
pub struct SignalBuffer {
    start_time: u64,
    end_time: u64,
    signals: Vec<SignalInfo>,
    /// time table index of the previous change of each signal
    prev_time_table_index: Vec<u32>,
    /// values of all signals at the start of this section
    frame: Vec<u8>,
    /// the frame with all value changes applied
    values: Vec<u8>,
    value_changes: SingleVecLists,
    /// the delta-encoded time table
    time_table: Vec<u8>,
    time_table_index: u32,
    /// scratch space for encoding one change
    write_buf: Vec<u8>,
    times: Ghost<Seq<u64>>,
}

/// Whether the bytes of `a` from `start` on are those of `b`.
fn range_equals(a: &Vec<u8>, start: usize, b: &[u8]) -> (r: bool)
    requires
        start + b@.len() <= a@.len(),
    ensures
        r == (a@.subrange(start as int, start + b@.len()) == b@),
{
    let a_len = a.len();
    let mut k: usize = 0;
    while k < b.len()
        invariant
            k <= b@.len(),
            a_len == a@.len(),
            start + b@.len() <= a@.len(),
            a@.subrange(start as int, start + k) == b@.subrange(0, k as int),
        decreases b@.len() - k,
    {
        if a[start + k] != b[k] {
            assert(a@.subrange(start as int, start + b@.len())[k as int] != b@[k as int]);
            return false;
        }
        k += 1;
        assert(a@.subrange(start as int, start + k) =~= b@.subrange(0, k as int));
    }
    assert(b@.subrange(0, b@.len() as int) =~= b@);
    true
}

/// A copy of `src`.
fn copy_of(src: &[u8]) -> (r: Vec<u8>)
    ensures
        r@ == src@,
{
    let mut r: Vec<u8> = Vec::with_capacity(src.len());
    write_bytes(&mut r, src);
    r
}

/// `value` brought to `len` characters, or why it cannot be.
fn normalize_value(value: &[u8], len: usize, real_valued: bool) -> (r: Result<Vec<u8>, FstWriteError>)
    ensures
        match normalize(value@, len as nat, real_valued) {
            Ok(v) => r is Ok && r->Ok_0@ == v,
            Err(e) => r == Err::<Vec<u8>, FstWriteError>(e),
        },
{
    if value.len() == len {
        Ok(copy_of(value))
    } else if real_valued || value.len() > len || value.len() == 0 {
        Err(FstWriteError::InvalidValueLength(len, value.len()))
    } else {
        match expand_special_vector_cases(value, len) {
            Some(e) => Ok(e),
            None => Err(FstWriteError::InvalidCharacter(value[0] as char)),
        }
    }
}

impl SignalBuffer {
    pub closed spec fn view(&self) -> BufferView {
        BufferView {
            start_time: self.start_time,
            end_time: self.end_time,
            times: self.times@,
            lens: Seq::new(self.signals@.len(), |i: int| self.signals@[i].len),
            reals: Seq::new(self.signals@.len(), |i: int| self.signals@[i].real_valued),
            frame: self.frame@,
            values: self.values@,
            chains: self.value_changes.view(),
            prev: self.prev_time_table_index@,
            time_index: self.time_table_index,
        }
    }

    /// The bytes held by the parts that grow: the time table, the scratch
    /// space and the change lists.
    pub closed spec fn size_spec(&self) -> nat {
        self.time_table@.len() + self.write_buf@.len() + self.value_changes.size_spec()
    }

    pub closed spec fn wf(&self) -> bool {
        let v = self.view();
        let n = self.signals@.len();
        &&& self.value_changes.wf()
        &&& v.chains.len() == n
        &&& v.prev.len() == n
        &&& forall|i: int| 0 <= i < n ==> #[trigger] self.value_changes.in_format(i, None)
        &&& forall|i: int|
            0 <= i < n ==> (#[trigger] self.signals@[i]).offset == prefix_len(v.lens, i)
                && self.signals@[i].len >= 1
        &&& prefix_len(v.lens, n as int) <= u32::MAX
        &&& self.frame@.len() == prefix_len(v.lens, n as int)
        &&& self.values@.len() == prefix_len(v.lens, n as int)
        &&& self.time_table@ == time_table_bytes(self.times@)
        &&& self.time_table@.len() < u32::MAX
        &&& forall|a: int, b: int|
            0 <= a < b < self.times@.len() ==> self.times@[a] < self.times@[b]
        &&& (self.times@.len() == 0 ==> self.end_time == 0 && self.start_time == 0
            && self.time_table_index == 0)
        &&& (self.times@.len() > 0 ==> self.times@.last() == self.end_time
            && self.time_table_index == self.times@.len() - 1)
        &&& forall|i: int| 0 <= i < n ==> #[trigger] v.prev[i] <= self.time_table_index
        &&& self.size_spec() < u32::MAX
        &&& 4 * n + 2 * self.values@.len() + 80 < u32::MAX
        &&& self.write_buf@.len() == 0
    }

    pub proof fn lemma_shape(&self)
        requires
            self.wf(),
        ensures
            buffer_shape(self.view()),
    {
    }

    /// A buffer for `signals`, all of whose values start out as `x`.
    pub fn new(signals: &[FstSignalType]) -> (r: SignalBuffer)
        requires
            forall|i: int| 0 <= i < signals@.len() ==> (#[trigger] signals@[i]).wf(),
            4 * signals@.len() + 2 * prefix_len(signal_lens(signals@), signals@.len() as int) + 80
                < u32::MAX,
        ensures
            r.wf(),
            buffer_shape(r.view()),
            r.has_room_spec(),
            r.view() == (BufferView {
                start_time: 0,
                end_time: 0,
                times: Seq::empty(),
                lens: signal_lens(signals@),
                reals: signal_reals(signals@),
                frame: Seq::new(
                    prefix_len(signal_lens(signals@), signals@.len() as int),
                    |i: int| 0x78u8,
                ),
                values: Seq::new(
                    prefix_len(signal_lens(signals@), signals@.len() as int),
                    |i: int| 0x78u8,
                ),
                chains: Seq::new(signals@.len(), |i: int| Seq::<u8>::empty()),
                prev: Seq::new(signals@.len(), |i: int| 0u32),
                time_index: 0,
            }),
            r.size_spec() == 4 * signals@.len(),
    {
        let (infos, values_len) = gen_signal_info(signals);
        let n = infos.len();
        let value_changes = SingleVecLists::new(n);
        let values: Vec<u8> = vec![0x78u8; values_len];
        let frame: Vec<u8> = vec![0x78u8; values_len];
        let prev_time_table_index: Vec<u32> = vec![0u32; n];
        let r = SignalBuffer {
            start_time: 0,
            end_time: 0,
            signals: infos,
            prev_time_table_index,
            frame,
            values,
            value_changes,
            time_table: Vec::new(),
            time_table_index: 0,
            write_buf: Vec::new(),
            times: Ghost(Seq::empty()),
        };
        proof {
            let lens = signal_lens(signals@);
            assert(r.view().lens =~= lens);
            assert(r.view().reals =~= signal_reals(signals@));
            assert(r.view().frame =~= Seq::new(prefix_len(lens, n as int), |i: int| 0x78u8));
            assert(r.view().values =~= Seq::new(prefix_len(lens, n as int), |i: int| 0x78u8));
            assert(r.view().prev =~= Seq::new(n as nat, |i: int| 0u32));
            assert forall|i: int| 0 <= i < n implies (#[trigger] r.signals@[i]).offset == prefix_len(
                r.view().lens,
                i,
            ) && r.signals@[i].len >= 1 by {
                assert(signals@[i].wf());
            }
        }
        r
    }

    /// Moves time to `new_time`; fails where time would go backwards.
    pub fn time_change(&mut self, new_time: u64) -> (r: Result<(), FstWriteError>)
        requires
            old(self).wf(),
            new_time > old(self).view().end_time ==> old(self).has_room_spec(),
        ensures
            final(self).wf(),
            buffer_shape(final(self).view()),
            (r, final(self).view()) == time_change_spec(old(self).view(), new_time),
            final(self).size_spec() == old(self).size_spec() + time_growth(
                old(self).view(),
                new_time,
            ),
    {
        if new_time < self.end_time {
            return Err(FstWriteError::TimeDecrease(self.end_time, new_time));
        }
        if new_time == self.end_time {
            return Ok(());
        }
        proof {
            lemma_time_table_len(self.times@);
            lemma_var_len((new_time - self.end_time) as nat);
        }
        let first_time_step = self.time_table.len() == 0;
        write_time_chain_update(&mut self.time_table, self.end_time, new_time);
        if first_time_step {
            self.frame = copy_of(self.values.as_slice());
        } else {
            self.time_table_index = self.time_table_index + 1;
        }
        self.end_time = new_time;
        proof {
            let old_times = self.times@;
            self.times@ = old_times.push(new_time);
            assert(self.times@.drop_last() =~= old_times);
            assert forall|a: int, b: int|
                0 <= a < b < self.times@.len() implies self.times@[a] < self.times@[b] by {
                if b == self.times@.len() - 1 && a < b {
                    assert(old_times[a] <= old_times.last());
                    if a < old_times.len() - 1 {
                        assert(old_times[a] < old_times[old_times.len() - 1]);
                    }
                }
            }
            assert(self.view() == time_change_spec(old(self).view(), new_time).1);
        }
        Ok(())
    }

    /// There is room for one more change of any signal, and for one more
    /// time step, within the 32-bit offsets of a section.
    pub closed spec fn has_room_spec(&self) -> bool {
        self.size_spec() + 2 * self.values@.len() + 64 < u32::MAX
    }

    /// Whether there is room for one more change and one more time step
    /// before the section must be flushed.
    #[verifier::when_used_as_spec(has_room_spec)]
    pub fn has_room(&self) -> (r: bool)
        requires
            self.wf(),
        ensures
            r == self.has_room_spec(),
    {
        let size = self.size();
        let values_len = self.values.len();
        values_len < 0x8000_0000 && (size as u64) + 2 * (values_len as u64) + 64 < 0xFFFF_FFFF
    }

    /// Appends the encoded change of signal `i` to `val` to its list, after
    /// the first time step, where `val` differs from the current value.
    #[verifier::rlimit(60)]
    fn record_change(&mut self, i: usize, val: &[u8]) -> (r: Result<(), FstWriteError>)
        requires
            old(self).wf(),
            old(self).has_room_spec(),
            i < old(self).view().lens.len(),
            val@.len() == old(self).view().lens[i as int],
            old(self).view().times.len() > 0,
            current_value(old(self).view(), i as int) != val@,
        ensures
            final(self).wf(),
            buffer_shape(final(self).view()),
            final(self).view().values.len() == old(self).view().values.len(),
            ({
                let v = old(self).view();
                match change_bytes(
                    (v.time_index - v.prev[i as int]) as nat,
                    val@,
                    v.reals[i as int],
                ) {
                    None => r == Err::<(), FstWriteError>(
                        FstWriteError::InvalidCharacter(val@[0] as char),
                    ) && final(self).view() == v && final(self).size_spec()
                        == old(self).size_spec(),
                    Some(enc) => r == Ok::<(), FstWriteError>(()) && final(self).view() == (
                    BufferView {
                        values: splice(v.values, prefix_len(v.lens, i as int) as int, val@),
                        chains: append_step(v.chains, i as int, enc),
                        prev: v.prev.update(i as int, v.time_index),
                        ..v
                    }) && final(self).size_spec() == old(self).size_spec() + record_len(
                        false,
                        enc.len(),
                    ),
                }
            }),
    {
        let ghost v0 = self.view();
        let len = self.signals[i].len as usize;
        let start = self.signals[i].offset as usize;
        let real_valued = self.signals[i].real_valued;
        proof {
            lemma_prefix_len_mono(v0.lens, i as int, v0.lens.len() as int);
        }
        let delta = (self.time_table_index - self.prev_time_table_index[i]) as u64;
        if real_valued {
            write_real_signal(&mut self.write_buf, delta, val);
        } else if len == 1 {
            match write_one_bit_signal(&mut self.write_buf, delta, val[0]) {
                Err(e) => {
                    return Err(e);
                },
                Ok(()) => {},
            }
        } else {
            write_multi_bit_signal(&mut self.write_buf, delta, val);
        }
        proof {
            let enc = change_bytes(delta as nat, val@, real_valued)->0;
            assert(self.write_buf@ =~= enc);
            lemma_change_bytes_len(delta as nat, val@, real_valued);
            assert(enc.len() <= 10 + len);
            lemma_var_len(enc.len());
            self.value_changes.lemma_size_bounds();
        }
        copy_into(&mut self.values, start, val);
        self.value_changes.append(i, self.write_buf.as_slice(), None);
        self.write_buf.clear();
        self.prev_time_table_index.set(i, self.time_table_index);
        proof {
            assert(self.view().prev =~= v0.prev.update(i as int, v0.time_index));
            assert(self.view().lens =~= v0.lens);
            assert(self.view().reals =~= v0.reals);
        }
        Ok(())
    }

    /// Records a change of the signal with handle `signal_id` to `value`.
    /// Before the first time step the value goes into the frame; after it,
    /// a change that leaves the value as it was records nothing.
    pub fn signal_change(&mut self, signal_id: FstSignalId, value: &[u8]) -> (r: Result<
        (),
        FstWriteError,
    >)
        requires
            old(self).wf(),
            old(self).has_room_spec(),
        ensures
            final(self).wf(),
            buffer_shape(final(self).view()),
            (r, final(self).view()) == signal_change_spec(old(self).view(), signal_id, value@),
            final(self).size_spec() == old(self).size_spec() + change_growth(
                old(self).view(),
                signal_id,
                value@,
            ),
    {
        let ghost v0 = self.view();
        let idx = signal_id.to_index();
        if idx == 0 || idx as usize > self.signals.len() {
            return Err(FstWriteError::InvalidSignalId(signal_id));
        }
        let i = (idx - 1) as usize;
        let len = self.signals[i].len as usize;
        let start = self.signals[i].offset as usize;
        let real_valued = self.signals[i].real_valued;
        proof {
            lemma_prefix_len_mono(v0.lens, i as int, v0.lens.len() as int);
            assert(v0.lens[i as int] == len);
            assert(v0.reals[i as int] == real_valued);
        }
        let val = match normalize_value(value, len, real_valued) {
            Ok(v) => v,
            Err(e) => {
                return Err(e);
            },
        };
        if self.time_table.len() == 0 {
            copy_into(&mut self.values, start, val.as_slice());
            proof {
                assert(self.view().lens =~= v0.lens);
                assert(self.view().reals =~= v0.reals);
                assert(self.view() == signal_change_spec(v0, signal_id, value@).1);
            }
            return Ok(());
        }
        proof {
            lemma_time_table_len(self.times@);
            if self.times@.len() == 0 {
                assert(time_table_bytes(self.times@) == Seq::<u8>::empty());
            }
            assert(v0.times.len() > 0);
            assert(signal_id.index - 1 == i);
        }
        if range_equals(&self.values, start, val.as_slice()) {
            return Ok(());
        }
        assert(current_value(v0, i as int) != val@);
        let r = self.record_change(i, val.as_slice());
        proof {
            let spec = signal_change_spec(v0, signal_id, value@);
            assert(normalize(value@, v0.lens[i as int] as nat, real_valued) == Ok::<
                Seq<u8>,
                FstWriteError,
            >(val@));
            match change_bytes((v0.time_index - v0.prev[i as int]) as nat, val@, real_valued) {
                None => assert(r == spec.0),
                Some(enc) => {
                    assert(r == spec.0);
                    assert(spec.1.chains[i as int] == v0.chains[i as int] + enc);
                    assert(spec.1.chains[i as int].len() > v0.chains[i as int].len());
                },
            }
        }
        r
    }

    /// Writes the value changes of the section: the number of signals, the
    /// pack type, each signal's stream and the table of where they start.
    fn write_value_changes(&self, out: &mut Vec<u8>)
        requires
            self.wf(),
        ensures
            final(out)@ == old(out)@ + value_changes_bytes(self.view().chains),
    {
        let ghost chains = self.view().chains;
        let n = self.signals.len();
        write_variant_u64(out, n as u64);
        let vc_start = out.len();
        write_u8(out, VALUE_CHANGE_PACK_TYPE_LZ4);
        let ghost base = out@;
        proof {
            self.value_changes.lemma_size_bounds();
            lemma_packed_all_len(chains);
            assert(chains.subrange(0, 0) =~= Seq::<Seq<u8>>::empty());
        }
        let mut offsets: Vec<u64> = Vec::new();
        let mut i: usize = 0;
        while i < n
            invariant
                self.wf(),
                n == self.signals@.len(),
                chains == self.view().chains,
                chains.len() == n,
                i <= n,
                base.len() == vc_start + 1,
                out@ == base + packed_all(chains.subrange(0, i as int)),
                offsets@ == stream_offsets(chains).subrange(0, i as int),
                4 * n + total_len(chains) < u32::MAX,
                forall|k: int| 0 <= k < i ==> #[trigger] offsets@[k] <= u32::MAX,
            decreases n - i,
        {
            let chain = self.value_changes.extract_list(i, None);
            proof {
                lemma_prefix_totals(chains, i as int);
                lemma_packed_all_len(chains.subrange(0, i as int));
                assert(chains.subrange(0, i + 1).drop_last() =~= chains.subrange(0, i as int));
            }
            if chain.len() == 0 {
                offsets.push(0);
            } else {
                offsets.push((out.len() - vc_start) as u64);
                write_u8(out, 0);
                write_bytes(out, chain.as_slice());
            }
            proof {
                assert(out@ =~= base + packed_all(chains.subrange(0, i + 1)));
                assert(offsets@ =~= stream_offsets(chains).subrange(0, i + 1));
            }
            i += 1;
        }
        proof {
            assert(chains.subrange(0, n as int) =~= chains);
            assert(stream_offsets(chains).subrange(0, n as int) =~= stream_offsets(chains));
        }
        let table_start = out.len();
        write_offset_table(out, offsets.as_slice());
        let table_len = (out.len() - table_start) as u64;
        write_u64(out, table_len);
        assert(final(out)@ =~= old(out)@ + value_changes_bytes(chains));
    }

    /// Writes the section as one value-change block.
    #[verifier::spinoff_prover]
    #[verifier::rlimit(100)]
    fn write_section(&self, out: &mut Vec<u8>)
        requires
            self.wf(),
        ensures
            final(out)@ == old(out)@ + section_bytes(
                self.view().start_time,
                self.view().end_time,
                self.view().frame,
                self.view().chains,
                time_table_bytes(self.view().times),
                self.view().times.len(),
            ),
    {
        let ghost v = self.view();
        write_u8(out, BLOCK_VC_DATA_DYNAMIC_ALIAS2);
        let start = out.len();
        write_u64(out, 0);
        let ghost head_start = out@;
        write_section_head(
            out,
            self.start_time,
            self.end_time,
            self.frame.as_slice(),
            self.signals.len() as u64,
        );
        self.write_value_changes(out);
        let entries: u64 = if self.time_table.len() == 0 {
            0
        } else {
            self.time_table_index as u64 + 1
        };
        proof {
            if self.times@.len() == 0 {
                assert(time_table_bytes(self.times@) == Seq::<u8>::empty());
            }
            assert(entries == v.times.len());
        }
        write_section_tail(out, self.time_table.as_slice(), entries);
        let end = out.len();
        let ghost body = section_body(
            v.start_time,
            v.end_time,
            v.frame,
            v.chains,
            time_table_bytes(v.times),
            v.times.len(),
        );
        assert(out@ =~= head_start + body);
        assert(head_start =~= old(out)@ + seq![BLOCK_VC_DATA_DYNAMIC_ALIAS2] + u64_be(0));
        patch_u64(out, start, (end - start) as u64);
        assert(final(out)@ =~= old(out)@ + section_bytes(
            v.start_time,
            v.end_time,
            v.frame,
            v.chains,
            time_table_bytes(v.times),
            v.times.len(),
        ));
    }

    /// Empties the section and starts the next one at the latest time.
    #[verifier::spinoff_prover]
    #[verifier::rlimit(100)]
    fn start_next_section(&mut self)
        requires
            old(self).wf(),
        ensures
            final(self).wf(),
            buffer_shape(final(self).view()),
            final(self).has_room_spec(),
            final(self).view() == after_flush(old(self).view()),
            final(self).size_spec() == var_bytes(old(self).view().end_time as nat).len() + 4
                * old(self).view().lens.len(),
    {
        let ghost v = self.view();
        self.time_table_index = 0;
        let n = self.prev_time_table_index.len();
        self.prev_time_table_index = vec![0u32; n];
        self.start_time = self.end_time;
        self.time_table.clear();
        write_variant_u64(&mut self.time_table, self.end_time);
        self.write_buf.clear();
        self.value_changes.clear();
        self.frame = copy_of(self.values.as_slice());
        proof {
            self.times@ = seq![self.end_time];
            assert(self.times@.drop_last() =~= Seq::<u64>::empty());
            assert(time_table_bytes(Seq::<u64>::empty()) == Seq::<u8>::empty());
            assert(time_table_bytes(self.times@) == time_table_bytes(self.times@.drop_last())
                + var_bytes((self.end_time - 0) as nat));
            assert(time_table_bytes(self.times@) =~= var_bytes(self.end_time as nat));
            lemma_var_len(self.end_time as nat);
            assert(self.view().prev =~= after_flush(v).prev);
            assert(self.view().lens =~= after_flush(v).lens);
            assert(self.view().chains =~= after_flush(v).chains);
        }
    }

    /// Writes the section as one value-change block, starts a new section
    /// at the latest time, and returns that time.
    pub fn flush(&mut self, out: &mut Vec<u8>) -> (r: u64)
        requires
            old(self).wf(),
        ensures
            final(self).wf(),
            buffer_shape(final(self).view()),
            final(self).has_room_spec(),
            r == old(self).view().end_time,
            final(out)@ == old(out)@ + section_bytes(
                old(self).view().start_time,
                old(self).view().end_time,
                old(self).view().frame,
                old(self).view().chains,
                time_table_bytes(old(self).view().times),
                old(self).view().times.len(),
            ),
            final(self).view() == after_flush(old(self).view()),
            final(self).size_spec() == var_bytes(old(self).view().end_time as nat).len() + 4
                * old(self).view().lens.len(),
    {
        self.write_section(out);
        let end_time = self.end_time;
        self.start_next_section();
        end_time
    }

    /// The bytes held by the parts that grow: the time table, the scratch
    /// space and the change lists.
    pub fn size(&self) -> (r: usize)
        requires
            self.wf(),
        ensures
            r == self.size_spec(),
    {
        self.time_table.len() + self.write_buf.len() + self.value_changes.size()
    }
}

} // verus!
