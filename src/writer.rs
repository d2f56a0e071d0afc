//! The writer's two phases: the header writer collects the hierarchy, the
//! body writer collects value changes, and finishing the body writer yields
//! the file.
use crate::blocks::{
    geometry_block, header_bytes, header_strings_fit, hierarchy_block, lemma_header_len,
    lz4_block_of, scope_record, up_scope_record, utf8, var_record, write_geometry, write_header, write_hierarchy_bytes, write_hierarchy_scope,
    write_hierarchy_up_scope, write_hierarchy_var, Header, HIERARCHY_MAX_LEN,
    HIERARCHY_NAME_MAX_SIZE,
};
use crate::buffer::{
    after_flush, buffer_shape, change_growth, time_growth, prefix_len, signal_change_spec, signal_lens, signal_reals, time_change_spec, time_table_bytes,
    BufferView, SignalBuffer,
};
use crate::bytes::{copy_into, var_bytes};
use crate::section::section_bytes;
use crate::types::{
    FstInfo, FstScopeType, FstSignalId, FstSignalType, FstVarDirection, FstVarType, FstWriteError,
};
use vstd::prelude::*;
use vstd::string::StringSliceAdditionalSpecFns;

verus! {

/// The signals fit the 32-bit offsets of a value-change section.
pub open spec fn signals_fit(signals: Seq<FstSignalType>) -> bool {
    4 * signals.len() + 2 * prefix_len(signal_lens(signals), signals.len() as int) + 80 < u32::MAX
}

/// `h` is the header of a new file that `info` describes, before its
/// counts are known.
pub open spec fn is_initial_header(h: Header, info: FstInfo) -> bool {
    &&& h.start_time == info.start_time
    &&& h.end_time == 0
    &&& h.memory_used_by_writer == 0
    &&& h.scope_count == 0
    &&& h.var_count == 0
    &&& h.max_signal_id == 0
    &&& h.vc_section_count == 0
    &&& h.timescale_exponent == info.timescale_exponent
    &&& h.version@ == info.version@
    &&& h.date@ == info.date@
    &&& h.file_type == info.file_type
    &&& h.time_zero == 0
}

/// The version and the date of `info` fit their fields.
pub open spec fn info_strings_fit(info: FstInfo) -> bool {
    utf8(info.version@).len() < 128 && utf8(info.date@).len() < 119
}

/// Writes the header and the hierarchy of a trace.
pub struct FstHeaderWriter {
    out: Vec<u8>,
    /// the hierarchy records, compressed when the header is finished
    hierarchy_buf: Vec<u8>,
    signals: Vec<FstSignalType>,
    scope_depth: u64,
    var_count: u64,
    scope_count: u64,
    header: Header,
}

impl FstHeaderWriter {
    /// The bytes of the file so far.
    pub closed spec fn output(&self) -> Seq<u8> {
        self.out@
    }

    /// The hierarchy records so far.
    pub closed spec fn hierarchy(&self) -> Seq<u8> {
        self.hierarchy_buf@
    }

    /// The types of the signals registered so far, aliases not counted.
    pub closed spec fn signals(&self) -> Seq<FstSignalType> {
        self.signals@
    }

    pub closed spec fn scope_depth(&self) -> u64 {
        self.scope_depth
    }

    pub closed spec fn scope_count(&self) -> u64 {
        self.scope_count
    }

    pub closed spec fn var_count(&self) -> u64 {
        self.var_count
    }

    /// The header the file started with.
    pub closed spec fn header(&self) -> Header {
        self.header
    }

    pub closed spec fn wf(&self) -> bool {
        &&& header_strings_fit(self.header)
        &&& self.header.end_time == 0
        &&& self.header.scope_count == 0
        &&& self.header.var_count == 0
        &&& self.header.max_signal_id == 0
        &&& self.header.vc_section_count == 0
        &&& self.header.memory_used_by_writer == 0
        &&& self.header.time_zero == 0
        &&& self.out@ == header_bytes(self.header)
        &&& forall|i: int| 0 <= i < self.signals@.len() ==> (#[trigger] self.signals@[i]).wf()
        &&& signals_fit(self.signals@)
    }

    /// Starts a file with the header that `info` describes; fails where the
    /// version or the date does not fit its field.
    pub fn new(info: &FstInfo) -> (r: Result<FstHeaderWriter, FstWriteError>)
        ensures
            info_strings_fit(*info) <==> r is Ok,
            r matches Ok(w) ==> {
                &&& w.wf()
                &&& is_initial_header(w.header(), *info)
                &&& w.output() == header_bytes(w.header())
                &&& w.hierarchy() == Seq::<u8>::empty()
                &&& w.signals() == Seq::<FstSignalType>::empty()
                &&& w.scope_depth() == 0 && w.scope_count() == 0 && w.var_count() == 0
            },
            utf8(info.version@).len() >= 128 ==> (r matches Err(FstWriteError::StringTooLong(n, s))
                && n == 128 && s@ == info.version@),
            utf8(info.version@).len() < 128 && utf8(info.date@).len() >= 119 ==> (r matches Err(
                FstWriteError::StringTooLong(n, s),
            ) && n == 119 && s@ == info.date@),
    {
        let header = Header {
            start_time: info.start_time,
            end_time: 0,
            memory_used_by_writer: 0,
            scope_count: 0,
            var_count: 0,
            max_signal_id: 0,
            vc_section_count: 0,
            timescale_exponent: info.timescale_exponent,
            version: info.version.as_str().to_owned(),
            date: info.date.as_str().to_owned(),
            file_type: info.file_type,
            time_zero: 0,
        };
        assert(is_initial_header(header, *info));
        let mut out: Vec<u8> = Vec::new();
        match write_header(&mut out, &header) {
            Err(e) => {
                return Err(e);
            },
            Ok(()) => {},
        }
        assert(out@ =~= header_bytes(header));
        let w = FstHeaderWriter {
            out,
            hierarchy_buf: Vec::new(),
            signals: Vec::new(),
            scope_depth: 0,
            var_count: 0,
            scope_count: 0,
            header,
        };
        assert(signal_lens(w.signals@) =~= Seq::<u32>::empty());
        Ok(w)
    }

    /// Opens a scope; fails where the name or the component does not fit.
    pub fn scope(&mut self, name: &str, component: &str, tpe: FstScopeType) -> (r: Result<
        (),
        FstWriteError,
    >)
        requires
            old(self).wf(),
            old(self).scope_depth() < u64::MAX,
            old(self).scope_count() < u64::MAX,
        ensures
            final(self).wf(),
            final(self).output() == old(self).output(),
            final(self).header() == old(self).header(),
            final(self).signals() == old(self).signals(),
            final(self).var_count() == old(self).var_count(),
            name.spec_bytes().len() > HIERARCHY_NAME_MAX_SIZE ==> (r matches Err(
                FstWriteError::StringTooLong(n, s),
            ) && n == HIERARCHY_NAME_MAX_SIZE && s@ == name@),
            name.spec_bytes().len() <= HIERARCHY_NAME_MAX_SIZE && component.spec_bytes().len()
                > HIERARCHY_NAME_MAX_SIZE ==> (r matches Err(FstWriteError::StringTooLong(n, s))
                && n == HIERARCHY_NAME_MAX_SIZE && s@ == component@),
            r is Err ==> final(self).hierarchy() == old(self).hierarchy() && final(self).scope_depth()
                == old(self).scope_depth() && final(self).scope_count() == old(self).scope_count(),
            name.spec_bytes().len() <= HIERARCHY_NAME_MAX_SIZE && component.spec_bytes().len()
                <= HIERARCHY_NAME_MAX_SIZE ==> {
                &&& r is Ok
                &&& final(self).hierarchy() == old(self).hierarchy() + scope_record(
                    name.spec_bytes(),
                    component.spec_bytes(),
                    tpe,
                )
                &&& final(self).scope_depth() == old(self).scope_depth() + 1
                &&& final(self).scope_count() == old(self).scope_count() + 1
            },
    {
        if name.as_bytes().len() > HIERARCHY_NAME_MAX_SIZE {
            let owned = name.to_owned();
            assert(owned@ == name@);
            return Err(FstWriteError::StringTooLong(HIERARCHY_NAME_MAX_SIZE, owned));
        }
        if component.as_bytes().len() > HIERARCHY_NAME_MAX_SIZE {
            let owned = component.to_owned();
            assert(owned@ == component@);
            return Err(FstWriteError::StringTooLong(HIERARCHY_NAME_MAX_SIZE, owned));
        }
        self.scope_depth = self.scope_depth + 1;
        self.scope_count = self.scope_count + 1;
        write_hierarchy_scope(&mut self.hierarchy_buf, name, component, tpe);
        Ok(())
    }

    /// Closes the innermost scope.
    pub fn up_scope(&mut self) -> (r: Result<(), FstWriteError>)
        requires
            old(self).wf(),
            old(self).scope_depth() > 0,
        ensures
            r is Ok,
            final(self).wf(),
            final(self).output() == old(self).output(),
            final(self).header() == old(self).header(),
            final(self).signals() == old(self).signals(),
            final(self).var_count() == old(self).var_count(),
            final(self).scope_count() == old(self).scope_count(),
            final(self).scope_depth() == old(self).scope_depth() - 1,
            final(self).hierarchy() == old(self).hierarchy() + up_scope_record(),
    {
        self.scope_depth = self.scope_depth - 1;
        write_hierarchy_up_scope(&mut self.hierarchy_buf);
        Ok(())
    }

    /// Registers a variable and returns its handle: a new one, or with
    /// `alias`, the handle of the signal it shares. Fails where the name
    /// does not fit, or `alias` names no registered signal.
    pub fn var(
        &mut self,
        name: &str,
        signal_tpe: FstSignalType,
        tpe: FstVarType,
        dir: FstVarDirection,
        alias: Option<FstSignalId>,
    ) -> (r: Result<FstSignalId, FstWriteError>)
        requires
            old(self).wf(),
            signal_tpe.wf(),
            old(self).var_count() < u64::MAX,
            alias is None ==> signals_fit(old(self).signals().push(signal_tpe)),
        ensures
            final(self).wf(),
            final(self).output() == old(self).output(),
            final(self).header() == old(self).header(),
            final(self).scope_depth() == old(self).scope_depth(),
            final(self).scope_count() == old(self).scope_count(),
            name.spec_bytes().len() > HIERARCHY_NAME_MAX_SIZE ==> (r matches Err(
                FstWriteError::StringTooLong(n, s),
            ) && n == HIERARCHY_NAME_MAX_SIZE && s@ == name@),
            name.spec_bytes().len() <= HIERARCHY_NAME_MAX_SIZE ==> match alias {
                Some(a) => if a.index == 0 || a.index > old(self).signals().len() {
                    r == Err::<FstSignalId, FstWriteError>(FstWriteError::InvalidSignalId(a))
                } else {
                    &&& r == Ok::<FstSignalId, FstWriteError>(a)
                    &&& final(self).signals() == old(self).signals()
                    &&& final(self).var_count() == old(self).var_count() + 1
                    &&& final(self).hierarchy() == old(self).hierarchy() + var_record(
                        tpe,
                        dir,
                        name.spec_bytes(),
                        signal_tpe,
                        a.index as nat,
                    )
                },
                None => {
                    &&& r matches Ok(id) && id.index == old(self).signals().len() + 1
                    &&& final(self).signals() == old(self).signals().push(signal_tpe)
                    &&& final(self).var_count() == old(self).var_count() + 1
                    &&& final(self).hierarchy() == old(self).hierarchy() + var_record(
                        tpe,
                        dir,
                        name.spec_bytes(),
                        signal_tpe,
                        0,
                    )
                },
            },
            r is Err ==> final(self).hierarchy() == old(self).hierarchy() && final(self).signals()
                == old(self).signals() && final(self).var_count() == old(self).var_count(),
    {
        if name.as_bytes().len() > HIERARCHY_NAME_MAX_SIZE {
            let owned = name.to_owned();
            assert(owned@ == name@);
            return Err(FstWriteError::StringTooLong(HIERARCHY_NAME_MAX_SIZE, owned));
        }
        match alias {
            Some(a) => {
                let index = a.to_index();
                if index == 0 || index as usize > self.signals.len() {
                    return Err(FstWriteError::InvalidSignalId(a));
                }
                self.var_count = self.var_count + 1;
                write_hierarchy_var(&mut self.hierarchy_buf, tpe, dir, name, signal_tpe, index);
                Ok(a)
            },
            None => {
                self.var_count = self.var_count + 1;
                write_hierarchy_var(&mut self.hierarchy_buf, tpe, dir, name, signal_tpe, 0);
                proof {
                    assert(4 * (self.signals@.len() + 1) < u32::MAX);
                }
                self.signals.push(signal_tpe);
                proof {
                    assert(self.signals@ == old(self).signals().push(signal_tpe));
                }
                Ok(FstSignalId::from_index(self.signals.len() as u32))
            },
        }
    }

    /// The number of bytes of hierarchy records so far.
    pub fn hierarchy_len(&self) -> (r: usize)
        ensures
            r == self.hierarchy().len(),
    {
        self.hierarchy_buf.len()
    }

    /// Ends the hierarchy: writes the compressed hierarchy block and the
    /// geometry block, and returns the writer of the value changes.
    pub fn finish(self) -> (r: Result<FstBodyWriter, FstWriteError>)
        requires
            self.wf(),
            self.scope_depth() == 0,
            self.hierarchy().len() <= HIERARCHY_MAX_LEN,
        ensures
            r matches Ok(b) && {
                &&& b.wf()
                &&& buffer_shape(b.buffer())
                &&& b.size_spec() == 4 * self.signals().len()
                &&& b.has_room_spec()
                &&& b.output() == self.output() + hierarchy_block(
                    self.hierarchy().len(),
                    lz4_block_of(self.hierarchy()),
                ) + geometry_block(self.signals())
                &&& b.buffer() == initial_buffer(self.signals())
                &&& b.header() == (Header {
                    scope_count: self.scope_count(),
                    var_count: self.var_count(),
                    max_signal_id: self.signals().len() as u64,
                    ..self.header()
                })
            },
    {
        let mut out = self.out;
        let ghost out0 = out@;
        write_hierarchy_bytes(&mut out, self.hierarchy_buf.as_slice());
        write_geometry(&mut out, self.signals.as_slice());
        let buffer = SignalBuffer::new(self.signals.as_slice());
        let mut header = self.header;
        header.scope_count = self.scope_count;
        header.var_count = self.var_count;
        header.max_signal_id = self.signals.len() as u64;
        proof {
            lemma_header_len(self.header);
            assert(out@.subrange(0, 330) =~= out0);
        }
        proof {
            buffer.lemma_shape();
        }
        Ok(FstBodyWriter { out, buffer, header })
    }
}

/// The buffer of a new body writer for `signals`: no time yet, every value `x`.
pub open spec fn initial_buffer(signals: Seq<FstSignalType>) -> BufferView {
    BufferView {
        start_time: 0,
        end_time: 0,
        times: Seq::empty(),
        lens: signal_lens(signals),
        reals: signal_reals(signals),
        frame: Seq::new(prefix_len(signal_lens(signals), signals.len() as int), |i: int| 0x78u8),
        values: Seq::new(prefix_len(signal_lens(signals), signals.len() as int), |i: int| 0x78u8),
        chains: Seq::new(signals.len(), |i: int| Seq::<u8>::empty()),
        prev: Seq::new(signals.len(), |i: int| 0u32),
        time_index: 0,
    }
}

/// The header of a finished file: its end time and one more section.
pub open spec fn finished_header(h: Header, end_time: u64) -> Header {
    Header { end_time, vc_section_count: (h.vc_section_count + 1) as u64, ..h }
}

/// Writes the value changes of a trace.
pub struct FstBodyWriter {
    out: Vec<u8>,
    buffer: SignalBuffer,
    /// the header as it will be written when the file is finished
    header: Header,
}

impl FstBodyWriter {
    /// The bytes of the file so far, with the header as it was first written.
    pub closed spec fn output(&self) -> Seq<u8> {
        self.out@
    }

    /// The value changes of the current section.
    pub closed spec fn buffer(&self) -> BufferView {
        self.buffer.view()
    }

    /// The header so far; its end time and section count are filled in at
    /// the end.
    pub closed spec fn header(&self) -> Header {
        self.header
    }

    pub closed spec fn wf(&self) -> bool {
        &&& self.buffer.wf()
        &&& header_strings_fit(self.header)
        &&& self.out@.len() >= 330
    }

    /// There is room for one more change and one more time step before the
    /// section must be flushed.
    pub closed spec fn has_room_spec(&self) -> bool {
        self.buffer.has_room_spec()
    }

    /// Whether there is room for one more change and one more time step
    /// before the section must be flushed.
    #[verifier::when_used_as_spec(has_room_spec)]
    pub fn has_room(&self) -> (r: bool)
        requires
            self.wf(),
        ensures
            r == self.has_room_spec(),
    {
        self.buffer.has_room()
    }

    /// Moves time to `time`; fails where time would go backwards.
    pub fn time_change(&mut self, time: u64) -> (r: Result<(), FstWriteError>)
        requires
            old(self).wf(),
            time > old(self).buffer().end_time ==> old(self).has_room_spec(),
        ensures
            final(self).wf(),
            buffer_shape(final(self).buffer()),
            final(self).output() == old(self).output(),
            final(self).header() == old(self).header(),
            (r, final(self).buffer()) == time_change_spec(old(self).buffer(), time),
            final(self).size_spec() == old(self).size_spec() + time_growth(
                old(self).buffer(),
                time,
            ),
    {
        let r = self.buffer.time_change(time);
        proof {
            self.buffer.lemma_shape();
        }
        r
    }

    /// Records a change of the signal with handle `signal_id` to `value`.
    pub fn signal_change(&mut self, signal_id: FstSignalId, value: &[u8]) -> (r: Result<
        (),
        FstWriteError,
    >)
        requires
            old(self).wf(),
            old(self).has_room_spec(),
        ensures
            final(self).wf(),
            final(self).output() == old(self).output(),
            final(self).header() == old(self).header(),
            buffer_shape(final(self).buffer()),
            (r, final(self).buffer()) == signal_change_spec(old(self).buffer(), signal_id, value@),
            final(self).size_spec() == old(self).size_spec() + change_growth(
                old(self).buffer(),
                signal_id,
                value@,
            ),
    {
        let r = self.buffer.signal_change(signal_id, value);
        proof {
            self.buffer.lemma_shape();
        }
        r
    }

    /// Writes the current section as one value-change block and starts the
    /// next one.
    pub fn flush(&mut self) -> (r: Result<(), FstWriteError>)
        requires
            old(self).wf(),
            old(self).header().vc_section_count < u64::MAX,
        ensures
            r is Ok,
            final(self).wf(),
            final(self).has_room_spec(),
            final(self).output() == old(self).output() + section_bytes(
                old(self).buffer().start_time,
                old(self).buffer().end_time,
                old(self).buffer().frame,
                old(self).buffer().chains,
                time_table_bytes(old(self).buffer().times),
                old(self).buffer().times.len(),
            ),
            final(self).buffer() == after_flush(old(self).buffer()),
            buffer_shape(final(self).buffer()),
            final(self).size_spec() == var_bytes(old(self).buffer().end_time as nat).len() + 4
                * old(self).buffer().lens.len(),
            final(self).header() == (Header {
                vc_section_count: (old(self).header().vc_section_count + 1) as u64,
                ..old(self).header()
            }),
    {
        self.buffer.flush(&mut self.out);
        self.header.vc_section_count = self.header.vc_section_count + 1;
        proof {
            self.buffer.lemma_shape();
        }
        Ok(())
    }

    /// The bytes held by the parts that grow: the time table and the
    /// change lists of the current section.
    pub closed spec fn size_spec(&self) -> nat {
        self.buffer.size_spec()
    }

    /// The bytes held by the parts that grow.
    pub fn size(&self) -> (r: usize)
        requires
            self.wf(),
        ensures
            r == self.size_spec(),
    {
        self.buffer.size()
    }

    /// Writes the last section and the final header, and returns the bytes
    /// of the file.
    pub fn finish(self) -> (r: Result<Vec<u8>, FstWriteError>)
        requires
            self.wf(),
            self.header().vc_section_count < u64::MAX,
        ensures
            r matches Ok(file) && {
                let body = self.output() + section_bytes(
                    self.buffer().start_time,
                    self.buffer().end_time,
                    self.buffer().frame,
                    self.buffer().chains,
                    time_table_bytes(self.buffer().times),
                    self.buffer().times.len(),
                );
                file@ == header_bytes(finished_header(self.header(), self.buffer().end_time))
                    + body.subrange(330, body.len() as int)
            },
    {
        let mut out = self.out;
        let mut buffer = self.buffer;
        let end_time = buffer.flush(&mut out);
        let mut header = self.header;
        header.end_time = end_time;
        header.vc_section_count = header.vc_section_count + 1;
        let mut head: Vec<u8> = Vec::new();
        let ok = write_header(&mut head, &header);
        proof {
            lemma_header_len(header);
        }
        copy_into(&mut out, 0, head.as_slice());
        proof {
            assert(header == finished_header(self.header(), self.buffer().end_time));
            assert(out@ =~= header_bytes(header) + out@.subrange(330, out@.len() as int));
        }
        Ok(out)
    }
}


} // verus!
