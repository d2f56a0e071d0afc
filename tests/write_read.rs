// Writes FST files with the library and reads them back with the wellen
// library (which uses fst-reader).

use fst_writer::{
    FstBodyWriter, FstFileType, FstHeaderWriter, FstInfo, FstScopeType, FstSignalType,
    FstVarDirection, FstVarType,
};
use wellen::{SignalRef, Time};

fn info(version: &str, date: &str) -> FstInfo {
    FstInfo {
        start_time: 0,
        timescale_exponent: 0,
        version: version.to_string(),
        date: date.to_string(),
        file_type: FstFileType::Verilog,
    }
}

fn read(bytes: Vec<u8>) -> wellen::simple::Waveform {
    wellen::simple::read_from_reader(std::io::Cursor::new(bytes)).unwrap()
}

fn signal_values_to_string(signal: &wellen::Signal, time_table: &[Time]) -> String {
    let mut out = String::new();
    for (time, value) in signal.iter_changes() {
        out.push_str(&format!(
            "({}: {}), ",
            time_table[time as usize],
            value.to_bit_string().unwrap()
        ));
    }
    out.pop().unwrap();
    out.pop().unwrap();
    out
}

#[test]
fn write_read_empty() {
    let version = "test 0.2.3";
    let date = "2034-10-10";

    let mut writer = FstHeaderWriter::new(&info(version, date)).unwrap();
    let _var = writer
        .var(
            "a",
            FstSignalType::bit_vec(1),
            FstVarType::Logic,
            FstVarDirection::Implicit,
            None,
        )
        .unwrap();
    let writer = writer.finish().unwrap();
    let bytes = writer.finish().unwrap();

    let wave = read(bytes);
    assert!(wave.time_table().is_empty());
    assert_eq!(wave.hierarchy().version(), version);
    assert_eq!(wave.hierarchy().date(), date);
    let h = wave.hierarchy();
    let names = h.vars().map(|r| h[r].full_name(h)).collect::<Vec<_>>();
    assert_eq!(names, ["a"]);
}

/// The trace of the simple scenario, flushed between time 5 and time 7
/// when `flush` is set.
fn simple_trace(flush: bool) -> Vec<u8> {
    let mut writer = FstHeaderWriter::new(&info("test 0.2.3", "2034-10-10")).unwrap();
    writer
        .scope("simple", "Simple", FstScopeType::Module)
        .unwrap();
    let a = writer
        .var(
            "a",
            FstSignalType::bit_vec(1),
            FstVarType::Logic,
            FstVarDirection::Implicit,
            None,
        )
        .unwrap();
    let b = writer
        .var(
            "b",
            FstSignalType::bit_vec(16),
            FstVarType::Port,
            FstVarDirection::Input,
            None,
        )
        .unwrap();
    let _ = writer
        .var(
            "a_alias",
            FstSignalType::bit_vec(1),
            FstVarType::Port,
            FstVarDirection::Output,
            Some(a),
        )
        .unwrap();
    writer.up_scope().unwrap();

    let mut writer = writer.finish().unwrap();
    // provide an initial value for a
    writer.signal_change(a, b"0").unwrap();
    writer.time_change(1).unwrap();
    writer.signal_change(a, b"1").unwrap();
    writer.signal_change(b, b"1010101010101010").unwrap();
    writer.time_change(5).unwrap();
    writer.signal_change(a, b"0").unwrap();
    writer.signal_change(b, b"101010XX10101010").unwrap();

    if flush {
        // a new value change section
        writer.flush().unwrap();
    }

    writer.time_change(7).unwrap();
    writer.signal_change(a, b"X").unwrap();
    writer.signal_change(b, b"0").unwrap();

    writer.time_change(8).unwrap();
    writer.signal_change(a, b"Z").unwrap();

    writer.finish().unwrap()
}

#[test]
fn write_read_simple() {
    let version = "test 0.2.3";
    let date = "2034-10-10";
    let mut wave = read(simple_trace(true));

    // timetable
    assert_eq!(wave.time_table(), [0, 1, 5, 7, 8]);

    // hierarchy
    assert_eq!(wave.hierarchy().date(), date);
    assert_eq!(wave.hierarchy().version(), version);
    {
        let h = wave.hierarchy();
        let top = h.first_scope().unwrap();
        assert_eq!(top.full_name(h), "simple");
        let vars = top.vars(h).map(|r| &h[r]).collect::<Vec<_>>();
        let var_names = vars.iter().map(|v| v.full_name(h)).collect::<Vec<_>>();
        assert_eq!(var_names, ["simple.a", "simple.b", "simple.a_alias"]);
        let signal_ids = vars
            .iter()
            .map(|v| v.signal_ref().index())
            .collect::<Vec<_>>();
        assert_eq!(signal_ids, [0, 1, 0]);
    }

    // signal values
    let (a_ref, b_ref) = (
        SignalRef::from_index(0).unwrap(),
        SignalRef::from_index(1).unwrap(),
    );
    wave.load_signals(&[a_ref, b_ref]);
    let signal_a = wave.get_signal(a_ref).unwrap();
    assert_eq!(signal_a.get_first_time_idx(), Some(0));
    assert_eq!(signal_a.time_indices(), [0, 1, 2, 3, 4]);
    assert_eq!(
        signal_values_to_string(signal_a, wave.time_table()),
        "(0: 0), (1: 1), (5: 0), (7: x), (8: z)"
    );
    let signal_b = wave.get_signal(b_ref).unwrap();
    assert_eq!(
        signal_values_to_string(signal_b, wave.time_table()),
        "(0: xxxxxxxxxxxxxxxx), (1: 1010101010101010), (5: 101010xx10101010), (7: 0000000000000000)"
    );
}

#[test]
fn flushed_trace_reads_like_one_section() {
    let mut one = read(simple_trace(false));
    let mut two = read(simple_trace(true));
    assert_eq!(one.time_table(), two.time_table());
    let refs = [
        SignalRef::from_index(0).unwrap(),
        SignalRef::from_index(1).unwrap(),
    ];
    one.load_signals(&refs);
    two.load_signals(&refs);
    for r in refs {
        assert_eq!(
            signal_values_to_string(one.get_signal(r).unwrap(), one.time_table()),
            signal_values_to_string(two.get_signal(r).unwrap(), two.time_table())
        );
    }
}

#[test]
fn alias_reads_the_primary_signal() {
    let mut wave = read(simple_trace(false));
    let h = wave.hierarchy();
    let top = h.first_scope().unwrap();
    let vars = top.vars(h).map(|r| &h[r]).collect::<Vec<_>>();
    let a = vars[0].signal_ref();
    let alias = vars[2].signal_ref();
    assert_eq!(a, alias);
    wave.load_signals(&[alias]);
    assert_eq!(
        signal_values_to_string(wave.get_signal(alias).unwrap(), wave.time_table()),
        "(0: 0), (1: 1), (5: 0), (7: x), (8: z)"
    );
}

/// Writes one 8-bit signal with the given changes and reads them back.
fn eight_bit_trace(changes: &[(u64, &[u8])]) -> (Vec<Time>, String) {
    let mut writer = FstHeaderWriter::new(&info("v", "d")).unwrap();
    let s = writer
        .var(
            "s",
            FstSignalType::bit_vec(8),
            FstVarType::Logic,
            FstVarDirection::Output,
            None,
        )
        .unwrap();
    let mut writer: FstBodyWriter = writer.finish().unwrap();
    for (time, value) in changes {
        writer.time_change(*time).unwrap();
        writer.signal_change(s, value).unwrap();
    }
    let mut wave = read(writer.finish().unwrap());
    let r = SignalRef::from_index(0).unwrap();
    wave.load_signals(&[r]);
    let values = signal_values_to_string(wave.get_signal(r).unwrap(), wave.time_table());
    (wave.time_table().to_vec(), values)
}

#[test]
fn short_value_is_zero_extended() {
    let (_, short) = eight_bit_trace(&[(1, b"1")]);
    let (_, full) = eight_bit_trace(&[(1, b"00000001")]);
    assert_eq!(short, full);
    assert_eq!(short, "(0: xxxxxxxx), (1: 00000001)");
}

#[test]
fn repeated_value_is_recorded_once() {
    let (times, values) = eight_bit_trace(&[(1, b"00000011"), (2, b"00000011"), (3, b"00000100")]);
    assert_eq!(times, [0, 1, 2, 3]);
    assert_eq!(values, "(0: xxxxxxxx), (1: 00000011), (3: 00000100)");
}

#[test]
fn long_random_trace_reads_back() {
    // a fixed pseudo-random sequence of non-decreasing times and values
    let mut state: u64 = 0x2545_f491_4f6c_dd1d;
    let mut next = || {
        state ^= state << 13;
        state ^= state >> 7;
        state ^= state << 17;
        state
    };
    let mut time = 0u64;
    let mut changes: Vec<(u64, Vec<u8>)> = Vec::new();
    for _ in 0..300 {
        let r = next();
        time += r % 2;
        let value = format!("{:08b}", (r >> 8) as u8);
        changes.push((time, value.into_bytes()));
    }
    let borrowed = changes
        .iter()
        .map(|(t, v)| (*t, v.as_slice()))
        .collect::<Vec<_>>();
    let (times, values) = eight_bit_trace(&borrowed);

    // values written before time first moves form the frame at time 0; after
    // that, each write that changes the value is one change
    let mut expected_times = vec![0u64];
    let mut current = b"xxxxxxxx".to_vec();
    let mut expected: Vec<String> = Vec::new();
    for (t, v) in changes.iter() {
        if *t == 0 {
            current = v.clone();
            continue;
        }
        if expected.is_empty() {
            expected.push(format!("(0: {})", String::from_utf8(current.clone()).unwrap()));
        }
        if *expected_times.last().unwrap() != *t {
            expected_times.push(*t);
        }
        if *v != current {
            expected.push(format!("({}: {})", t, String::from_utf8(v.clone()).unwrap()));
            current = v.clone();
        }
    }
    assert_eq!(times, expected_times);
    assert_eq!(values, expected.join(", "));
}
