// Byte encodings, the change lists, the value encoder and the error cases.

use fst_writer::blocks::{write_geometry, write_hierarchy_bytes, write_hierarchy_var};
use fst_writer::bytes::{read_variant_u64, write_u64, write_variant_i64, write_variant_u64};
use fst_writer::encode::{
    encode_9_value, expand_special_vector_cases, is_digital, write_multi_bit_signal,
    write_one_bit_signal, write_real_signal,
};
use fst_writer::section::write_offset_table;
use fst_writer::{
    FstFileType, FstHeaderWriter, FstInfo, FstScopeType, FstSignalId, FstSignalType,
    FstVarDirection, FstVarType, FstWriteError, MultiVecLists, SingleVecLists,
};

fn info() -> FstInfo {
    FstInfo {
        start_time: 0,
        timescale_exponent: -9,
        version: "v".to_string(),
        date: "d".to_string(),
        file_type: FstFileType::Vhdl,
    }
}

#[test]
fn unit_test_fixed_len_lists() {
    let mut dut = SingleVecLists::new(2);
    dut.append(0, &[0], Some(1));
    assert_eq!(dut.extract_list(0, Some(1)), [0]);
}

#[test]
fn lists_match_reference_variable_length() {
    let num_lists = 16;
    let mut dut = SingleVecLists::new(num_lists);
    let mut reference = MultiVecLists::new(num_lists);
    let mut state: u32 = 7;
    for k in 0..200usize {
        state = state.wrapping_mul(1_103_515_245).wrapping_add(12345);
        let list = (state as usize >> 8) % num_lists;
        let len = (state as usize >> 16) % 200;
        let data = (0..len).map(|b| (b + k) as u8).collect::<Vec<_>>();
        dut.append(list, &data, None);
        reference.append(list, &data);
    }
    for list in 0..num_lists {
        assert_eq!(dut.extract_list(list, None), reference.extract_list(list));
    }
    dut.clear();
    for list in 0..num_lists {
        assert!(dut.extract_list(list, None).is_empty());
    }
}

#[test]
fn lists_match_reference_fixed_length() {
    for len in [1usize, 3, 256] {
        let num_lists = 5;
        let mut dut = SingleVecLists::new(num_lists);
        let mut reference = MultiVecLists::new(num_lists);
        for k in 0..40usize {
            let list = (k * 7) % num_lists;
            let data = (0..len).map(|b| (b * 3 + k) as u8).collect::<Vec<_>>();
            dut.append(list, &data, Some(len));
            reference.append(list, &data);
        }
        for list in 0..num_lists {
            assert_eq!(dut.extract_list(list, Some(len)), reference.extract_list(list));
        }
    }
}

#[test]
fn variant_round_trip() {
    for v in [0u64, 1, 127, 128, 300, 16_383, 16_384, u32::MAX as u64, u64::MAX] {
        let mut out = Vec::new();
        let n = write_variant_u64(&mut out, v);
        assert_eq!(n, out.len());
        out.extend_from_slice(&[0xff, 0x01]);
        assert_eq!(read_variant_u64(&out), (v, n));
    }
}

#[test]
fn variant_bytes() {
    let mut out = Vec::new();
    assert_eq!(write_variant_u64(&mut out, 0), 1);
    assert_eq!(out, [0x00]);
    let mut out = Vec::new();
    write_variant_u64(&mut out, 300);
    assert_eq!(out, [0xac, 0x02]);
    let mut out = Vec::new();
    assert_eq!(write_variant_u64(&mut out, u64::MAX), 10);
    assert_eq!(out[9], 0x01);
}

#[test]
fn signed_variant_bytes() {
    let cases: [(i64, &[u8]); 6] = [
        (0, &[0x00]),
        (-1, &[0x7f]),
        (63, &[0x3f]),
        (64, &[0xc0, 0x00]),
        (-64, &[0x40]),
        (-65, &[0xbf, 0x7f]),
    ];
    for (v, expected) in cases {
        let mut out = Vec::new();
        assert_eq!(write_variant_i64(&mut out, v), expected.len());
        assert_eq!(out, expected);
    }
}

#[test]
fn big_endian_u64() {
    let mut out = vec![9u8];
    write_u64(&mut out, 0x0102_0304_0506_0708);
    assert_eq!(out, [9, 1, 2, 3, 4, 5, 6, 7, 8]);
}

#[test]
fn special_value_expansion() {
    assert_eq!(expand_special_vector_cases(b"1", 4), Some(b"0001".to_vec()));
    assert_eq!(expand_special_vector_cases(b"x", 4), Some(b"xxxx".to_vec()));
    assert_eq!(expand_special_vector_cases(b"Z", 4), Some(b"ZZZZ".to_vec()));
    assert_eq!(expand_special_vector_cases(b"2", 4), None);
    assert_eq!(expand_special_vector_cases(b"01", 4), Some(b"0001".to_vec()));
    assert_eq!(expand_special_vector_cases(b"0000", 4), None);
}

#[test]
fn nine_value_codes() {
    let cases = [
        (b'x', 0u8),
        (b'X', 0),
        (b'z', 1),
        (b'H', 2),
        (b'u', 3),
        (b'W', 4),
        (b'l', 5),
        (b'-', 6),
        (b'?', 7),
    ];
    for (c, code) in cases {
        assert_eq!(encode_9_value(c), Some(code));
    }
    assert_eq!(encode_9_value(b'1'), None);
    assert_eq!(encode_9_value(b'a'), None);
}

#[test]
fn one_bit_encoding() {
    let mut out = Vec::new();
    write_one_bit_signal(&mut out, 3, b'1').unwrap();
    assert_eq!(out, [(3 << 2) | (1 << 1)]);
    let mut out = Vec::new();
    write_one_bit_signal(&mut out, 2, b'z').unwrap();
    assert_eq!(out, [(2 << 4) | (1 << 1) | 1]);
    let mut out = Vec::new();
    assert_eq!(
        write_one_bit_signal(&mut out, 0, b'2'),
        Err(FstWriteError::InvalidCharacter('2'))
    );
    assert!(out.is_empty());
}

#[test]
fn multi_bit_encoding() {
    assert!(is_digital(b"0101"));
    assert!(!is_digital(b"01x1"));
    let mut out = Vec::new();
    write_multi_bit_signal(&mut out, 5, b"1010101011");
    assert_eq!(out, [5 << 1, 0b1010_1010, 0b1100_0000]);
    let mut out = Vec::new();
    write_multi_bit_signal(&mut out, 1, b"1x");
    assert_eq!(out, [(1 << 1) | 1, b'1', b'x']);
}

#[test]
fn offset_table_encoding() {
    let mut out = Vec::new();
    write_offset_table(&mut out, &[1, 0, 0, 5, 0]);
    // offset 1, two empty signals, offset +4, one empty signal
    assert_eq!(out, [0x03, 0x04, 0x09, 0x02]);
}

#[test]
fn hierarchy_var_record() {
    let mut out = Vec::new();
    write_hierarchy_var(
        &mut out,
        FstVarType::Port,
        FstVarDirection::Input,
        "b",
        FstSignalType::bit_vec(16),
        0,
    );
    assert_eq!(out, [18, 1, b'b', 0, 50, 0]);
    let mut out = Vec::new();
    write_hierarchy_var(
        &mut out,
        FstVarType::Real,
        FstVarDirection::Implicit,
        "r",
        FstSignalType::real_number(),
        2,
    );
    assert_eq!(out, [3, 0, b'r', 0, 0, 2]);
}

#[test]
fn geometry_block() {
    let mut out = Vec::new();
    write_geometry(
        &mut out,
        &[FstSignalType::bit_vec(1), FstSignalType::real_number(), FstSignalType::bit_vec(300)],
    );
    let mut expected = vec![3u8];
    expected.extend_from_slice(&28u64.to_be_bytes());
    expected.extend_from_slice(&4u64.to_be_bytes());
    expected.extend_from_slice(&3u64.to_be_bytes());
    expected.extend_from_slice(&[1, 0, 0xac, 0x02]);
    assert_eq!(out, expected);
}

#[test]
fn hierarchy_is_compressed() {
    let records = vec![b'a'; 1000];
    let mut out = Vec::new();
    write_hierarchy_bytes(&mut out, &records);
    assert_eq!(out[0], 6);
    let section_len = u64::from_be_bytes(out[1..9].try_into().unwrap());
    assert_eq!(section_len as usize, out.len() - 1);
    assert_eq!(u64::from_be_bytes(out[9..17].try_into().unwrap()), 1000);
    assert!(out.len() - 17 < 1000);
    assert_eq!(lz4_flex::decompress(&out[17..], 1000).unwrap(), records);
}

#[test]
fn header_is_fixed_size() {
    let writer = FstHeaderWriter::new(&info()).unwrap();
    let body = writer.finish().unwrap();
    let file = body.finish().unwrap();
    assert_eq!(file[0], 0);
    assert_eq!(u64::from_be_bytes(file[1..9].try_into().unwrap()), 329);
    // one value change section was written
    assert_eq!(u64::from_be_bytes(file[65..73].try_into().unwrap()), 1);
    assert_eq!(file[73], (-9i8) as u8);
    assert_eq!(file[321], 1);
}

#[test]
fn version_too_long() {
    let mut i = info();
    i.version = "v".repeat(128);
    match FstHeaderWriter::new(&i) {
        Err(FstWriteError::StringTooLong(128, s)) => assert_eq!(s, i.version),
        _ => panic!("expected an error"),
    }
    let mut i = info();
    i.version = "v".repeat(127);
    i.date = "d".repeat(119);
    match FstHeaderWriter::new(&i) {
        Err(FstWriteError::StringTooLong(119, s)) => assert_eq!(s, i.date),
        _ => panic!("expected an error"),
    }
}

#[test]
fn name_too_long() {
    let mut writer = FstHeaderWriter::new(&info()).unwrap();
    let fits = "n".repeat(512);
    assert_eq!(writer.scope(&fits, "c", FstScopeType::Module), Ok(()));
    let long = "n".repeat(513);
    assert_eq!(
        writer.scope(&long, "c", FstScopeType::Module),
        Err(FstWriteError::StringTooLong(512, long.clone()))
    );
    assert_eq!(
        writer.var(
            &long,
            FstSignalType::bit_vec(1),
            FstVarType::Wire,
            FstVarDirection::Implicit,
            None
        ),
        Err(FstWriteError::StringTooLong(512, long))
    );
}

#[test]
fn alias_of_unknown_signal() {
    let mut writer = FstHeaderWriter::new(&info()).unwrap();
    let bad = FstSignalId::from_index(1);
    assert_eq!(
        writer.var(
            "a",
            FstSignalType::bit_vec(1),
            FstVarType::Wire,
            FstVarDirection::Implicit,
            Some(bad)
        ),
        Err(FstWriteError::InvalidSignalId(bad))
    );
}

#[test]
fn body_errors() {
    let mut writer = FstHeaderWriter::new(&info()).unwrap();
    let a = writer
        .var(
            "a",
            FstSignalType::bit_vec(1),
            FstVarType::Wire,
            FstVarDirection::Implicit,
            None,
        )
        .unwrap();
    let b = writer
        .var(
            "b",
            FstSignalType::bit_vec(4),
            FstVarType::Wire,
            FstVarDirection::Implicit,
            None,
        )
        .unwrap();
    let mut writer = writer.finish().unwrap();
    writer.time_change(10).unwrap();
    let size = writer.size();
    assert_eq!(
        writer.time_change(3),
        Err(FstWriteError::TimeDecrease(10, 3))
    );
    assert_eq!(writer.size(), size);
    assert_eq!(writer.time_change(10), Ok(()));
    let unknown = FstSignalId::from_index(3);
    assert_eq!(
        writer.signal_change(unknown, b"1"),
        Err(FstWriteError::InvalidSignalId(unknown))
    );
    let zero = FstSignalId::from_index(0);
    assert_eq!(
        writer.signal_change(zero, b"1"),
        Err(FstWriteError::InvalidSignalId(zero))
    );
    assert_eq!(
        writer.signal_change(b, b"00000"),
        Err(FstWriteError::InvalidValueLength(4, 5))
    );
    assert_eq!(
        writer.signal_change(b, b""),
        Err(FstWriteError::InvalidValueLength(4, 0))
    );
    assert_eq!(
        writer.signal_change(b, b"2"),
        Err(FstWriteError::InvalidCharacter('2'))
    );
    assert_eq!(
        writer.signal_change(a, b"q"),
        Err(FstWriteError::InvalidCharacter('q'))
    );
    assert_eq!(writer.size(), size);
    writer.signal_change(a, b"1").unwrap();
    let after_first = writer.size();
    assert!(after_first > size);
    writer.signal_change(a, b"1").unwrap();
    assert_eq!(writer.size(), after_first);
}

#[test]
fn non_canonical_variant_is_read() {
    // a zero written in two bytes, as the reader of the format accepts it
    assert_eq!(read_variant_u64(&[0x80, 0x00, 0x05]), (0, 2));
    // bits past the 64th are dropped
    let mut bytes = vec![0xffu8; 9];
    bytes.push(0x7f);
    assert_eq!(read_variant_u64(&bytes), (u64::MAX, 10));
}

#[test]
fn large_time_deltas() {
    let mut out = Vec::new();
    write_one_bit_signal(&mut out, u64::MAX >> 4, b'x').unwrap();
    let (v, n) = read_variant_u64(&out);
    assert_eq!(n, out.len());
    assert_eq!(v, ((u64::MAX >> 4) << 4) | 1);
    let mut out = Vec::new();
    write_multi_bit_signal(&mut out, u64::MAX >> 1, b"10");
    let (v, n) = read_variant_u64(&out);
    assert_eq!(v, (u64::MAX >> 1) << 1);
    assert_eq!(&out[n..], [0b1000_0000]);
}

#[test]
fn real_encoding() {
    let value = 2.5f64.to_le_bytes();
    let mut out = Vec::new();
    write_real_signal(&mut out, 3, &value);
    let mut expected = vec![3u8 << 1];
    expected.extend_from_slice(&value);
    assert_eq!(out, expected);
}

#[test]
fn real_signal_changes() {
    let mut writer = FstHeaderWriter::new(&info()).unwrap();
    let r = writer
        .var(
            "r",
            FstSignalType::real_number(),
            FstVarType::Real,
            FstVarDirection::Implicit,
            None,
        )
        .unwrap();
    let mut writer = writer.finish().unwrap();
    writer.time_change(1).unwrap();
    let size = writer.size();
    // a real takes exactly its 8 bytes
    assert_eq!(
        writer.signal_change(r, b"1"),
        Err(FstWriteError::InvalidValueLength(8, 1))
    );
    assert_eq!(writer.size(), size);
    writer.signal_change(r, &1.5f64.to_le_bytes()).unwrap();
    // one record: back pointer, length, delta with bit 0 clear, 8 bytes
    assert_eq!(writer.size(), size + 4 + 1 + 1 + 8);
}

#[test]
fn sizes_of_equal_changes() {
    let make = || {
        let mut writer = FstHeaderWriter::new(&info()).unwrap();
        let s = writer
            .var(
                "s",
                FstSignalType::bit_vec(8),
                FstVarType::Wire,
                FstVarDirection::Implicit,
                None,
            )
            .unwrap();
        let mut writer = writer.finish().unwrap();
        assert_eq!(writer.size(), 4);
        writer.time_change(1).unwrap();
        (writer, s)
    };
    let (mut short, s1) = make();
    let (mut full, s2) = make();
    short.signal_change(s1, b"1").unwrap();
    full.signal_change(s2, b"00000001").unwrap();
    assert_eq!(short.size(), full.size());
    assert_eq!(short.finish().unwrap(), full.finish().unwrap());
}
