use flumedb::offset_log::{decode, encode, size_of_framing_bytes, OffsetLog, OffsetLogIter};
use flumedb::offset_log::{FlumeOffsetLogError, OffsetCodec};

fn json_value_of(bytes: &[u8]) -> u64 {
    let parsed: serde_json::Value = serde_json::from_slice(bytes).unwrap();
    match &parsed["value"] {
        serde_json::Value::Number(num) => num.as_u64().unwrap(),
        _ => panic!(),
    }
}

#[test]
fn simple_encode() {
    let to_encode = vec![1, 2, 3, 4];
    let mut buf: Vec<u8> = Vec::with_capacity(16);
    encode::<4>(0, &to_encode, &mut buf).unwrap();

    assert_eq!(&buf[..], &[0, 0, 0, 4, 1, 2, 3, 4, 0, 0, 0, 4, 0, 0, 0, 16])
}

#[test]
fn simple_encode_u64() {
    let to_encode = vec![1, 2, 3, 4];
    let mut buf: Vec<u8> = Vec::with_capacity(20);
    encode::<8>(0, &to_encode, &mut buf).unwrap();

    assert_eq!(
        &buf[..],
        &[0, 0, 0, 4, 1, 2, 3, 4, 0, 0, 0, 4, 0, 0, 0, 0, 0, 0, 0, 20]
    )
}

#[test]
fn encode_multi() {
    let mut buf: Vec<u8> = Vec::with_capacity(32);

    encode::<4>(0, &[1, 2, 3, 4], &mut buf)
        .and_then(|offset| encode::<4>(offset, &[5, 6, 7, 8], &mut buf))
        .unwrap();

    assert_eq!(
        &buf[..],
        &[
            0, 0, 0, 4, 1, 2, 3, 4, 0, 0, 0, 4, 0, 0, 0, 16, 0, 0, 0, 4, 5, 6, 7, 8, 0, 0, 0,
            4, 0, 0, 0, 32
        ]
    )
}

#[test]
fn encode_multi_u64() {
    let mut buf: Vec<u8> = Vec::with_capacity(40);

    encode::<8>(0, &[1, 2, 3, 4], &mut buf)
        .and_then(|offset| encode::<8>(offset, &[5, 6, 7, 8], &mut buf))
        .unwrap();

    assert_eq!(
        &buf[0..20],
        &[0, 0, 0, 4, 1, 2, 3, 4, 0, 0, 0, 4, 0, 0, 0, 0, 0, 0, 0, 20]
    );
    assert_eq!(
        &buf[20..],
        &[0, 0, 0, 4, 5, 6, 7, 8, 0, 0, 0, 4, 0, 0, 0, 0, 0, 0, 0, 40]
    )
}

#[test]
fn simple() {
    let frame_bytes: &[u8] = &[0, 0, 0, 8, 1, 2, 3, 4, 5, 6, 7, 8, 0, 0, 0, 8, 0, 0, 0, 20];

    let v = decode::<4>(frame_bytes).unwrap().unwrap();
    assert_eq!(&v, &[1, 2, 3, 4, 5, 6, 7, 8]);
}

#[test]
fn simple_u64() {
    let frame_bytes: &[u8] = &[
        0, 0, 0, 8, 1, 2, 3, 4, 5, 6, 7, 8, 0, 0, 0, 8, 0, 0, 0, 0, 0, 0, 0, 24,
    ];

    let v = decode::<8>(frame_bytes).unwrap().unwrap();
    assert_eq!(&v, &[1, 2, 3, 4, 5, 6, 7, 8]);
}

#[test]
fn multiple() {
    let frame_bytes: &[u8] = &[
        0, 0, 0, 8, 1, 2, 3, 4, 5, 6, 7, 8, 0, 0, 0, 8, 0, 0, 0, 20, 0, 0, 0, 8, 9, 10, 11, 12,
        13, 14, 15, 16, 0, 0, 0, 8, 0, 0, 0, 40,
    ];

    let v1 = decode::<4>(frame_bytes).unwrap().unwrap();
    assert_eq!(&v1, &[1, 2, 3, 4, 5, 6, 7, 8]);
    let consumed = v1.len() + size_of_framing_bytes::<4>();
    let v2 = decode::<4>(&frame_bytes[consumed..]).unwrap().unwrap();
    assert_eq!(&v2, &[9, 10, 11, 12, 13, 14, 15, 16]);
}

#[test]
fn multiple_u64() {
    let frame_bytes: &[u8] = &[
        0, 0, 0, 8, 1, 2, 3, 4, 5, 6, 7, 8, 0, 0, 0, 8, 0, 0, 0, 0, 0, 0, 0, 24, 0, 0, 0, 8, 9,
        10, 11, 12, 13, 14, 15, 16, 0, 0, 0, 8, 0, 0, 0, 0, 0, 0, 0, 48,
    ];

    let v1 = decode::<8>(frame_bytes).unwrap().unwrap();
    assert_eq!(&v1, &[1, 2, 3, 4, 5, 6, 7, 8]);
    let consumed = v1.len() + size_of_framing_bytes::<8>();
    let v2 = decode::<8>(&frame_bytes[consumed..]).unwrap().unwrap();
    assert_eq!(&v2, &[9, 10, 11, 12, 13, 14, 15, 16]);
}

#[test]
fn returns_ok_none_when_buffer_is_incomplete_frame() {
    let frame_bytes: &[u8] = &[0, 0, 0, 8, 1, 2, 3, 4, 5, 6, 7, 8, 0, 0, 0, 9, 0, 0, 0];
    let result = decode::<4>(frame_bytes);

    match result {
        Ok(None) => assert!(true),
        _ => assert!(false),
    }
}

#[test]
fn returns_ok_none_when_buffer_less_than_4_bytes() {
    let frame_bytes: &[u8] = &[0, 0, 0];
    let result = decode::<4>(frame_bytes);

    match result {
        Ok(None) => assert!(true),
        _ => assert!(false),
    }
}

#[test]
fn errors_with_bad_second_size_value() {
    let frame_bytes: &[u8] = &[0, 0, 0, 8, 1, 2, 3, 4, 5, 6, 7, 8, 0, 0, 0, 9, 0, 0, 0, 20];
    let result = decode::<4>(frame_bytes);

    match result {
        Ok(Some(_)) => assert!(false),
        _ => assert!(true),
    }
}

#[test]
fn corrupt_frame_is_reported_as_such() {
    let frame_bytes: &[u8] = &[0, 0, 0, 8, 1, 2, 3, 4, 5, 6, 7, 8, 0, 0, 0, 9, 0, 0, 0, 20];
    assert_eq!(
        decode::<4>(frame_bytes).unwrap_err(),
        FlumeOffsetLogError::CorruptLogFile
    );
}

#[test]
fn read_from_a_file() {
    let mut writer = OffsetLog::<4>::new();
    for i in 0..5 {
        let payload = format!("{{\"value\": {}}}", i);
        writer.append(payload.as_bytes()).unwrap();
    }

    let mut offset_log = OffsetLog::<4>::with_bytes(writer.store.clone());
    let result = offset_log.get(0).map(|val| json_value_of(&val)).unwrap();
    assert_eq!(result, 0);
}

#[test]
fn write_to_a_file() {
    let test_vec = b"{\"value\": 1}";

    let mut offset_log = OffsetLog::<4>::new();
    let result = offset_log
        .append(test_vec)
        .and_then(|_| offset_log.get(0))
        .map(|val| json_value_of(&val))
        .unwrap();
    assert_eq!(result, 1);
}

#[test]
fn batch_write_to_a_file() {
    let test_vec: &[u8] = b"{\"value\": 1}";

    let mut test_vecs: Vec<Vec<u8>> = Vec::new();
    for _ in 0..100 {
        test_vecs.push(test_vec.to_vec());
    }

    let mut offset_log = OffsetLog::<4>::new();
    let result = offset_log
        .append_batch(&test_vecs)
        .and_then(|sequences| {
            assert_eq!(sequences.len(), test_vecs.len());
            assert_eq!(sequences[0], 0);
            assert_eq!(
                sequences[1],
                test_vec.len() as u64 + size_of_framing_bytes::<4>() as u64
            );
            offset_log.get(0)
        })
        .map(|val| json_value_of(&val))
        .unwrap();
    assert_eq!(result, 1);
}

#[test]
fn arbitrary_read_and_write_to_a_file() {
    let mut offset_log = OffsetLog::<4>::new();

    let data_to_write: Vec<&[u8]> = vec![b"{\"value\": 1}", b"{\"value\": 2}", b"{\"value\": 3}"];

    let seqs: Vec<u64> = data_to_write
        .iter()
        .map(|data| offset_log.append(*data).unwrap())
        .collect();

    let sum: u64 = seqs
        .iter()
        .rev()
        .map(|seq| offset_log.get(*seq).unwrap())
        .map(|val| json_value_of(&val))
        .sum();

    assert_eq!(sum, 6);
}

#[test]
fn offset_log_as_iter() {
    let mut offset_log = OffsetLog::<4>::new();
    for i in 0..10 {
        let payload = format!("{{\"value\": {}}}", i);
        offset_log.append(payload.as_bytes()).unwrap();
    }

    let mut log_iter = OffsetLogIter::<4>::new(offset_log.store.clone());

    let mut sum: u64 = 0;
    for _ in 0..5 {
        let data = log_iter.next().unwrap();
        sum += json_value_of(&data.data_buffer);
    }

    assert_eq!(sum, 10);
}

#[test]
fn iterated_records_carry_their_offsets() {
    let mut offset_log = OffsetLog::<4>::new();
    let mut expected: Vec<(u64, Vec<u8>)> = Vec::new();
    for i in 0..4u8 {
        let payload = vec![i; (i as usize) + 1];
        let offset = offset_log.append(&payload).unwrap();
        expected.push((offset, payload));
    }

    let mut log_iter = OffsetLogIter::<4>::new(offset_log.store.clone());
    for (offset, payload) in &expected {
        let data = log_iter.next().unwrap();
        assert_eq!(data.id, *offset);
        assert_eq!(&data.data_buffer, payload);
    }
    assert!(log_iter.next().is_none());
}

#[test]
fn iterator_with_starting_offset_resumes_mid_log() {
    let mut offset_log = OffsetLog::<4>::new();
    let first = offset_log.append(b"abc").unwrap();
    let second = offset_log.append(b"defgh").unwrap();
    assert_eq!(first, 0);
    assert_eq!(second, 15);

    let mut log_iter = OffsetLogIter::<4>::with_starting_offset(offset_log.store.clone(), second);
    let data = log_iter.next().unwrap();
    assert_eq!(data.id, second);
    assert_eq!(&data.data_buffer, b"defgh");
    assert!(log_iter.next().is_none());
}

#[test]
fn reopened_log_reads_the_same_records() {
    let mut offset_log = OffsetLog::<4>::new();
    let first = offset_log.append(b"{\"value\": 7}").unwrap();
    let second = offset_log.append(b"{\"value\": 8}").unwrap();
    let on_disk = offset_log.store.clone();

    let mut reopened = OffsetLog::<4>::with_bytes(on_disk.clone());
    assert_eq!(reopened.length, on_disk.len() as u64);
    assert_eq!(json_value_of(&reopened.get(first).unwrap()), 7);
    assert_eq!(json_value_of(&reopened.get(second).unwrap()), 8);
}

#[test]
fn get_past_the_end_reports_a_short_buffer() {
    let mut offset_log = OffsetLog::<4>::new();
    offset_log.append(b"xyz").unwrap();
    assert_eq!(
        offset_log.get(500).unwrap_err(),
        FlumeOffsetLogError::DecodeBufferSizeTooSmall
    );
}

#[test]
fn latest_tracks_the_last_confirmed_read() {
    let mut offset_log = OffsetLog::<4>::new();
    let first = offset_log.append(b"one").unwrap();
    let second = offset_log.append(b"two!").unwrap();
    assert_eq!(offset_log.latest(), 0);
    offset_log.get(second).unwrap();
    assert_eq!(offset_log.latest(), second);
    offset_log.get(first).unwrap();
    assert_eq!(offset_log.latest(), first);
}

#[test]
fn codec_streams_frames_with_their_offsets() {
    let mut writer = OffsetCodec::<4>::new();
    let mut buf: Vec<u8> = Vec::new();
    writer.encode(&[1, 2, 3, 4], &mut buf).unwrap();
    writer.encode(&[5, 6], &mut buf).unwrap();

    let mut reader = OffsetCodec::<4>::with_length(0);
    let first = reader.decode(&buf).unwrap().unwrap();
    assert_eq!(first.id, 0);
    assert_eq!(&first.data_buffer, &[1, 2, 3, 4]);
    let consumed = first.data_buffer.len() + size_of_framing_bytes::<4>();
    let second = reader.decode(&buf[consumed..]).unwrap().unwrap();
    assert_eq!(second.id, 16);
    assert_eq!(&second.data_buffer, &[5, 6]);
}

#[test]
fn simple_encode_returns_new_offset() {
    let mut buf: Vec<u8> = Vec::new();
    let new_offset = encode::<4>(0, &[1, 2, 3, 4], &mut buf).unwrap();
    assert_eq!(new_offset, 16);
    let mut buf8: Vec<u8> = Vec::new();
    let new_offset8 = encode::<8>(0, &[1, 2, 3, 4], &mut buf8).unwrap();
    assert_eq!(new_offset8, 20);
}
