use domus::tlv8::{CodecError, Tlv8Reader, Tlv8Writer, TlvType};

#[test]
fn test_write_and_read_simple_tlv() {
    let mut writer = Tlv8Writer::new();
    writer.add(TlvType::State, &[1]);
    writer.add(TlvType::Method, &[2]);

    let encoded = writer.to_vec();
    let reader = Tlv8Reader::new(&encoded);
    let result = reader.read().unwrap();

    assert_eq!(result, vec![(TlvType::State, vec![1]), (TlvType::Method, vec![2]),]);
}

#[test]
fn test_write_and_read_empty_value() {
    let mut writer = Tlv8Writer::new();
    writer.add(TlvType::Error, &[]);

    let encoded = writer.to_vec();
    let reader = Tlv8Reader::new(&encoded);
    let result = reader.read().unwrap();

    assert_eq!(result, vec![(TlvType::Error, vec![])]);
}

#[test]
fn test_write_and_read_255_byte_value() {
    let mut writer = Tlv8Writer::new();
    let data = vec![0; 255];
    writer.add(TlvType::PublicKey, &data);

    let encoded = writer.to_vec();
    let reader = Tlv8Reader::new(&encoded);
    let result = reader.read().unwrap();

    assert_eq!(result, vec![(TlvType::PublicKey, data)]);
}

#[test]
fn test_write_and_read_256_byte_value() {
    let mut writer = Tlv8Writer::new();
    let data = vec![0; 256];
    writer.add(TlvType::PublicKey, &data);

    let encoded = writer.to_vec();
    let reader = Tlv8Reader::new(&encoded);
    let result = reader.read().unwrap();

    assert_eq!(result, vec![(TlvType::PublicKey, data)]);
}

#[test]
fn test_write_and_read_large_value() {
    let mut writer = Tlv8Writer::new();
    let data = vec![0; 1000];
    writer.add(TlvType::EncryptedData, &data);

    let encoded = writer.to_vec();
    let reader = Tlv8Reader::new(&encoded);
    let result = reader.read().unwrap();

    assert_eq!(result.len(), 1);
    assert_eq!(result[0], (TlvType::EncryptedData, data));
}

#[test]
fn test_write_and_read_multiple_types() {
    let mut writer = Tlv8Writer::new();
    writer.add(TlvType::State, &[1]);
    writer.add(TlvType::Error, &[2, 3]);
    writer.add(TlvType::Certificate, &vec![4; 300]);

    let encoded = writer.to_vec();
    let reader = Tlv8Reader::new(&encoded);
    let result = reader.read().unwrap();

    assert_eq!(
        result,
        vec![
            (TlvType::State, vec![1]),
            (TlvType::Error, vec![2, 3]),
            (TlvType::Certificate, vec![4; 300]),
        ]
    );
}

#[test]
fn test_read_incomplete_tlv() {
    let data = vec![0x06, 0x01]; // Missing value byte
    let reader = Tlv8Reader::new(&data);
    assert!(reader.read().is_err());
}

#[test]
fn test_read_invalid_length() {
    let data = vec![0x06, 0x02, 0x01]; // Length 2 but only 1 byte of value
    let reader = Tlv8Reader::new(&data);
    assert!(reader.read().is_err());
}

#[test]
fn test_write_and_read_all_types() {
    let mut writer = Tlv8Writer::new();
    writer.add(TlvType::Method, &[1]);
    writer.add(TlvType::Identifier, &[2, 3]);
    writer.add(TlvType::Salt, &[4, 5, 6]);
    writer.add(TlvType::PublicKey, &vec![7; 300]);
    writer.add(TlvType::Proof, &[8, 9, 10, 11]);
    writer.add(TlvType::EncryptedData, &vec![12; 1000]);
    writer.add(TlvType::State, &[13]);
    writer.add(TlvType::Error, &[14]);
    writer.add(TlvType::RetryDelay, &[15, 16]);
    writer.add(TlvType::Certificate, &vec![17; 500]);
    writer.add(TlvType::Signature, &vec![18; 64]);
    writer.add(TlvType::Permissions, &[19]);
    writer.add(TlvType::FragmentData, &vec![20; 256]);
    writer.add(TlvType::FragmentLast, &vec![21; 100]);
    writer.add(TlvType::Separator, &[]);

    let encoded = writer.to_vec();
    let reader = Tlv8Reader::new(&encoded);
    let result = reader.read().unwrap();

    assert_eq!(result[0], (TlvType::Method, vec![1]));
    assert_eq!(result[1], (TlvType::Identifier, vec![2, 3]));
    assert_eq!(result[2], (TlvType::Salt, vec![4, 5, 6]));
    assert_eq!(result[3], (TlvType::PublicKey, vec![7; 300]));
    assert_eq!(result[4], (TlvType::Proof, vec![8, 9, 10, 11]));
    assert_eq!(result[5], (TlvType::EncryptedData, vec![12; 1000]));
    assert_eq!(result[6], (TlvType::State, vec![13]));
    assert_eq!(result[7], (TlvType::Error, vec![14]));
    assert_eq!(result[8], (TlvType::RetryDelay, vec![15, 16]));
    assert_eq!(result[9], (TlvType::Certificate, vec![17; 500]));
    assert_eq!(result[10], (TlvType::Signature, vec![18; 64]));
    assert_eq!(result[11], (TlvType::Permissions, vec![19]));
    assert_eq!(result[12], (TlvType::FragmentData, vec![20; 256]));
    assert_eq!(result[13], (TlvType::FragmentLast, vec![21; 100]));
    assert_eq!(result[14], (TlvType::Separator, vec![]));

    assert_eq!(15, result.len());
}

#[test]
fn test_encode_empty_value() {
    let mut writer = Tlv8Writer::new();
    writer.add(TlvType::Separator, &[]);

    let encoded = writer.to_vec();
    let expected = [0xFF, 0x00];

    assert_eq!(encoded, expected);
}

#[test]
fn test_write_and_read_boundary_values() {
    let mut writer = Tlv8Writer::new();
    writer.add(TlvType::State, &[0]);
    writer.add(TlvType::Error, &[255]);
    writer.add(TlvType::PublicKey, &vec![0; 254]);
    writer.add(TlvType::EncryptedData, &vec![255; 257]);

    let encoded = writer.to_vec();
    let reader = Tlv8Reader::new(&encoded);
    let result = reader.read().unwrap();

    assert_eq!(result[0], (TlvType::State, vec![0]));
    assert_eq!(result[1], (TlvType::Error, vec![255]));
    assert_eq!(result[2], (TlvType::PublicKey, vec![0; 254]));
    assert_eq!(result[3], (TlvType::EncryptedData, vec![255; 257]));
}

#[test]
fn test_decode_truncated_record() {
    // Two bytes announce one more value byte that never comes.
    let data = vec![0x06, 0x01];
    let reader = Tlv8Reader::new(&data);
    assert_eq!(reader.read().unwrap_err(), CodecError::Truncated);
}

#[test]
fn test_decode_length_overrun() {
    // A declared length of two with a single value byte behind it.
    let data = vec![0x06, 0x02, 0x01];
    let reader = Tlv8Reader::new(&data);
    assert_eq!(reader.read().unwrap_err(), CodecError::LengthOverrun);
}

#[test]
fn test_decode_invalid_tag() {
    // 0xEE names no tag.
    let data = vec![0xEE, 0x00];
    let reader = Tlv8Reader::new(&data);
    assert_eq!(reader.read().unwrap_err(), CodecError::InvalidTag);
}

#[test]
fn test_decode_single_trailing_byte() {
    let data = vec![0x06];
    let reader = Tlv8Reader::new(&data);
    assert_eq!(reader.read().unwrap_err(), CodecError::Truncated);
}

#[test]
fn test_chunk_counts_on_the_wire() {
    // A value of length L costs max(1, ceil(L / 255)) records of two header
    // bytes each.
    for (len, records) in
        [(0usize, 1usize), (1, 1), (254, 1), (255, 1), (256, 2), (509, 2), (510, 2), (511, 3), (1000, 4)]
    {
        let mut writer = Tlv8Writer::new();
        writer.add(TlvType::EncryptedData, &vec![9; len]);
        let encoded = writer.to_vec();
        assert_eq!(encoded.len(), len + 2 * records);
        // every record of a single item carries the item's tag byte
        assert_eq!(encoded[0], 0x05);
        if records > 1 {
            assert_eq!(encoded[2 + 255], 0x05);
        }
    }
}

#[test]
fn test_round_trip_many_lengths() {
    // Alternate tags so adjacent items never share one.
    let lengths = [0usize, 1, 254, 255, 256, 509, 510, 511, 1000];
    let mut writer = Tlv8Writer::new();
    let mut expected = Vec::new();
    for (k, len) in lengths.iter().enumerate() {
        let tag = if k % 2 == 0 { TlvType::Identifier } else { TlvType::Certificate };
        let value = vec![k as u8; *len];
        writer.add(tag, &value);
        expected.push((tag, value));
    }
    let encoded = writer.to_vec();
    let reader = Tlv8Reader::new(&encoded);
    assert_eq!(reader.read().unwrap(), expected);
}

#[test]
fn test_clear_drops_content() {
    let mut writer = Tlv8Writer::new();
    writer.add(TlvType::State, &[1]);
    writer.clear();
    assert_eq!(writer.to_vec(), Vec::<u8>::new());
}

#[test]
fn test_type_codes_round_trip() {
    let all = [
        TlvType::Method,
        TlvType::Identifier,
        TlvType::Salt,
        TlvType::PublicKey,
        TlvType::Proof,
        TlvType::EncryptedData,
        TlvType::State,
        TlvType::Error,
        TlvType::RetryDelay,
        TlvType::Certificate,
        TlvType::Signature,
        TlvType::Permissions,
        TlvType::FragmentData,
        TlvType::FragmentLast,
        TlvType::Separator,
    ];
    for t in all {
        assert_eq!(TlvType::from_code(t.to_code()), Some(t));
    }
    assert_eq!(TlvType::from_code(0x13), None);
    assert_eq!(TlvType::from_code(0x0E), None);
}
