use rayhunter::sdm_parser::{
    analyze_sdm_file, imei, logger_version, modem_version, timezone, try_analyze_sdm_file,
    ReadError, SdmMessage, SdmParseError, SdmParser,
};

#[test]
fn test_sdm_header_parsing() {
    // Minimal test header based on real capture
    let data = b"=\x009\xfd\x04\x00\x02\x00\x00\x00 \x00Pixel Logger Ver. 1 Jun. 10,2021\x08\x00\x00\x00\x00\x00\x00\x00\x00\x00\x07\x00Etc/GMT";
    let mut parser = SdmParser::new(data.to_vec());

    // This will fail because our test data is incomplete, but it tests the structure
    let result = parser.parse_header();
    // In real usage this would succeed with complete data
    assert!(result.is_ok() || result.is_err()); // Just verify it doesn't panic
}

/// A file with a header, and room for it up to the messages.
fn header_bytes() -> Vec<u8> {
    let mut data = vec![0u8; 0x140];
    data[12..44].copy_from_slice(b"Pixel Logger Ver. 1 Jun. 10,2021");
    data[0x30..0x37].copy_from_slice(b"Etc/GMT");
    let ext = b"lib;g5400c-231;123456789012345;g54;";
    data[0x80..0x80 + ext.len()].copy_from_slice(ext);
    data
}

/// A message as it stands in a file.
fn message_bytes(timestamp: u64, msg_type: u8, category: u16, payload: &[u8]) -> Vec<u8> {
    let mut bytes = vec![0x7f];
    bytes.extend((13 + payload.len() as u16).to_le_bytes());
    bytes.extend(timestamp.to_le_bytes());
    bytes.push(msg_type);
    bytes.extend(category.to_le_bytes());
    bytes.extend(payload);
    bytes
}

#[test]
fn a_header_field_by_field() {
    let mut parser = SdmParser::new(header_bytes());
    assert!(parser.header_readable());
    let header = parser.parse_header().unwrap();
    assert_eq!(header.logger_version, "Pixel Logger Ver. 1 Jun. 10,2021");
    assert_eq!(header.timezone, "Etc/GMT");
    assert_eq!(header.lib_version, None);
    assert_eq!(header.modem_version, Some("g5400c-231".to_string()));
    assert_eq!(header.imei, Some("123456789012345".to_string()));
}

#[test]
fn a_header_cut_short() {
    for len in [0, 63, 64, 0x4f] {
        let mut parser = SdmParser::new(header_bytes()[0..len].to_vec());
        if parser.header_readable() {
            assert_eq!(
                parser.parse_header().err(),
                Some(SdmParseError::IoError(ReadError::UnexpectedEof))
            );
        }
    }
    let mut parser = SdmParser::new(header_bytes()[0..0x50].to_vec());
    let header = parser.parse_header().unwrap();
    assert_eq!(header.modem_version, None);
    assert_eq!(header.imei, None);
    let mut parser = SdmParser::new(header_bytes()[0..0x90].to_vec());
    assert_eq!(parser.parse_header().unwrap().modem_version, Some("g5400c-231".to_string()));
}

#[test]
fn logger_versions() {
    let some = |text: &str| Some(text.to_string());
    assert_eq!(logger_version("nothing here"), some("Unknown"));
    assert_eq!(logger_version("\0\0Pixel Logger 2\0rest"), some("Pixel Logger 2"));
    assert_eq!(
        logger_version("xPixel Logger Ver. 1 Jun. 10,2021 and more"),
        some("Pixel Logger Ver. 1 Jun. 10,2021")
    );
    // Without a NUL, 32 bytes are taken: they may not be there, or end inside a character
    assert_eq!(logger_version("Pixel Logger"), None);
    assert_eq!(logger_version("Pixel Logger Ver. 1 Jun. 10,202\u{fffd}"), None);
    assert_eq!(
        logger_version("Pixel Logger Ver. 1 Jun. 10,2\u{fffd}!"),
        some("Pixel Logger Ver. 1 Jun. 10,2\u{fffd}")
    );
}

#[test]
fn timezones() {
    assert_eq!(timezone("Etc/GMT\0junk"), "Etc/GMT");
    assert_eq!(timezone("\0junk"), "");
    assert_eq!(timezone("Europe/Rome"), "Europe/Rome");
}

#[test]
fn extended_fields() {
    let some = |text: &str| Some(text.to_string());
    assert_eq!(modem_version("a;g5;g6"), some("g5"));
    assert_eq!(modem_version("ag5;G5"), None);
    assert_eq!(modem_version(""), None);
    assert_eq!(imei("12345678901234;123456789012345;999999999999999"), some("123456789012345"));
    assert_eq!(imei("12345678901234a;1234567890123456"), None);
}

#[test]
fn messages_one_by_one() {
    let mut data = header_bytes();
    data.extend([1, 2, 3]); // not a marker
    let first_at = data.len() as u64;
    data.extend(message_bytes(0x0102030405060708, 0x21, 0x0100, b"\x01\x02"));
    data.extend([0x7f, 0, 0]); // a message of length 0, passed over
    let second_at = data.len() as u64;
    data.extend(message_bytes(9, 0x22, 0x0200, b""));
    data.extend([0; 20]);
    let mut parser = SdmParser::new(data);
    // The header is read on the way
    let first = parser.next_message().unwrap().unwrap();
    assert_eq!(first.offset, first_at);
    assert_eq!(first.timestamp, 0x0102030405060708);
    assert_eq!(first.msg_type, 0x21);
    assert_eq!(first.category, 0x0100);
    assert_eq!(first.payload, vec![1, 2]);
    let mut messages = parser.messages();
    let second = messages.next().unwrap().unwrap();
    assert_eq!(second.offset, second_at);
    assert_eq!(second.category, 0x0200);
    assert!(second.payload.is_empty());
    assert!(messages.next().is_none());
    assert!(messages.next().is_none());
    assert!(parser.next_message().unwrap().is_none());
}

#[test]
fn messages_right_after_each_other_all_come_out() {
    let mut data = header_bytes();
    let payloads: Vec<&[u8]> = vec![b"abc", b"", b"\x7f\x10\x00", b"x"];
    let mut offsets = Vec::new();
    for (number, payload) in payloads.iter().enumerate() {
        offsets.push(data.len() as u64);
        data.extend(message_bytes(number as u64, 1, 2, payload));
    }
    let mut parser = SdmParser::new(data);
    for (number, payload) in payloads.iter().enumerate() {
        let message = parser.next_message().unwrap().unwrap();
        assert_eq!(message.offset, offsets[number]);
        assert_eq!(message.timestamp, number as u64);
        assert_eq!(message.payload, payload.to_vec());
    }
    assert!(parser.next_message().unwrap().is_none());
}

#[test]
fn a_payload_cut_short() {
    let mut data = header_bytes();
    data.extend(message_bytes(1, 2, 3, b"abcdef"));
    data.pop();
    let mut parser = SdmParser::new(data.clone());
    let eof = || Some(SdmParseError::IoError(ReadError::UnexpectedEof));
    assert_eq!(parser.next_message().err(), eof());
    assert_eq!(parser.next_message().err(), eof());
    // Too little for the fields of a message is the end
    let mut parser = SdmParser::new(data[0..0x140 + 13].to_vec());
    assert!(parser.next_message().unwrap().is_none());
    // No header, no message
    let mut parser = SdmParser::new(vec![0; 10]);
    assert_eq!(parser.next_message().err(), eof());
}

#[test]
fn payloads_are_capped() {
    let mut data = header_bytes();
    data.extend(message_bytes(1, 2, 3, &[0xAB; 5000]));
    let mut parser = SdmParser::new(data);
    let message = parser.next_message().unwrap().unwrap();
    assert_eq!(message.payload, vec![0xAB; 4096]);
    assert!(parser.next_message().unwrap().is_none());
}

#[test]
fn markers_are_searched_so_far() {
    let message = message_bytes(1, 2, 3, b"");
    let mut near = header_bytes();
    near.extend([0; 4095]);
    near.extend(message.clone());
    assert!(SdmParser::new(near).next_message().unwrap().is_some());
    let mut far = header_bytes();
    far.extend([0; 4096]);
    far.extend(message);
    assert!(SdmParser::new(far).next_message().unwrap().is_none());
}

fn message(category: u16, payload: &[u8]) -> SdmMessage {
    SdmMessage { offset: 0, timestamp: 0, msg_type: 0, category, payload: payload.to_vec() }
}

#[test]
fn kinds_of_messages() {
    assert!(!message(0x00ff, b"").is_lte_rrc());
    assert!(message(0x0100, b"").is_lte_rrc());
    assert!(message(0x01ff, b"").is_lte_rrc());
    assert!(!message(0x0200, b"").is_lte_rrc());
    assert!(!message(0x01ff, b"").is_nas());
    assert!(message(0x0200, b"").is_nas());
    assert!(message(0x02ff, b"").is_nas());
    assert!(!message(0x0300, b"").is_nas());
}

#[test]
fn debug_logs_and_their_text() {
    assert_eq!(message(0, b"hello").as_text(), Some("hello".to_string()));
    assert!(!message(0, b"").is_debug_log());
    assert_eq!(message(0, b"").as_text(), None);
    // Two of four are not more than half; two of three are
    assert!(!message(0, b"ab\x00\x7f").is_debug_log());
    assert!(message(0, b"ab\x1f").is_debug_log());
    assert_eq!(message(0, b"ab\x00\x01").as_text(), None);
    // Printable for the most part, but not UTF-8
    assert!(message(0, b"abcd\xff").is_debug_log());
    assert_eq!(message(0, b"abcd\xff").as_text(), None);
    assert_eq!(message(0, "abcdé".as_bytes()).as_text(), Some("abcdé".to_string()));
}

fn counted_file() -> Vec<u8> {
    let mut data = header_bytes();
    data.extend(message_bytes(1, 0, 0x0100, b"text"));
    data.extend(message_bytes(2, 0, 0x0100, b"\x00"));
    data.extend(message_bytes(3, 0, 0x0250, b"more text"));
    data.extend(message_bytes(4, 0, 0x9000, b"\x01\x02"));
    data
}

#[test]
fn statistics_of_a_file() {
    let mut data = counted_file();
    let complete = analyze_sdm_file(data.clone()).unwrap();
    // One that the file ends in the middle of is not counted
    data.extend(message_bytes(5, 0, 0x0101, b"cut"));
    data.pop();
    let cut = analyze_sdm_file(data).unwrap();
    for stats in [complete, cut] {
        assert_eq!(stats.header.timezone, "Etc/GMT");
        assert_eq!(stats.total_messages, 4);
        assert_eq!(stats.lte_rrc_messages, 2);
        assert_eq!(stats.nas_messages, 1);
        assert_eq!(stats.debug_messages, 2);
        assert_eq!(stats.categories.len(), 3);
        assert_eq!(stats.categories[&0x0100], 2);
        assert_eq!(stats.categories[&0x0250], 1);
        assert_eq!(stats.categories[&0x9000], 1);
        assert!(stats.lte_rrc_messages + stats.nas_messages <= stats.total_messages);
        assert_eq!(stats.categories.values().sum::<usize>(), stats.total_messages);
    }
    assert_eq!(
        analyze_sdm_file(vec![0; 3]).err(),
        Some(SdmParseError::IoError(ReadError::UnexpectedEof))
    );
}

#[test]
fn a_logger_version_that_cannot_be_told() {
    // "Pixel Logger" in the last bytes of the field, and no NUL after it
    let mut data = vec![b'x'; 0x100];
    data[52..64].copy_from_slice(b"Pixel Logger");
    assert!(!SdmParser::new(data.clone()).header_readable());
    assert!(try_analyze_sdm_file(data).is_none());
    let stats = try_analyze_sdm_file(counted_file()).unwrap().unwrap();
    assert_eq!(stats.total_messages, 4);
    assert!(try_analyze_sdm_file(Vec::new()).unwrap().is_err());
}

#[test]
fn bytes_that_are_not_text_are_replaced() {
    // Each 0xff becomes U+FFFD, three bytes long
    let mut data = header_bytes();
    data[0x30..0x37].copy_from_slice(b"Etc\xffGMT");
    let header = SdmParser::new(data).parse_header().unwrap();
    assert_eq!(header.timezone, "Etc\u{fffd}GMT");
}
