use rayhunter::shannon::{
    parse_dm_buffer, DmMessage, DmMessageType, DmMessagesContainer, SipcRawHeader,
};
use rayhunter::smdl::{
    SmdlError, SmdlHeader, SmdlReader, SmdlWriter, Transfer, SMDL_MAGIC, SMDL_VERSION,
};

fn get_test_header() -> SmdlHeader {
    SmdlHeader::new("Pixel 9 (tokay)".to_string())
}

fn get_test_message() -> DmMessage {
    DmMessage {
        header: SipcRawHeader {
            channel: 28,
            control: 0,
            len: 20,
        },
        msg_type: DmMessageType::Log,
        category: 0x3000, // LTE RRC
        timestamp: 1234567890,
        payload: vec![1, 2, 3, 4, 5, 6, 7, 8, 9],
    }
}

/// The bytes of a file that holds the header and the message.
fn get_test_file() -> Vec<u8> {
    let mut writer = SmdlWriter::new();
    let mut file = writer.write_header(&get_test_header());
    file.extend(writer.write_message(&get_test_message()));
    assert_eq!(writer.total_written, file.len());
    file
}

#[test]
fn test_write_and_read_header() {
    let mut writer = SmdlWriter::new();
    let header = get_test_header();

    let buf = writer.write_header(&header);

    let mut reader = SmdlReader::new(buf, None);
    let read_header = reader.read_header().unwrap();

    assert_eq!(read_header.version, header.version);
    assert_eq!(read_header.device_info, header.device_info);
}

#[test]
fn test_write_and_read_message() {
    let mut buf = Vec::new();
    let mut writer = SmdlWriter::new();
    let header = get_test_header();
    let msg = get_test_message();

    buf.extend(writer.write_header(&header));
    buf.extend(writer.write_message(&msg));

    let mut reader = SmdlReader::new(buf, None);
    let _ = reader.read_header().unwrap();
    let container = reader.get_next_messages_container().unwrap().unwrap();

    assert_eq!(container.messages.len(), 1);
    assert_eq!(container.messages[0].category, msg.category);
    assert_eq!(container.messages[0].payload, msg.payload);
}

#[test]
fn a_header_byte_for_byte() {
    let header = SmdlHeader::new("ab".to_string());
    assert_eq!(header.version, SMDL_VERSION);
    assert_eq!(header.size(), 14);
    assert_eq!(SMDL_MAGIC, *b"SMDL");
    let mut writer = SmdlWriter::new();
    assert_eq!(
        writer.write_header(&header),
        vec![b'S', b'M', b'D', b'L', 1, 0, 0, 0, 2, 0, 0, 0, b'a', b'b']
    );
    assert_eq!(writer.total_written, 14);
}

#[test]
fn a_header_is_written_once() {
    let mut writer = SmdlWriter::new();
    assert!(!writer.write_header(&get_test_header()).is_empty());
    assert!(writer.write_header(&get_test_header()).is_empty());

    let mut appending = SmdlWriter::new_with_existing_size(100);
    assert!(appending.write_header(&get_test_header()).is_empty());
    assert_eq!(appending.total_written, 100);
    let written = appending.write_message(&get_test_message());
    assert_eq!(appending.total_written, 100 + written.len());

    let mut empty = SmdlWriter::new_with_existing_size(0);
    assert_eq!(empty.write_header(&get_test_header()).len(), 27);
}

#[test]
fn a_message_byte_for_byte() {
    let mut writer = SmdlWriter::new();
    assert_eq!(
        writer.write_message(&get_test_message()),
        vec![
            28, 0, 20, 0, // raw header
            0x10, 0x00, 0x30, // type, category
            0xD2, 0x02, 0x96, 0x49, 0, 0, 0, 0, // timestamp
            1, 2, 3, 4, 5, 6, 7, 8, 9, // payload
        ]
    );
}

#[test]
fn a_container_is_its_messages_in_order() {
    let mut container = DmMessagesContainer::new();
    let mut second = get_test_message();
    second.category = 0x4000;
    let mut one_by_one = SmdlWriter::new();
    let mut expected = one_by_one.write_message(&get_test_message());
    expected.extend(one_by_one.write_message(&second));
    container.push(get_test_message());
    container.push(second);
    let mut writer = SmdlWriter::new();
    assert_eq!(writer.write_container(&container), expected);
    assert_eq!(writer.total_written, expected.len());
}

#[test]
fn a_whole_file_reads_back() {
    let header = get_test_header();
    let mut second = get_test_message();
    second.msg_type = DmMessageType::Unknown(0x55);
    second.header.len = 11;
    second.payload = Vec::new();
    let mut writer = SmdlWriter::new();
    let mut file = writer.write_header(&header);
    file.extend(writer.write_message(&get_test_message()));
    file.extend(writer.write_message(&second));

    let mut reader = SmdlReader::new(file, None);
    let first_read = reader.get_next_messages_container().unwrap().unwrap();
    assert_eq!(first_read.messages, vec![get_test_message()]);
    let second_read = reader.get_next_messages_container().unwrap().unwrap();
    assert_eq!(second_read.messages, vec![second]);
    assert!(reader.get_next_messages_container().unwrap().is_none());
    assert!(reader.get_next_messages_container().unwrap().is_none());
}

#[test]
fn a_logged_buffer_reads_back() {
    let data = [
        28, 0, 12, 0, 0x12, 1, 0, 2, 0, 0, 0, 0, 0, 0, 0, 0x77, // one message
        28, 0, 11, 0, 0x10, 0, 0x31, 3, 0, 0, 0, 0, 0, 0, 0, // another
    ];
    let messages = parse_dm_buffer(&data).unwrap();
    let mut container = DmMessagesContainer::new();
    for message in messages.clone() {
        container.push(message);
    }
    let mut writer = SmdlWriter::new();
    let mut file = writer.write_header(&get_test_header());
    file.extend(writer.write_container(&container));
    let mut reader = SmdlReader::new(file, None);
    let mut read = Vec::new();
    while let Some(container) = reader.get_next_messages_container().unwrap() {
        read.extend(container.messages);
    }
    assert_eq!(read, messages);
}

#[test]
fn pieces_do_not_matter() {
    let file = get_test_file();
    for cut in 0..=file.len() {
        let mut reader = SmdlReader::new_fed(None);
        let mut read = Vec::new();
        for piece in [&file[0..cut], &file[cut..file.len()]] {
            assert!(reader.has_room_for(piece.len()));
            reader.feed(piece);
            loop {
                match reader.get_next_messages_container() {
                    Ok(Some(container)) => read.extend(container.messages),
                    Ok(None) => panic!("the end came early"),
                    Err(error) => {
                        assert_eq!(error, SmdlError::WouldBlock);
                        break;
                    }
                }
            }
        }
        assert_eq!(read, vec![get_test_message()]);
        reader.finish();
        assert!(reader.get_next_messages_container().unwrap().is_none());
    }
}

#[test]
fn a_file_that_is_none() {
    let mut wrong_magic = SmdlReader::new(b"QMDL\x01\x00\x00\x00".to_vec(), None);
    assert_eq!(
        wrong_magic.read_header().err(),
        Some(SmdlError::InvalidMagic { got: (b'Q', b'M', b'D', b'L') })
    );
    let mut later = SmdlReader::new(b"SMDL\x02\x00\x00\x00\x00\x00\x00\x00".to_vec(), None);
    assert_eq!(
        later.read_header().err(),
        Some(SmdlError::UnsupportedVersion { version: 2 })
    );
    let mut not_text = SmdlReader::new(b"SMDL\x01\x00\x00\x00\x01\x00\x00\x00\xff".to_vec(), None);
    assert_eq!(not_text.read_header().err(), Some(SmdlError::InvalidDeviceInfo));
    let mut short = SmdlReader::new(b"SMDL\x01\x00\x00\x00\x05\x00\x00\x00ab".to_vec(), None);
    assert_eq!(short.read_header().err(), Some(SmdlError::UnexpectedEof));
    let mut nothing = SmdlReader::new(Vec::new(), None);
    assert_eq!(nothing.read_header().err(), Some(SmdlError::UnexpectedEof));
}

#[test]
fn an_older_version_is_read() {
    let mut older = SmdlReader::new(b"SMDL\x00\x00\x00\x00\x00\x00\x00\x00".to_vec(), None);
    assert_eq!(older.read_header().unwrap().version, 0);
}

#[test]
fn device_info_beyond_ascii() {
    let header = SmdlHeader::new("Pixél 9 ✓".to_string());
    assert_eq!(header.size(), 12 + "Pixél 9 ✓".len());
    let mut writer = SmdlWriter::new();
    let mut reader = SmdlReader::new(writer.write_header(&header), None);
    assert_eq!(reader.read_header().unwrap().device_info, "Pixél 9 ✓");
}

#[test]
fn a_message_cut_short() {
    let mut file = get_test_file();
    file.pop();
    let mut reader = SmdlReader::new(file.clone(), None);
    assert_eq!(
        reader.get_next_messages_container().err(),
        Some(SmdlError::UnexpectedEof)
    );
    // A tail too short for a raw header is the end.
    let mut tail = get_test_file();
    tail.extend([1, 2, 3]);
    let mut reader = SmdlReader::new(tail, None);
    assert!(reader.get_next_messages_container().unwrap().is_some());
    assert!(reader.get_next_messages_container().unwrap().is_none());
}

#[test]
fn no_message_past_the_limit() {
    let file = get_test_file();
    let mut at_limit = SmdlReader::new(file.clone(), Some(27));
    assert!(at_limit.get_next_messages_container().unwrap().is_none());
    let mut below_limit = SmdlReader::new(file, Some(28));
    assert!(below_limit.get_next_messages_container().unwrap().is_some());
    assert!(below_limit.get_next_messages_container().unwrap().is_none());
}

/// Write the fields of a transfer, of which only the first `accepted` can be
/// written.
fn carry_out(writer: &mut SmdlWriter, transfer: &mut Transfer, accepted: usize) -> Vec<u8> {
    let mut file = Vec::new();
    let mut tried = 0;
    while let Some(field) = transfer.next_field() {
        let success = tried < accepted;
        if success {
            file.extend(field);
        }
        tried += 1;
        writer.report(transfer, success);
    }
    file
}

#[test]
fn fields_are_the_bytes() {
    let mut container = DmMessagesContainer::new();
    container.push(get_test_message());
    container.push(get_test_message());
    let mut bytes = SmdlWriter::new();
    let mut fields = SmdlWriter::new();
    let mut header = Transfer::of_header(&fields, &get_test_header());
    assert_eq!(
        carry_out(&mut fields, &mut header, 99),
        bytes.write_header(&get_test_header())
    );
    assert!(fields.header_written);
    assert!(Transfer::of_header(&fields, &get_test_header()).next_field().is_none());
    assert_eq!(
        carry_out(&mut fields, &mut Transfer::of_message(&get_test_message()), 99),
        bytes.write_message(&get_test_message())
    );
    assert_eq!(
        carry_out(&mut fields, &mut Transfer::of_container(&container), 99),
        bytes.write_container(&container)
    );
    assert_eq!(fields.total_written, bytes.total_written);
    let mut nothing = Transfer::of_container(&DmMessagesContainer::new());
    assert!(carry_out(&mut fields, &mut nothing, 99).is_empty());
    assert!(!nothing.failed);
}

#[test]
fn writing_stops_at_the_first_failure() {
    let mut container = DmMessagesContainer::new();
    container.push(get_test_message());
    container.push(get_test_message());
    let mut all = SmdlWriter::new();
    let bytes = all.write_container(&container);
    for (accepted, count) in [0, 4, 15, 24, 28, 39].into_iter().enumerate() {
        let mut writer = SmdlWriter::new();
        let mut transfer = Transfer::of_container(&container);
        let file = carry_out(&mut writer, &mut transfer, accepted);
        assert_eq!(file, bytes[0..count]);
        assert_eq!(writer.total_written, count);
        assert!(transfer.failed);
        assert_eq!(transfer.written, accepted);
    }
    let mut writer = SmdlWriter::new();
    let mut header = Transfer::of_header(&writer, &get_test_header());
    carry_out(&mut writer, &mut header, 3);
    assert_eq!(writer.total_written, 12);
    assert!(!writer.header_written);
}

#[test]
fn a_message_written_again_is_its_frame() {
    // The second frame has no room for metadata; the others have
    let data = [
        28, 0, 12, 0, 0x55, 1, 0, 2, 0, 0, 0, 0, 0, 0, 0, 0x77, // 16 bytes
        28, 0, 1, 0, 0xAA, // 5 bytes
        28, 3, 11, 0, 0x10, 0, 0x31, 3, 0, 0, 0, 0, 0, 0, 0, // 15 bytes
    ];
    let messages = parse_dm_buffer(&data).unwrap();
    let mut writer = SmdlWriter::new();
    assert_eq!(writer.write_message(&messages[0]), data[0..16]);
    assert_eq!(writer.write_message(&messages[2]), data[21..36]);
    assert_eq!(writer.total_written, 31);
}

#[test]
fn a_file_that_grows_is_read_on() {
    let file = get_test_file();
    let mut reader = SmdlReader::new(file.clone(), None);
    assert!(reader.get_next_messages_container().unwrap().is_some());
    assert!(reader.get_next_messages_container().unwrap().is_none());
    reader.resume();
    assert_eq!(
        reader.get_next_messages_container().err(),
        Some(SmdlError::WouldBlock)
    );
    reader.feed(&SmdlWriter::new().write_message(&get_test_message()));
    let read = reader.get_next_messages_container().unwrap().unwrap();
    assert_eq!(read.messages, vec![get_test_message()]);
}
