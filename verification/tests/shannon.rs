use rayhunter::shannon::{
    parse_dm_buffer, DmLogCategory, DmMessage, DmMessageType, DmMessagesContainer, IpcCmdType,
    IpcMainCmd, ShannonParsingError, SipcFmtHeader, SipcRawHeader,
};
use rayhunter::{Device, ModemType};

#[test]
fn test_sipc_fmt_header_size() {
    assert_eq!(SipcFmtHeader::SIZE, 7);
}

#[test]
fn test_sipc_raw_header_size() {
    assert_eq!(SipcRawHeader::SIZE, 4);
}

#[test]
fn test_sipc_raw_header_parsing() {
    // Channel 28 (DM), no more frames, length 100
    let data = vec![28, 0x00, 100, 0];
    let (_, header) = SipcRawHeader::from_bytes(&data).unwrap();
    assert_eq!(header.channel, 28);
    assert!(!header.has_more_frames());
    assert_eq!(header.len, 100);
}

#[test]
fn test_sipc_raw_header_multiframe() {
    // Channel 28, more frames (0x80), frame ID 5, length 50
    let data = vec![28, 0x85, 50, 0];
    let (_, header) = SipcRawHeader::from_bytes(&data).unwrap();
    assert!(header.has_more_frames());
    assert_eq!(header.frame_id(), 5);
}

#[test]
fn only_the_pixel_is_a_shannon_device() {
    let others = vec![
        Device::Orbic,
        Device::Tplink,
        Device::Tmobile,
        Device::Wingtech,
        Device::Pinephone,
        Device::Uz801,
    ];
    for device in others {
        assert_eq!(device.modem_type(), ModemType::Qualcomm);
        assert!(device.is_qualcomm());
        assert!(!device.is_shannon());
    }
    assert_eq!(Device::Pixel9.modem_type(), ModemType::Shannon);
    assert!(Device::Pixel9.is_shannon());
    assert!(!Device::Pixel9.is_qualcomm());
}

#[test]
fn command_types_and_their_bytes() {
    for id in 0..=255u8 {
        let bytes = [id, 0xEE];
        let (rest, kind) = IpcCmdType::from_bytes(&bytes).unwrap();
        assert_eq!(rest, &[0xEE]);
        assert_eq!(kind.id(), id);
        assert_eq!(kind.to_bytes(), vec![id]);
        let (_, group) = IpcMainCmd::from_bytes(&bytes).unwrap();
        assert_eq!(group.id(), id);
        assert_eq!(group.to_bytes(), vec![id]);
        let (_, message) = DmMessageType::from_bytes(&bytes).unwrap();
        assert_eq!(message.to_bytes(), vec![id]);
        assert_eq!(DmMessageType::from_id(id), message);
    }
    assert_eq!(IpcCmdType::from_bytes(&[3]).unwrap().1, IpcCmdType::SetCmd);
    assert_eq!(IpcCmdType::from_bytes(&[7]).unwrap().1, IpcCmdType::Unknown(7));
    assert_eq!(IpcMainCmd::from_bytes(&[0x80]).unwrap().1, IpcMainCmd::Gen);
    assert_eq!(IpcMainCmd::from_bytes(&[0x12]).unwrap().1, IpcMainCmd::Unknown(0x12));
    assert_eq!(DmMessageType::from_id(0x10), DmMessageType::Log);
    assert_eq!(DmMessageType::from_id(0x13), DmMessageType::Debug);
    assert_eq!(DmMessageType::from_id(0x14), DmMessageType::Unknown(0x14));
    assert_eq!(
        IpcCmdType::from_bytes(&[]),
        Err(ShannonParsingError::BufferTooSmall { need: 1, got: 0 })
    );
}

#[test]
fn fmt_header_goes_out_and_comes_back() {
    let mut header = SipcFmtHeader::new(0x07, 0x02, IpcCmdType::Get, 9);
    assert_eq!(header.len, 0);
    assert_eq!(header.ack_seq, 0);
    header.len = 0x1234;
    let mut bytes = header.to_bytes();
    assert_eq!(bytes, vec![0x34, 0x12, 9, 0, 0x07, 0x02, 0x02]);
    bytes.push(0x55);
    let (rest, read) = SipcFmtHeader::from_bytes(&bytes).unwrap();
    assert_eq!(rest, &[0x55]);
    assert_eq!(read, header);
    assert_eq!(
        SipcFmtHeader::from_bytes(&bytes[0..6]),
        Err(ShannonParsingError::BufferTooSmall { need: 7, got: 6 })
    );
}

#[test]
fn raw_header_goes_out_and_comes_back() {
    let header = SipcRawHeader { channel: SipcRawHeader::DM_CHANNEL_ID, control: 0x7f, len: 0x0203 };
    assert!(!header.has_more_frames());
    assert_eq!(header.frame_id(), 0x7f);
    let bytes = header.to_bytes();
    assert_eq!(bytes, vec![28, 0x7f, 3, 2]);
    let (rest, read) = SipcRawHeader::from_bytes(&bytes).unwrap();
    assert!(rest.is_empty());
    assert_eq!(read, header);
    assert_eq!(
        SipcRawHeader::from_bytes(&bytes[0..3]),
        Err(ShannonParsingError::BufferTooSmall { need: 4, got: 3 })
    );
}

#[test]
fn category_codes() {
    assert_eq!(DmLogCategory::GsmL2.code(), 0x1000);
    assert_eq!(DmLogCategory::GsmL3.code(), 0x1100);
    assert_eq!(DmLogCategory::Wcdma.code(), 0x2000);
    assert_eq!(DmLogCategory::LteRrc.code(), 0x3000);
    assert_eq!(DmLogCategory::LteNas.code(), 0x3100);
    assert_eq!(DmLogCategory::NrRrc.code(), 0x4000);
    assert_eq!(DmLogCategory::NrNas.code(), 0x4100);
    assert_eq!(DmLogCategory::IpTraffic.code(), 0x5000);
}

#[test]
fn a_buffer_of_frames() {
    let data = [
        28, 0, 13, 0, // header
        0x10, 0x00, 0x30, 1, 2, 3, 4, 5, 6, 7, 8, 0xAA, 0xBB, // metadata and payload
        28, 1, 3, 0, // header
        0xC0, 0xC1, 0xC2, // too short for metadata
        9, 9, // a tail too short for a header
    ];
    let messages = parse_dm_buffer(&data).unwrap();
    assert_eq!(
        messages,
        vec![
            DmMessage {
                header: SipcRawHeader { channel: 28, control: 0, len: 13 },
                msg_type: DmMessageType::Log,
                category: 0x3000,
                timestamp: 0x0807_0605_0403_0201,
                payload: vec![0xAA, 0xBB],
            },
            DmMessage {
                header: SipcRawHeader { channel: 28, control: 1, len: 3 },
                msg_type: DmMessageType::Unknown(0),
                category: 0,
                timestamp: 0,
                payload: vec![0xC0, 0xC1, 0xC2],
            },
        ]
    );
    assert!(parse_dm_buffer(&[]).unwrap().is_empty());
}

#[test]
fn a_frame_cut_short_refuses_the_buffer() {
    let data = [28, 0, 1, 0, 0xAA, 28, 0, 10, 0, 1, 2];
    assert_eq!(
        parse_dm_buffer(&data),
        Err(ShannonParsingError::BufferTooSmall { need: 19, got: 11 })
    );
}

#[test]
fn containers_keep_the_order() {
    let mut container = DmMessagesContainer::default();
    for message in parse_dm_buffer(&[28, 0, 1, 0, 1, 28, 0, 1, 0, 2]).unwrap() {
        container.push(message);
    }
    assert_eq!(container.messages.len(), 2);
    assert_eq!(container.messages[0].payload, vec![1]);
    assert_eq!(container.messages[1].payload, vec![2]);
}
