use rayhunter::gsmtap::{GsmtapHeader, GsmtapType, LteNasSubtype, LteRrcSubtype, UmSubtype};
use rayhunter::shannon::{DmLogCategory, DmMessage, DmMessageType, SipcRawHeader};
use rayhunter::shannon_gsmtap_parser::{
    parse, parse_gsm_l2_message, parse_gsm_l3_message, parse_lte_nas_message,
    parse_lte_rrc_message, parse_nr_nas_message, parse_nr_rrc_message, parse_wcdma_message,
    DateTime, ShannonParserError, ShannonTimestamp,
};

fn make_test_message(category: u16, payload: Vec<u8>) -> DmMessage {
    DmMessage {
        header: SipcRawHeader {
            channel: 28,
            control: 0,
            len: payload.len() as u16,
        },
        msg_type: DmMessageType::Log,
        category,
        timestamp: 1234567890,
        payload,
    }
}

#[test]
fn test_parse_lte_rrc_message() {
    // Create a test LTE RRC message with minimal header
    let payload = vec![
        5, // PDU num (DlCcch)
        0x00, 0x01, // EARFCN
        0x10, 0x00, // PCI
        0x12, 0x34, // SFN/SubFN
        0xAA, 0xBB, 0xCC, // RRC payload
    ];
    let msg = make_test_message(DmLogCategory::LteRrc.code(), payload);

    let result = parse(&msg).unwrap();
    assert!(result.is_some());

    let (_, gsmtap) = result.unwrap();
    assert!(matches!(
        gsmtap.header.gsmtap_type,
        GsmtapType::LteRrc(LteRrcSubtype::DlCcch)
    ));
    assert_eq!(gsmtap.payload, vec![0xAA, 0xBB, 0xCC]);
}

#[test]
fn test_parse_lte_nas_message() {
    let payload = vec![
        0, // Direction (downlink)
        0x07, 0x41, 0x02, // NAS payload (example)
    ];
    let msg = make_test_message(DmLogCategory::LteNas.code(), payload);

    let result = parse(&msg).unwrap();
    assert!(result.is_some());

    let (_, gsmtap) = result.unwrap();
    assert!(matches!(
        gsmtap.header.gsmtap_type,
        GsmtapType::LteNas(LteNasSubtype::Plain)
    ));
    assert!(!gsmtap.header.uplink);
}

#[test]
fn test_skip_non_log_message() {
    let msg = DmMessage {
        header: SipcRawHeader {
            channel: 28,
            control: 0,
            len: 10,
        },
        msg_type: DmMessageType::Response,
        category: DmLogCategory::LteRrc.code(),
        timestamp: 0,
        payload: vec![0; 10],
    };

    let result = parse(&msg).unwrap();
    assert!(result.is_none());
}

#[test]
fn an_rrc_header_field_by_field() {
    let payload = [8, 0x34, 0x12, 0, 0, 0x25, 0x43, 0x99];
    let (timestamp, message) = parse_lte_rrc_message(&payload, ShannonTimestamp::new(7))
        .unwrap()
        .unwrap();
    assert_eq!(timestamp.raw, 7);
    assert_eq!(
        message.header,
        GsmtapHeader {
            gsmtap_type: GsmtapType::LteRrc(LteRrcSubtype::UlDcch),
            arfcn: 0x1234,
            uplink: false,
            frame_number: 0x432,
            subslot: 5,
        }
    );
    assert_eq!(message.payload, vec![0x99]);
}

#[test]
fn rrc_channels() {
    let channels = vec![
        LteRrcSubtype::DlDcch, // no channel has the number 0
        LteRrcSubtype::BcchBch,
        LteRrcSubtype::BcchDlSch,
        LteRrcSubtype::MCCH,
        LteRrcSubtype::PCCH,
        LteRrcSubtype::DlCcch,
        LteRrcSubtype::DlDcch,
        LteRrcSubtype::UlCcch,
        LteRrcSubtype::UlDcch,
        LteRrcSubtype::DlDcch, // nor 9
    ];
    for (number, channel) in channels.into_iter().enumerate() {
        let payload = [number as u8, 0, 0, 0, 0, 0, 0, 0];
        let (_, message) = parse_lte_rrc_message(&payload, ShannonTimestamp::new(0))
            .unwrap()
            .unwrap();
        assert_eq!(message.header.gsmtap_type, GsmtapType::LteRrc(channel));
    }
}

#[test]
fn nas_direction() {
    let timestamp = ShannonTimestamp::new(0);
    let (_, up) = parse_lte_nas_message(&[2, 0x11], timestamp).unwrap().unwrap();
    assert!(up.header.uplink);
    assert_eq!(up.payload, vec![0x11]);
    let (_, bare) = parse_nr_nas_message(&[0], timestamp).unwrap().unwrap();
    assert!(!bare.header.uplink);
    assert!(bare.payload.is_empty());
    assert_eq!(bare.header.gsmtap_type, GsmtapType::LteNas(LteNasSubtype::Plain));
}

#[test]
fn payloads_taken_whole() {
    let timestamp = ShannonTimestamp::new(0);
    let (_, l2) = parse_gsm_l2_message(&[1, 2], timestamp).unwrap().unwrap();
    assert_eq!(l2.header, GsmtapHeader::new(GsmtapType::Um(UmSubtype::Sdcch)));
    assert_eq!(l2.payload, vec![1, 2]);
    let (_, l3) = parse_gsm_l3_message(&[3], timestamp).unwrap().unwrap();
    assert_eq!(l3.header, GsmtapHeader::new(GsmtapType::Um(UmSubtype::Bcch)));
    let (_, wcdma) = parse_wcdma_message(&[4], timestamp).unwrap().unwrap();
    assert_eq!(wcdma.header, GsmtapHeader::new(GsmtapType::Abis));
    let (_, nr) = parse_nr_rrc_message(&[1, 2, 3, 4], timestamp).unwrap().unwrap();
    assert_eq!(nr.header.gsmtap_type, GsmtapType::LteRrc(LteRrcSubtype::DlDcch));
    assert_eq!(nr.payload, vec![1, 2, 3, 4]);
    assert!(parse_gsm_l2_message(&[], timestamp).unwrap().is_none());
    assert!(parse_gsm_l3_message(&[], timestamp).unwrap().is_none());
    assert!(parse_wcdma_message(&[], timestamp).unwrap().is_none());
}

fn short(result: Option<ShannonParserError>, expected_need: usize, expected_got: usize) {
    match result {
        Some(ShannonParserError::PayloadTooShort { need, got }) => {
            assert_eq!((need, got), (expected_need, expected_got))
        }
        other => panic!("{other:?}"),
    }
}

#[test]
fn payloads_too_short() {
    let timestamp = ShannonTimestamp::new(0);
    short(parse_lte_rrc_message(&[0; 7], timestamp).err(), 8, 7);
    short(parse_lte_nas_message(&[], timestamp).err(), 1, 0);
    short(parse_nr_nas_message(&[], timestamp).err(), 1, 0);
    short(parse_nr_rrc_message(&[0; 3], timestamp).err(), 4, 3);
    short(parse(&make_test_message(0x3000, vec![0; 3])).err(), 8, 3);
}

#[test]
fn categories_and_what_they_become() {
    let kind = |category| {
        parse(&make_test_message(category, vec![1; 8]))
            .unwrap()
            .map(|(timestamp, message)| {
                assert_eq!(timestamp.raw, 1234567890);
                message.header.gsmtap_type
            })
    };
    assert_eq!(kind(0x0fff), None);
    assert_eq!(kind(0x1000), Some(GsmtapType::Um(UmSubtype::Sdcch)));
    assert_eq!(kind(0x10ff), Some(GsmtapType::Um(UmSubtype::Sdcch)));
    assert_eq!(kind(0x1100), Some(GsmtapType::Um(UmSubtype::Bcch)));
    assert_eq!(kind(0x1fff), Some(GsmtapType::Um(UmSubtype::Bcch)));
    assert_eq!(kind(0x2000), Some(GsmtapType::Abis));
    assert_eq!(kind(0x3000), Some(GsmtapType::LteRrc(LteRrcSubtype::BcchBch)));
    assert_eq!(kind(0x3100), Some(GsmtapType::LteNas(LteNasSubtype::Plain)));
    assert_eq!(kind(0x3fff), Some(GsmtapType::LteNas(LteNasSubtype::Plain)));
    assert_eq!(kind(0x4000), Some(GsmtapType::LteRrc(LteRrcSubtype::DlDcch)));
    assert_eq!(kind(0x4100), Some(GsmtapType::LteNas(LteNasSubtype::Plain)));
    assert_eq!(kind(0x4fff), Some(GsmtapType::LteNas(LteNasSubtype::Plain)));
    assert_eq!(kind(0x5000), None);
}

#[test]
fn timestamps_as_dates() {
    let at = |raw| ShannonTimestamp::new(raw).to_datetime();
    assert_eq!(at(0), DateTime { timestamp: 0, subsec_nanos: 0, utc_offset: 0 });
    assert_eq!(
        at(1234567890),
        DateTime { timestamp: 1_234_567, subsec_nanos: 890_000_000, utc_offset: 0 }
    );
    // One millisecond before the epoch
    assert_eq!(
        at(u64::MAX),
        DateTime { timestamp: -1, subsec_nanos: 999_000_000, utc_offset: 0 }
    );
    // The last and the first that have a date
    assert_eq!(
        at(8_210_266_876_799_999),
        DateTime { timestamp: 8_210_266_876_799, subsec_nanos: 999_000_000, utc_offset: 0 }
    );
    assert_eq!(
        at(-8_334_601_228_800_000i64 as u64),
        DateTime { timestamp: -8_334_601_228_800, subsec_nanos: 0, utc_offset: 0 }
    );
}

#[test]
fn timestamps_agree_with_chrono() {
    for raw in [0u64, 1, 999, 1000, 1234567890, 1_700_000_000_123] {
        let moment = ShannonTimestamp::new(raw).to_datetime();
        let expected = chrono::DateTime::from_timestamp_millis(raw as i64).unwrap();
        assert_eq!(moment.timestamp, expected.timestamp());
        assert_eq!(moment.subsec_nanos, expected.timestamp_subsec_nanos());
    }
}

#[test]
fn timestamps_without_a_date() {
    let at = |raw| ShannonTimestamp::new(raw).try_to_datetime();
    assert_eq!(
        at(1500),
        Some(DateTime { timestamp: 1, subsec_nanos: 500_000_000, utc_offset: 0 })
    );
    assert!(at(8_210_266_876_799_999).is_some());
    assert_eq!(at(8_210_266_876_800_000), None);
    assert!(at(-8_334_601_228_800_000i64 as u64).is_some());
    assert_eq!(at(-8_334_601_228_800_001i64 as u64), None);
    assert_eq!(at(i64::MAX as u64), None);
    assert_eq!(at(i64::MIN as u64), None);
}
