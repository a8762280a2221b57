//! Samsung Shannon DM message to GSMTAP conversion.
//!
//! Samsung Shannon diagnostic messages become GSMTAP messages, so that the
//! analysis heuristics for GSMTAP apply to them.
//!
//! The exact format of Samsung DM messages is known from reverse engineering
//! only, and the mappings here are to be refined as more captures become
//! available.

use vstd::prelude::*;
use vstd::slice::{slice_subrange, slice_to_vec};
use vstd::string::*;

use crate::gsmtap::{
    GsmtapHeader, GsmtapMessage, GsmtapMessageView, GsmtapType, LteNasSubtype, LteRrcSubtype,
    UmSubtype,
};
use crate::little_endian::{law_place_values, le_value, u16_at};
use crate::shannon::{DmLogCategory, DmMessage, DmMessageType, DmMessageView};

verus! {

/// Why a message could not be converted.
#[derive(Debug)]
pub enum ShannonParserError {
    UnknownCategory(u16),
    LteRrcParseError(String),
    NasParseError(String),
    PayloadTooShort { need: usize, got: usize },
    UnsupportedMessageType(DmMessageType),
}

/// A moment, with the offset of the local time that it is shown in.
#[derive(Debug, Clone, Copy, PartialEq, Eq, Structural)]
pub struct DateTime {
    /// Whole seconds since the Unix epoch, rounded down.
    pub timestamp: i64,
    /// Nanoseconds into the second.
    pub subsec_nanos: u32,
    /// Seconds by which local time is ahead of UTC.
    pub utc_offset: i32,
}

/// The first second that a date of chrono can be in.
pub const MIN_TIMESTAMP: i64 = -8_334_601_228_800;

/// The last second that a date of chrono can be in.
pub const MAX_TIMESTAMP: i64 = 8_210_266_876_799;

impl DateTime {
    /// Nanoseconds since the Unix epoch.
    pub open spec fn nanos(self) -> int {
        self.timestamp * 1_000_000_000 + self.subsec_nanos
    }

    /// The moment has a date, lies in a second that is no leap second, and its
    /// offset is less than a day.
    pub open spec fn wf(self) -> bool {
        &&& MIN_TIMESTAMP <= self.timestamp <= MAX_TIMESTAMP
        &&& self.subsec_nanos < 1_000_000_000
        &&& -86_400 < self.utc_offset < 86_400
    }
}

/// `chrono::DateTime::parse_from_rfc3339` on the text of the Unix epoch. What
/// is claimed: the text parses, and gives the epoch, in UTC.
#[verifier::external_body]
fn parse_epoch(text: &str) -> (moment: DateTime)
    requires
        text@ == "1970-01-01T00:00:00+00:00"@,
    ensures
        moment == (DateTime { timestamp: 0, subsec_nanos: 0, utc_offset: 0 }),
{
    let moment = chrono::DateTime::parse_from_rfc3339(text).unwrap();
    DateTime {
        timestamp: moment.timestamp(),
        subsec_nanos: moment.timestamp_subsec_nanos(),
        utc_offset: moment.offset().local_minus_utc(),
    }
}

/// `chrono::DateTime + chrono::Duration`, with a duration of whole
/// milliseconds. What is claimed: the moment that many milliseconds later (or
/// earlier), at the same offset. The addition panics where that moment has no
/// date, which is left out.
#[verifier::external_body]
fn plus_milliseconds(start: DateTime, millis: i64) -> (moment: DateTime)
    requires
        start.wf(),
        MIN_TIMESTAMP * 1_000_000_000 <= start.nanos() + millis * 1_000_000 < (MAX_TIMESTAMP + 1)
            * 1_000_000_000,
    ensures
        moment.wf(),
        moment.nanos() == start.nanos() + millis * 1_000_000,
        moment.utc_offset == start.utc_offset,
{
    let zone = chrono::FixedOffset::east_opt(start.utc_offset).unwrap();
    let start = chrono::DateTime::from_timestamp(start.timestamp, start.subsec_nanos).unwrap();
    let moment = start.with_timezone(&zone) + chrono::Duration::milliseconds(millis);
    DateTime {
        timestamp: moment.timestamp(),
        subsec_nanos: moment.timestamp_subsec_nanos(),
        utc_offset: moment.offset().local_minus_utc(),
    }
}

/// Timestamp for Shannon messages.
#[derive(Debug, Clone, Copy)]
pub struct ShannonTimestamp {
    pub raw: u64,
}

impl ShannonTimestamp {
    /// A timestamp as it stands in a message.
    pub fn new(raw: u64) -> (timestamp: Self)
        ensures
            timestamp == (ShannonTimestamp { raw }),
    {
        ShannonTimestamp { raw }
    }

    /// The timestamp as a signed number of milliseconds: the upper half of the
    /// unsigned range stands for times before the epoch.
    pub open spec fn millis(self) -> int {
        if self.raw < 0x8000_0000_0000_0000 {
            self.raw as int
        } else {
            self.raw - 0x1_0000_0000_0000_0000
        }
    }

    /// The timestamp is of a moment that has a date.
    pub open spec fn has_date(self) -> bool {
        MIN_TIMESTAMP * 1000 <= self.millis() < (MAX_TIMESTAMP + 1) * 1000
    }

    /// The moment, to the millisecond, in UTC.
    pub open spec fn moment(self) -> DateTime {
        DateTime {
            timestamp: (self.millis() / 1000) as i64,
            subsec_nanos: ((self.millis() % 1000) * 1_000_000) as u32,
            utc_offset: 0,
        }
    }

    /// A timestamp is a two's complement number of milliseconds since the Unix
    /// epoch. Those that have a date are from the year -262143 to the year
    /// 262142, and the date is that many milliseconds from the epoch, in whole
    /// seconds and the nanoseconds beyond them.
    pub proof fn law_milliseconds_since_the_epoch(self)
        ensures
            self.millis() == self.raw as i64,
            self.has_date() <==> -8_334_601_228_800_000 <= self.raw as i64
                <= 8_210_266_876_799_999,
            self.has_date() ==> {
                let moment = self.moment();
                &&& moment.timestamp * 1_000_000_000 + moment.subsec_nanos == (self.raw as i64)
                    * 1_000_000
                &&& moment.subsec_nanos < 1_000_000_000
                &&& moment.utc_offset == 0
            },
    {
        let raw: u64 = self.raw;
        assert(raw < 0x8000_0000_0000_0000 ==> raw as i64 == raw) by (bit_vector);
        assert(raw >= 0x8000_0000_0000_0000 ==> raw as i64 == raw - 0x1_0000_0000_0000_0000)
            by (bit_vector);
    }

    /// The timestamp as a signed number of milliseconds.
    fn signed(&self) -> (millis: i64)
        ensures
            millis == self.millis(),
    {
        let raw: u64 = self.raw;
        assert(raw < 0x8000_0000_0000_0000 ==> raw as i64 == raw) by (bit_vector);
        assert(raw >= 0x8000_0000_0000_0000 ==> raw as i64 == raw - 0x1_0000_0000_0000_0000)
            by (bit_vector);
        raw as i64
    }

    /// Convert to a date and time in UTC: milliseconds since the Unix epoch.
    pub fn to_datetime(&self) -> (moment: DateTime)
        requires
            self.has_date(),
        ensures
            moment == self.moment(),
            moment.timestamp == self.millis() / 1000,
            moment.subsec_nanos == (self.millis() % 1000) * 1_000_000,
            moment.utc_offset == 0,
    {
        let epoch = parse_epoch("1970-01-01T00:00:00+00:00");
        plus_milliseconds(epoch, self.signed())
    }

    /// Convert to a date and time in UTC, if there is such a date.
    pub fn try_to_datetime(&self) -> (moment: Option<DateTime>)
        ensures
            moment is Some <==> self.has_date(),
            moment is Some ==> moment->0 == self.moment(),
            moment is Some ==> moment->0.timestamp == self.millis() / 1000,
            moment is Some ==> moment->0.subsec_nanos == (self.millis() % 1000) * 1_000_000,
            moment is Some ==> moment->0.utc_offset == 0,
    {
        let millis: i64 = self.signed();
        if MIN_TIMESTAMP * 1000 <= millis && millis < (MAX_TIMESTAMP + 1) * 1000 {
            Some(self.to_datetime())
        } else {
            None
        }
    }
}

/// A converted message with its timestamp, as a mathematical value.
pub type Converted = Result<Option<(ShannonTimestamp, GsmtapMessageView)>, ShannonParserError>;

/// What the result of a conversion holds.
pub open spec fn converted_view(
    result: Result<Option<(ShannonTimestamp, GsmtapMessage)>, ShannonParserError>,
) -> Converted {
    match result {
        Ok(Some((timestamp, message))) => Ok(Some((timestamp, message@))),
        Ok(None) => Ok(None),
        Err(error) => Err(error),
    }
}

/// A conversion that gives a message.
pub open spec fn gives(
    timestamp: ShannonTimestamp,
    header: GsmtapHeader,
    payload: Seq<u8>,
) -> Converted {
    Ok(Some((timestamp, GsmtapMessageView { header, payload })))
}

/// A conversion that fails on a payload too short.
pub open spec fn too_short(need: usize, payload: Seq<u8>) -> Converted {
    Err(ShannonParserError::PayloadTooShort { need, got: payload.len() as usize })
}

/// The LTE RRC channel that a PDU number stands for; the downlink dedicated
/// channel where it stands for none.
pub open spec fn lte_rrc_channel(pdu_num: u8) -> LteRrcSubtype {
    if pdu_num == 1 {
        LteRrcSubtype::BcchBch
    } else if pdu_num == 2 {
        LteRrcSubtype::BcchDlSch
    } else if pdu_num == 3 {
        LteRrcSubtype::MCCH
    } else if pdu_num == 4 {
        LteRrcSubtype::PCCH
    } else if pdu_num == 5 {
        LteRrcSubtype::DlCcch
    } else if pdu_num == 6 {
        LteRrcSubtype::DlDcch
    } else if pdu_num == 7 {
        LteRrcSubtype::UlCcch
    } else if pdu_num == 8 {
        LteRrcSubtype::UlDcch
    } else {
        LteRrcSubtype::DlDcch
    }
}

/// An LTE RRC message. The payload starts with the PDU number (1 byte), EARFCN
/// (2), physical cell id (2), and system frame number with the subframe number
/// in the lowest four bits (2); the rest is the RRC message.
pub open spec fn lte_rrc(payload: Seq<u8>, timestamp: ShannonTimestamp) -> Converted {
    if payload.len() < 8 {
        too_short(8, payload)
    } else {
        let sfn_subfn = le_value(payload.subrange(5, 7));
        let header = GsmtapHeader {
            arfcn: le_value(payload.subrange(1, 3)) as u16,
            frame_number: (sfn_subfn / 16) as u32,
            subslot: (sfn_subfn % 16) as u8,
            ..GsmtapHeader::of_type(GsmtapType::LteRrc(lte_rrc_channel(payload[0])))
        };
        gives(timestamp, header, payload.skip(7))
    }
}

/// A NAS message, of LTE or of 5G. The payload starts with the direction (zero
/// for downlink); the rest is the NAS message.
pub open spec fn nas(payload: Seq<u8>, timestamp: ShannonTimestamp) -> Converted {
    if payload.len() == 0 {
        too_short(1, payload)
    } else {
        let header = GsmtapHeader {
            uplink: payload[0] != 0,
            ..GsmtapHeader::of_type(GsmtapType::LteNas(LteNasSubtype::Plain))
        };
        gives(timestamp, header, payload.skip(1))
    }
}

/// A 5G NR RRC message: the payload as it is.
pub open spec fn nr_rrc(payload: Seq<u8>, timestamp: ShannonTimestamp) -> Converted {
    if payload.len() < 4 {
        too_short(4, payload)
    } else {
        gives(
            timestamp,
            GsmtapHeader::of_type(GsmtapType::LteRrc(LteRrcSubtype::DlDcch)),
            payload,
        )
    }
}

/// A message whose payload is taken as it is, if there is any.
pub open spec fn whole(
    gsmtap_type: GsmtapType,
    payload: Seq<u8>,
    timestamp: ShannonTimestamp,
) -> Converted {
    if payload.len() == 0 {
        Ok(None)
    } else {
        gives(timestamp, GsmtapHeader::of_type(gsmtap_type), payload)
    }
}

/// `category` is one of those from `first` up to, and without, `next`.
pub open spec fn between(first: DmLogCategory, category: u16, next: DmLogCategory) -> bool {
    first.spec_code() <= category < next.spec_code()
}

/// The conversion of a message: of log messages only, by the range that the
/// category is in.
pub open spec fn converted(msg: DmMessageView) -> Converted {
    let timestamp = ShannonTimestamp { raw: msg.timestamp };
    if msg.msg_type !is Log {
        Ok(None)
    } else if between(DmLogCategory::LteRrc, msg.category, DmLogCategory::LteNas) {
        lte_rrc(msg.payload, timestamp)
    } else if between(DmLogCategory::LteNas, msg.category, DmLogCategory::NrRrc) {
        nas(msg.payload, timestamp)
    } else if between(DmLogCategory::NrRrc, msg.category, DmLogCategory::NrNas) {
        nr_rrc(msg.payload, timestamp)
    } else if between(DmLogCategory::NrNas, msg.category, DmLogCategory::IpTraffic) {
        nas(msg.payload, timestamp)
    } else if between(DmLogCategory::GsmL2, msg.category, DmLogCategory::GsmL3) {
        whole(GsmtapType::Um(UmSubtype::Sdcch), msg.payload, timestamp)
    } else if between(DmLogCategory::GsmL3, msg.category, DmLogCategory::Wcdma) {
        whole(GsmtapType::Um(UmSubtype::Bcch), msg.payload, timestamp)
    } else if between(DmLogCategory::Wcdma, msg.category, DmLogCategory::LteRrc) {
        whole(GsmtapType::Abis, msg.payload, timestamp)
    } else {
        Ok(None)
    }
}

/// Whether `category` is one of those from `first` up to, and without, `next`.
fn in_range(first: DmLogCategory, category: u16, next: DmLogCategory) -> (yes: bool)
    ensures
        yes == between(first, category, next),
{
    category >= first.code() && category < next.code()
}

/// Parse a Samsung DM message into GSMTAP format.
pub fn parse(msg: &DmMessage) -> (result: Result<
    Option<(ShannonTimestamp, GsmtapMessage)>,
    ShannonParserError,
>)
    ensures
        converted_view(result) == converted(msg@),
{
    // Only process Log messages
    if !matches!(msg.msg_type, DmMessageType::Log) {
        return Ok(None);
    }
    let timestamp = ShannonTimestamp::new(msg.timestamp);
    let payload = msg.payload.as_slice();
    let category: u16 = msg.category;
    if in_range(DmLogCategory::LteRrc, category, DmLogCategory::LteNas) {
        parse_lte_rrc_message(payload, timestamp)
    } else if in_range(DmLogCategory::LteNas, category, DmLogCategory::NrRrc) {
        parse_lte_nas_message(payload, timestamp)
    } else if in_range(DmLogCategory::NrRrc, category, DmLogCategory::NrNas) {
        parse_nr_rrc_message(payload, timestamp)
    } else if in_range(DmLogCategory::NrNas, category, DmLogCategory::IpTraffic) {
        parse_nr_nas_message(payload, timestamp)
    } else if in_range(DmLogCategory::GsmL2, category, DmLogCategory::GsmL3) {
        parse_gsm_l2_message(payload, timestamp)
    } else if in_range(DmLogCategory::GsmL3, category, DmLogCategory::Wcdma) {
        parse_gsm_l3_message(payload, timestamp)
    } else if in_range(DmLogCategory::Wcdma, category, DmLogCategory::LteRrc) {
        parse_wcdma_message(payload, timestamp)
    } else {
        Ok(None)
    }
}

/// Parse LTE RRC OTA message from Samsung DM payload.
pub fn parse_lte_rrc_message(payload: &[u8], timestamp: ShannonTimestamp) -> (result: Result<
    Option<(ShannonTimestamp, GsmtapMessage)>,
    ShannonParserError,
>)
    ensures
        converted_view(result) == lte_rrc(payload@, timestamp),
{
    if payload.len() < 8 {
        return Err(ShannonParserError::PayloadTooShort { need: 8, got: payload.len() });
    }
    let pdu_num: u8 = payload[0];
    let earfcn: u16 = u16_at(payload, 1);
    let sfn_subfn: u16 = u16_at(payload, 5);
    let rrc_payload = slice_subrange(payload, 7, payload.len());

    // Map PDU number to GSMTAP LTE RRC subtype
    let channel = match pdu_num {
        1 => LteRrcSubtype::BcchBch,
        2 => LteRrcSubtype::BcchDlSch,
        3 => LteRrcSubtype::MCCH,
        4 => LteRrcSubtype::PCCH,
        5 => LteRrcSubtype::DlCcch,
        6 => LteRrcSubtype::DlDcch,
        7 => LteRrcSubtype::UlCcch,
        8 => LteRrcSubtype::UlDcch,
        // Default fallback
        _ => LteRrcSubtype::DlDcch,
    };

    let mut header = GsmtapHeader::new(GsmtapType::LteRrc(channel));
    header.arfcn = earfcn;
    header.frame_number = (sfn_subfn >> 4) as u32;
    header.subslot = (sfn_subfn & 0xf) as u8;
    proof {
        assert(sfn_subfn >> 4 == sfn_subfn / 16) by (bit_vector);
        assert(sfn_subfn & 0xf == sfn_subfn % 16) by (bit_vector);
        assert(rrc_payload@ =~= payload@.skip(7));
    }
    Ok(Some((timestamp, GsmtapMessage { header, payload: slice_to_vec(rrc_payload) })))
}

/// Parse LTE NAS message from Samsung DM payload.
pub fn parse_lte_nas_message(payload: &[u8], timestamp: ShannonTimestamp) -> (result: Result<
    Option<(ShannonTimestamp, GsmtapMessage)>,
    ShannonParserError,
>)
    ensures
        converted_view(result) == nas(payload@, timestamp),
{
    if payload.len() == 0 {
        return Err(ShannonParserError::PayloadTooShort { need: 1, got: 0 });
    }
    let direction: u8 = payload[0];
    let nas_payload = slice_subrange(payload, 1, payload.len());
    assert(nas_payload@ =~= payload@.skip(1));

    let mut header = GsmtapHeader::new(GsmtapType::LteNas(LteNasSubtype::Plain));
    header.uplink = direction != 0;
    Ok(Some((timestamp, GsmtapMessage { header, payload: slice_to_vec(nas_payload) })))
}

/// Parse 5G NR RRC message from Samsung DM payload.
pub fn parse_nr_rrc_message(payload: &[u8], timestamp: ShannonTimestamp) -> (result: Result<
    Option<(ShannonTimestamp, GsmtapMessage)>,
    ShannonParserError,
>)
    ensures
        converted_view(result) == nr_rrc(payload@, timestamp),
{
    if payload.len() < 4 {
        return Err(ShannonParserError::PayloadTooShort { need: 4, got: payload.len() });
    }
    // Treated as generic NR RRC
    let header = GsmtapHeader::new(GsmtapType::LteRrc(LteRrcSubtype::DlDcch));
    Ok(Some((timestamp, GsmtapMessage { header, payload: slice_to_vec(payload) })))
}

/// Parse 5G NR NAS message from Samsung DM payload: similar to LTE NAS.
pub fn parse_nr_nas_message(payload: &[u8], timestamp: ShannonTimestamp) -> (result: Result<
    Option<(ShannonTimestamp, GsmtapMessage)>,
    ShannonParserError,
>)
    ensures
        converted_view(result) == nas(payload@, timestamp),
{
    parse_lte_nas_message(payload, timestamp)
}

/// Take the payload as it is, if there is any.
fn take_whole(gsmtap_type: GsmtapType, payload: &[u8], timestamp: ShannonTimestamp) -> (result:
    Result<Option<(ShannonTimestamp, GsmtapMessage)>, ShannonParserError>)
    ensures
        converted_view(result) == whole(gsmtap_type, payload@, timestamp),
{
    if payload.len() == 0 {
        return Ok(None);
    }
    let header = GsmtapHeader::new(gsmtap_type);
    Ok(Some((timestamp, GsmtapMessage { header, payload: slice_to_vec(payload) })))
}

/// Parse GSM Layer 2 message: GSM L2 (MAC) signaling.
pub fn parse_gsm_l2_message(payload: &[u8], timestamp: ShannonTimestamp) -> (result: Result<
    Option<(ShannonTimestamp, GsmtapMessage)>,
    ShannonParserError,
>)
    ensures
        converted_view(result) == whole(GsmtapType::Um(UmSubtype::Sdcch), payload@, timestamp),
{
    take_whole(GsmtapType::Um(UmSubtype::Sdcch), payload, timestamp)
}

/// Parse GSM Layer 3 message: GSM RR signaling.
pub fn parse_gsm_l3_message(payload: &[u8], timestamp: ShannonTimestamp) -> (result: Result<
    Option<(ShannonTimestamp, GsmtapMessage)>,
    ShannonParserError,
>)
    ensures
        converted_view(result) == whole(GsmtapType::Um(UmSubtype::Bcch), payload@, timestamp),
{
    take_whole(GsmtapType::Um(UmSubtype::Bcch), payload, timestamp)
}

/// Parse WCDMA/UMTS message: WCDMA RRC signaling, carried as Abis.
pub fn parse_wcdma_message(payload: &[u8], timestamp: ShannonTimestamp) -> (result: Result<
    Option<(ShannonTimestamp, GsmtapMessage)>,
    ShannonParserError,
>)
    ensures
        converted_view(result) == whole(GsmtapType::Abis, payload@, timestamp),
{
    take_whole(GsmtapType::Abis, payload, timestamp)
}

/// The direction of a NAS message, of LTE or 5G, is its first byte: 0 is
/// downlink, and everything else uplink. The rest is the message.
pub proof fn law_nas_direction(msg: DmMessageView)
    requires
        msg.msg_type is Log,
        0x3100 <= msg.category < 0x4000 || 0x4100 <= msg.category < 0x5000,
        msg.payload.len() > 0,
    ensures
        converted(msg) matches Ok(Some((timestamp, message))) && {
            &&& !message.header.uplink <==> msg.payload[0] == 0
            &&& msg.payload[0] == 1 ==> message.header.uplink
            &&& message.header.gsmtap_type == GsmtapType::LteNas(LteNasSubtype::Plain)
            &&& message.header.arfcn == 0 && message.header.frame_number == 0
                && message.header.subslot == 0
            &&& message.payload == msg.payload.subrange(1, msg.payload.len() as int)
            &&& timestamp.raw == msg.timestamp
        },
{
}

/// An LTE RRC message, byte by byte: the first byte is the channel, the next two
/// the frequency, and the last two of seven the frame number, above the four
/// bits of the subframe number; numbers low byte first. The rest is the message.
pub proof fn law_lte_rrc_byte_by_byte(msg: DmMessageView)
    requires
        msg.msg_type is Log,
        0x3000 <= msg.category < 0x3100,
        msg.payload.len() >= 8,
    ensures
        converted(msg) matches Ok(Some((timestamp, message))) && {
            let payload = msg.payload;
            let header = message.header;
            &&& header.arfcn == payload[1] + 0x100 * payload[2]
            &&& 0x10 * header.frame_number + header.subslot == payload[5] + 0x100 * payload[6]
            &&& header.subslot < 0x10
            &&& !header.uplink
            &&& header.gsmtap_type is LteRrc
            &&& payload[0] == 1 ==> header.gsmtap_type == GsmtapType::LteRrc(
                LteRrcSubtype::BcchBch,
            )
            &&& payload[0] == 2 ==> header.gsmtap_type == GsmtapType::LteRrc(
                LteRrcSubtype::BcchDlSch,
            )
            &&& payload[0] == 3 ==> header.gsmtap_type == GsmtapType::LteRrc(LteRrcSubtype::MCCH)
            &&& payload[0] == 4 ==> header.gsmtap_type == GsmtapType::LteRrc(LteRrcSubtype::PCCH)
            &&& payload[0] == 5 ==> header.gsmtap_type == GsmtapType::LteRrc(LteRrcSubtype::DlCcch)
            &&& payload[0] == 6 ==> header.gsmtap_type == GsmtapType::LteRrc(LteRrcSubtype::DlDcch)
            &&& payload[0] == 7 ==> header.gsmtap_type == GsmtapType::LteRrc(LteRrcSubtype::UlCcch)
            &&& payload[0] == 8 ==> header.gsmtap_type == GsmtapType::LteRrc(LteRrcSubtype::UlDcch)
            &&& payload[0] == 0 || payload[0] > 8 ==> header.gsmtap_type == GsmtapType::LteRrc(
                LteRrcSubtype::DlDcch,
            )
            &&& message.payload == payload.subrange(7, payload.len() as int)
            &&& timestamp.raw == msg.timestamp
        },
{
    law_place_values(msg.payload.subrange(1, 3), 0);
    law_place_values(msg.payload.subrange(5, 7), 0);
}

/// The messages whose payload is carried as it is, by category: GSM layer 2 and
/// layer 3, WCDMA, 5G RRC.
pub proof fn law_carried_whole(msg: DmMessageView)
    requires
        msg.msg_type is Log,
        (0x1000 <= msg.category < 0x3000 && msg.payload.len() >= 1) || (0x4000 <= msg.category
            < 0x4100 && msg.payload.len() >= 4),
    ensures
        converted(msg) matches Ok(Some((timestamp, message))) && {
            let header = message.header;
            &&& msg.category < 0x1100 ==> header.gsmtap_type == GsmtapType::Um(UmSubtype::Sdcch)
            &&& 0x1100 <= msg.category < 0x2000 ==> header.gsmtap_type == GsmtapType::Um(
                UmSubtype::Bcch,
            )
            &&& 0x2000 <= msg.category < 0x3000 ==> header.gsmtap_type == GsmtapType::Abis
            &&& 0x4000 <= msg.category ==> header.gsmtap_type == GsmtapType::LteRrc(
                LteRrcSubtype::DlDcch,
            )
            &&& header.arfcn == 0 && header.frame_number == 0 && header.subslot == 0
                && !header.uplink
            &&& message.payload == msg.payload
            &&& timestamp.raw == msg.timestamp
        },
{
}

/// When a log message becomes nothing and when it is refused. Below 0x1000 and
/// from 0x5000 on there is no category. Of GSM and WCDMA an empty payload is
/// nothing, and any other something; of the others fewer bytes than 8 (LTE
/// RRC), 4 (5G RRC) or 1 (NAS) are refused.
pub proof fn law_nothing_or_refused(msg: DmMessageView)
    requires
        msg.msg_type is Log,
        msg.payload.len() <= usize::MAX,
    ensures
        ({
            let category = msg.category;
            let len = msg.payload.len();
            let need: nat = if 0x3000 <= category < 0x3100 {
                8
            } else if 0x4000 <= category < 0x4100 {
                4
            } else if 0x3100 <= category < 0x5000 {
                1
            } else {
                0
            };
            let nothing = category < 0x1000 || category >= 0x5000 || (category < 0x3000 && len
                == 0);
            &&& converted(msg) is Err <==> len < need
            &&& converted(msg) matches Err(error) ==> error
                == (ShannonParserError::PayloadTooShort { need: need as usize, got: len as usize })
            &&& (converted(msg) matches Ok(None)) <==> nothing
        }),
{
}

/// What comes out of a message is the end of its payload, under the message's
/// own timestamp.
pub proof fn law_payload_and_timestamp_are_kept(msg: DmMessageView)
    ensures
        converted(msg) matches Ok(Some((timestamp, message))) ==> {
            &&& timestamp.raw == msg.timestamp
            &&& message.payload.is_suffix_of(msg.payload)
        },
{
}

/// Nothing but a log message is converted, and none is refused.
pub proof fn law_only_log_messages(msg: DmMessageView)
    requires
        msg.msg_type !is Log,
    ensures
        converted(msg) == Ok::<
            Option<(ShannonTimestamp, GsmtapMessageView)>,
            ShannonParserError,
        >(None),
{
}

/// The one reason to refuse a message is a payload too short, and the refusal
/// says how long it was.
pub proof fn law_refused_only_if_short(msg: DmMessageView)
    requires
        msg.payload.len() <= usize::MAX,
    ensures
        converted(msg) matches Err(error) ==> {
            &&& error matches ShannonParserError::PayloadTooShort { need, got }
            &&& got == msg.payload.len()
            &&& got < need
        },
{
}

} // verus!
