//! Samsung SDM (Silent Diagnostic Monitor) file format parser.
//!
//! Parses the native `.sdm` files produced by Samsung Shannon modems, found in
//! `/data/vendor/slog/` on Pixel 6+ devices.
//!
//! File format (reverse-engineered from real captures):
//! - Header with device info, IMEI, modem version, timezone
//! - Messages delimited by a 0x7f marker
//! - Each message has timestamp, category, and payload

use std::collections::HashMap;

use vstd::prelude::*;
use vstd::slice::{slice_subrange, slice_to_vec};
use vstd::string::*;
use vstd::utf8::{decode_utf8, encode_scalar, encode_utf8, valid_utf8};

use crate::little_endian::{
    law_place_values, law_value_of_bytes, le_bytes, le_range, le_value, lemma_le_bytes_len, u16_at,
    u64_at,
};
use crate::text::{
    ascii_chars, chars_of, contains, find, index_of_char, index_of_text, lemma_ascii,
    lemma_first_occurrence, lemma_index_of_char, lemma_index_of_char_unique, lossy_keeps,
    lossy_text, lossy_utf8, occurs_at, optional_text, pieces, position, split, string_from_utf8,
    text_views,
};

verus! {

/// Where the messages start.
pub const MESSAGE_AREA: usize = 0x140;

/// How far a marker is searched for.
pub const SEARCH_WINDOW: usize = 4096;

/// The longest payload that is read.
pub const MAX_PAYLOAD: usize = 4096;

/// A failure to read from the file.
#[derive(Debug, PartialEq)]
pub enum ReadError {
    /// The file ends before the bytes that were asked for.
    UnexpectedEof,
}

/// Why a file could not be parsed.
#[derive(Debug, PartialEq)]
pub enum SdmParseError {
    IoError(ReadError),
    InvalidHeader,
    UnexpectedEof,
    InvalidMessage(u64),
}

/// SDM file header information.
#[derive(Debug, Clone)]
pub struct SdmHeader {
    pub logger_version: String,
    pub timezone: String,
    pub lib_version: Option<String>,
    pub modem_version: Option<String>,
    pub imei: Option<String>,
}

/// What an [`SdmHeader`] holds, as a mathematical value.
#[verifier::ext_equal]
pub struct SdmHeaderView {
    pub logger_version: Seq<char>,
    pub timezone: Seq<char>,
    pub lib_version: Option<Seq<char>>,
    pub modem_version: Option<Seq<char>>,
    pub imei: Option<Seq<char>>,
}

impl View for SdmHeader {
    type V = SdmHeaderView;

    open spec fn view(&self) -> SdmHeaderView {
        SdmHeaderView {
            logger_version: self.logger_version@,
            timezone: self.timezone@,
            lib_version: optional_text(self.lib_version),
            modem_version: optional_text(self.modem_version),
            imei: optional_text(self.imei),
        }
    }
}

impl SdmHeader {
    /// Another header that holds the same.
    fn duplicate(&self) -> (header: Self)
        ensures
            header@ == self@,
    {
        SdmHeader {
            logger_version: self.logger_version.clone(),
            timezone: self.timezone.clone(),
            lib_version: duplicate_text(&self.lib_version),
            modem_version: duplicate_text(&self.modem_version),
            imei: duplicate_text(&self.imei),
        }
    }
}

fn duplicate_text(text: &Option<String>) -> (copy: Option<String>)
    ensures
        optional_text(copy) == optional_text(*text),
{
    match text {
        Some(text) => Some(text.clone()),
        None => None,
    }
}

/// How many of the elements satisfy `pred`.
pub open spec fn count<T>(items: Seq<T>, pred: spec_fn(T) -> bool) -> nat
    decreases items.len(),
{
    if items.len() == 0 {
        0
    } else {
        count(items.drop_last(), pred) + (if pred(items.last()) {
            1nat
        } else {
            0
        })
    }
}

/// No more elements satisfy a predicate than there are.
pub proof fn lemma_count_bound<T>(items: Seq<T>, pred: spec_fn(T) -> bool)
    ensures
        count(items, pred) <= items.len(),
    decreases items.len(),
{
    if items.len() > 0 {
        lemma_count_bound(items.drop_last(), pred);
    }
}

/// A single message from an SDM file.
#[derive(Debug, Clone)]
pub struct SdmMessage {
    pub offset: u64,
    pub timestamp: u64,
    pub msg_type: u8,
    pub category: u16,
    pub payload: Vec<u8>,
}

/// What an [`SdmMessage`] holds, as a mathematical value.
#[verifier::ext_equal]
pub struct SdmMessageView {
    pub offset: u64,
    pub timestamp: u64,
    pub msg_type: u8,
    pub category: u16,
    pub payload: Seq<u8>,
}

impl View for SdmMessage {
    type V = SdmMessageView;

    open spec fn view(&self) -> SdmMessageView {
        SdmMessageView {
            offset: self.offset,
            timestamp: self.timestamp,
            msg_type: self.msg_type,
            category: self.category,
            payload: self.payload@,
        }
    }
}

/// True of the bytes of printable ASCII characters.
pub open spec fn is_printable(byte: u8) -> bool {
    0x20 <= byte < 0x7f
}

impl SdmMessageView {
    /// The message's bytes in a file: marker, length of what follows the marker,
    /// timestamp, type, category, payload.
    pub open spec fn encoded(self) -> Seq<u8> {
        seq![0x7fu8] + le_bytes((13 + self.payload.len()) as nat, 2) + le_bytes(
            self.timestamp as nat,
            8,
        ) + seq![self.msg_type] + le_bytes(self.category as nat, 2) + self.payload
    }

    /// An LTE RRC message, by its category.
    pub open spec fn lte_rrc(self) -> bool {
        0x0100 <= self.category < 0x0200
    }

    /// A NAS message, by its category.
    pub open spec fn nas(self) -> bool {
        0x0200 <= self.category < 0x0300
    }

    /// A debug log: more of its bytes are printable than half of the payload's
    /// length, rounded down.
    pub open spec fn debug_log(self) -> bool {
        count(self.payload, |b: u8| is_printable(b)) > self.payload.len() / 2
    }

    /// The text of a debug log, if it is UTF-8.
    pub open spec fn text(self) -> Option<Seq<char>> {
        if self.debug_log() && valid_utf8(self.payload) {
            Some(decode_utf8(self.payload))
        } else {
            None
        }
    }
}

impl SdmMessage {
    /// Check if this is an LTE RRC message.
    pub fn is_lte_rrc(&self) -> (yes: bool)
        ensures
            yes == self@.lte_rrc(),
    {
        self.category >= 0x0100 && self.category < 0x0200
    }

    /// Check if this is a NAS message.
    pub fn is_nas(&self) -> (yes: bool)
        ensures
            yes == self@.nas(),
    {
        self.category >= 0x0200 && self.category < 0x0300
    }

    /// Check if this is a debug/text log message.
    pub fn is_debug_log(&self) -> (yes: bool)
        ensures
            yes == self@.debug_log(),
    {
        let ghost printable = |b: u8| is_printable(b);
        let mut found: usize = 0;
        let mut i: usize = 0;
        while i < self.payload.len()
            invariant
                i <= self.payload@.len(),
                printable == (|b: u8| is_printable(b)),
                found == count(self.payload@.take(i as int), printable),
                found <= i,
            decreases self.payload.len() - i,
        {
            assert(self.payload@.take(i + 1).drop_last() =~= self.payload@.take(i as int));
            let byte: u8 = self.payload[i];
            if byte >= 0x20 && byte < 0x7f {
                found += 1;
            }
            i += 1;
        }
        assert(self.payload@.take(i as int) =~= self.payload@);
        found > self.payload.len() / 2
    }

    /// Try to extract text content from debug messages.
    pub fn as_text(&self) -> (text: Option<String>)
        ensures
            optional_text(text) == self@.text(),
            text is Some <==> self@.debug_log() && valid_utf8(self@.payload),
            text is Some ==> text->0@ == decode_utf8(self@.payload),
    {
        if self.is_debug_log() {
            string_from_utf8(slice_to_vec(self.payload.as_slice()))
        } else {
            None
        }
    }
}

/// How many bytes `c` takes in UTF-8.
pub open spec fn utf8_width(c: char) -> nat {
    encode_scalar(c as u32).len()
}

/// The prefix of `text` that takes exactly `bytes` bytes in UTF-8, if there is
/// one.
pub open spec fn prefix_of_bytes(text: Seq<char>, bytes: nat) -> Option<Seq<char>>
    decreases text.len(),
{
    if bytes == 0 {
        Some(Seq::empty())
    } else if text.len() == 0 || utf8_width(text[0]) > bytes {
        None
    } else {
        match prefix_of_bytes(text.drop_first(), (bytes - utf8_width(text[0])) as nat) {
            Some(rest) => Some(seq![text[0]] + rest),
            None => None,
        }
    }
}

/// The logger version in the text of the first 64 bytes: from "Pixel Logger"
/// up to a NUL, or, without a NUL, for 32 bytes. `None` where these 32 bytes
/// are not there or end inside a character.
pub open spec fn logger_version_in(text: Seq<char>) -> Option<Seq<char>> {
    let start = index_of_text(text, "Pixel Logger"@) as int;
    let rest = text.skip(start);
    let end = index_of_char(rest, '\0') as int;
    if !contains(text, "Pixel Logger"@) {
        Some("Unknown"@)
    } else if end < rest.len() {
        Some(rest.take(end))
    } else {
        prefix_of_bytes(rest, 32)
    }
}

/// The timezone in the text of the timezone field: up to a NUL.
pub open spec fn timezone_in(text: Seq<char>) -> Seq<char> {
    text.take(index_of_char(text, '\0') as int)
}

/// A modem version: it starts with "g5".
pub open spec fn is_modem_version(piece: Seq<char>) -> bool {
    piece.len() >= 2 && piece[0] == 'g' && piece[1] == '5'
}

/// An IMEI: 15 decimal digits.
pub open spec fn is_imei(piece: Seq<char>) -> bool {
    piece.len() == 15 && forall|i: int| 0 <= i < piece.len() ==> '0' <= #[trigger] piece[i] <= '9'
}

/// The first of `items` that satisfies `pred`.
pub open spec fn first_where(items: Seq<Seq<char>>, pred: spec_fn(Seq<char>) -> bool) -> Option<
    Seq<char>,
>
    decreases items.len(),
{
    if items.len() == 0 {
        None
    } else if pred(items[0]) {
        Some(items[0])
    } else {
        first_where(items.drop_first(), pred)
    }
}

/// The modem version among the `;`-separated fields of the extended header.
pub open spec fn modem_version_in(text: Seq<char>) -> Option<Seq<char>> {
    first_where(pieces(text, ';'), |piece: Seq<char>| is_modem_version(piece))
}

/// The IMEI among the `;`-separated fields of the extended header.
pub open spec fn imei_in(text: Seq<char>) -> Option<Seq<char>> {
    first_where(pieces(text, ';'), |piece: Seq<char>| is_imei(piece))
}

/// How many bytes `c` takes in UTF-8.
fn width_of(c: char) -> (width: usize)
    ensures
        width == utf8_width(c),
        1 <= width <= 4,
{
    let code: u32 = c as u32;
    proof {
        vstd::utf8::char_is_scalar(c);
    }
    if code < 0x80 {
        1
    } else if code < 0x800 {
        2
    } else if code < 0x1_0000 {
        3
    } else {
        4
    }
}

/// The logger version in the text of the first 64 bytes, if it can be told.
pub fn logger_version(text: &str) -> (version: Option<String>)
    ensures
        optional_text(version) == logger_version_in(text@),
{
    let chars = chars_of(text);
    let name = chars_of("Pixel Logger");
    let start = match find(&chars, &name) {
        Some(start) => start,
        None => return Some("Unknown".to_owned()),
    };
    proof {
        lemma_first_occurrence(text@, "Pixel Logger"@, start as int);
        assert(contains(text@, "Pixel Logger"@));
    }
    let end: usize = position(&chars, '\0', start);
    if end < chars.len() {
        let version = text.substring_char(start, end).to_owned();
        assert(version@ =~= text@.skip(start as int).take(end - start));
        return Some(version);
    }
    let ghost rest = text@.skip(start as int);
    let mut left: usize = 32;
    let mut stop: usize = start;
    assert(rest.skip(0) =~= rest);
    while left > 0
        invariant
            chars@ == text@,
            start <= stop <= text@.len(),
            rest == text@.skip(start as int),
            logger_version_in(text@) == prefix_of_bytes(rest, 32),
            match prefix_of_bytes(rest.skip(stop - start), left as nat) {
                Some(tail) => prefix_of_bytes(rest, 32) == Some(rest.take(stop - start) + tail),
                None => prefix_of_bytes(rest, 32) is None,
            },
        decreases left,
    {
        let ghost here = rest.skip(stop - start);
        if stop == chars.len() {
            return None;
        }
        let width: usize = width_of(chars[stop]);
        assert(here[0] == text@[stop as int]);
        if width > left {
            return None;
        }
        left -= width;
        stop += 1;
        proof {
            assert(here.drop_first() =~= rest.skip(stop - start));
            let tail = prefix_of_bytes(rest.skip(stop - start), left as nat);
            if tail is Some {
                assert(rest.take(stop - start - 1) + (seq![here[0]] + tail->0) =~= rest.take(
                    stop - start,
                ) + tail->0);
            }
        }
    }
    let version = text.substring_char(start, stop).to_owned();
    proof {
        assert(rest.take(stop - start) + Seq::<char>::empty() =~= rest.take(stop - start));
        assert(version@ =~= rest.take(stop - start));
    }
    Some(version)
}

/// The timezone in the text of the timezone field.
pub fn timezone(text: &str) -> (zone: String)
    ensures
        zone@ == timezone_in(text@),
{
    let chars = chars_of(text);
    let end: usize = position(&chars, '\0', 0);
    assert(text@.skip(0) =~= text@);
    let zone = text.substring_char(0, end).to_owned();
    assert(zone@ =~= timezone_in(text@));
    zone
}

/// The modem version (g5400c-...) in the text of the extended header.
pub fn modem_version(text: &str) -> (version: Option<String>)
    ensures
        optional_text(version) == modem_version_in(text@),
{
    let parts = split(text, ';');
    let ghost wanted = |piece: Seq<char>| is_modem_version(piece);
    let mut i: usize = 0;
    assert(text_views(parts@).skip(0) =~= text_views(parts@));
    while i < parts.len()
        invariant
            i <= parts@.len(),
            text_views(parts@) == pieces(text@, ';'),
            wanted == (|piece: Seq<char>| is_modem_version(piece)),
            modem_version_in(text@) == first_where(text_views(parts@).skip(i as int), wanted),
        decreases parts.len() - i,
    {
        let ghost here = text_views(parts@).skip(i as int);
        assert(here[0] == parts@[i as int]@);
        let piece = chars_of(parts[i].as_str());
        if piece.len() >= 2 && piece[0] == 'g' && piece[1] == '5' {
            return Some(parts[i].clone());
        }
        i += 1;
        assert(here.drop_first() =~= text_views(parts@).skip(i as int));
    }
    assert(text_views(parts@).skip(i as int) =~= Seq::<Seq<char>>::empty());
    None
}

/// Whether a field of the extended header is an IMEI.
fn imei_field(piece: &Vec<char>) -> (yes: bool)
    ensures
        yes == is_imei(piece@),
{
    if piece.len() != 15 {
        return false;
    }
    let mut i: usize = 0;
    while i < piece.len()
        invariant
            i <= piece@.len(),
            piece@.len() == 15,
            forall|j: int| 0 <= j < i ==> '0' <= #[trigger] piece@[j] <= '9',
        decreases piece.len() - i,
    {
        let c: char = piece[i];
        if !('0' <= c && c <= '9') {
            return false;
        }
        i += 1;
    }
    true
}

/// The IMEI (15 digit number) in the text of the extended header.
pub fn imei(text: &str) -> (number: Option<String>)
    ensures
        optional_text(number) == imei_in(text@),
{
    let parts = split(text, ';');
    let ghost wanted = |piece: Seq<char>| is_imei(piece);
    let mut i: usize = 0;
    assert(text_views(parts@).skip(0) =~= text_views(parts@));
    while i < parts.len()
        invariant
            i <= parts@.len(),
            text_views(parts@) == pieces(text@, ';'),
            wanted == (|piece: Seq<char>| is_imei(piece)),
            imei_in(text@) == first_where(text_views(parts@).skip(i as int), wanted),
        decreases parts.len() - i,
    {
        let ghost here = text_views(parts@).skip(i as int);
        assert(here[0] == parts@[i as int]@);
        let piece = chars_of(parts[i].as_str());
        if imei_field(&piece) {
            return Some(parts[i].clone());
        }
        i += 1;
        assert(here.drop_first() =~= text_views(parts@).skip(i as int));
    }
    assert(text_views(parts@).skip(i as int) =~= Seq::<Seq<char>>::empty());
    None
}

/// The extended header: up to 256 bytes from 0x80, as far as the file goes.
pub open spec fn extended_header(data: Seq<u8>) -> Seq<u8> {
    if data.len() <= 0x80 {
        Seq::empty()
    } else if data.len() <= 0x180 {
        data.skip(0x80)
    } else {
        data.subrange(0x80, 0x180)
    }
}

/// Whether the logger version of a file can be told, as far as the file has
/// the bytes that it is in.
pub open spec fn header_readable(data: Seq<u8>) -> bool {
    data.len() >= 64 ==> logger_version_in(lossy_utf8(data.take(64))) is Some
}

/// The header of a file, or the failure to read one off a file too short for
/// its fixed fields.
pub open spec fn header_of(data: Seq<u8>) -> Result<SdmHeaderView, SdmParseError> {
    if data.len() < 0x50 {
        Err(SdmParseError::IoError(ReadError::UnexpectedEof))
    } else {
        Ok(
            SdmHeaderView {
                logger_version: logger_version_in(lossy_utf8(data.take(64)))->0,
                timezone: timezone_in(lossy_utf8(data.subrange(0x30, 0x50))),
                lib_version: None,
                modem_version: modem_version_in(lossy_utf8(extended_header(data))),
                imei: imei_in(lossy_utf8(extended_header(data))),
            },
        )
    }
}

/// The first marker among the `window` bytes from `from` on.
pub open spec fn marker_from(data: Seq<u8>, from: int, window: nat) -> Option<int>
    decreases window,
{
    if window == 0 || from >= data.len() {
        None
    } else if data[from] == 0x7f {
        Some(from)
    } else {
        marker_from(data, from + 1, (window - 1) as nat)
    }
}

/// The length of the payload that a message of `msg_len` bytes has: what is
/// beyond its length field, timestamp, type and category, 13 bytes in all;
/// capped.
pub open spec fn payload_len(msg_len: nat) -> nat {
    if msg_len <= 13 {
        0
    } else if msg_len - 13 > 4096 {
        4096
    } else {
        (msg_len - 13) as nat
    }
}

/// The message whose marker is at `marker`. After the marker come the length
/// (2 bytes), the timestamp (8), the type (1) and the category (2), and then
/// the payload.
pub open spec fn message_at(data: Seq<u8>, marker: int) -> SdmMessageView {
    let len = payload_len(le_value(data.subrange(marker + 1, marker + 3)));
    SdmMessageView {
        offset: marker as u64,
        timestamp: le_value(data.subrange(marker + 3, marker + 11)) as u64,
        msg_type: data[marker + 11],
        category: le_value(data.subrange(marker + 12, marker + 14)) as u16,
        payload: data.subrange(marker + 14, marker + 14 + len),
    }
}

/// What comes next in a file.
pub enum Next {
    /// No further message; the search got as far as `offset`.
    End { offset: int },
    /// A message that the file ends in the middle of.
    Cut { offset: int },
    /// A message, and the offset after it.
    Message { message: SdmMessageView, offset: int },
}

/// What comes next in `data` from `offset` on. A message of length 0 is passed
/// over.
pub open spec fn next_in(data: Seq<u8>, offset: int) -> Next
    decreases data.len() - offset,
{
    match marker_from(data, offset, 4096) {
        None => Next::End { offset },
        Some(marker) => {
            let msg_len = le_value(data.subrange(marker + 1, marker + 3));
            let end = marker + 14 + payload_len(msg_len);
            if marker < offset || data.len() < marker + 14 {
                Next::End { offset }
            } else if msg_len == 0 {
                next_in(data, marker + 1)
            } else if data.len() < end {
                Next::Cut { offset }
            } else {
                Next::Message { message: message_at(data, marker), offset: end }
            }
        },
    }
}

/// A marker that is found is in the window, is a marker, and is the first.
pub proof fn lemma_marker_from(data: Seq<u8>, from: int, window: nat)
    requires
        0 <= from,
    ensures
        match marker_from(data, from, window) {
            Some(marker) => {
                &&& from <= marker < from + window
                &&& marker < data.len()
                &&& data[marker] == 0x7f
                &&& forall|i: int| from <= i < marker ==> #[trigger] data[i] != 0x7f
            },
            None => forall|i: int|
                from <= i < from + window && i < data.len() ==> #[trigger] data[i] != 0x7f,
        },
    decreases window,
{
    if window > 0 && from < data.len() && data[from] != 0x7f {
        lemma_marker_from(data, from + 1, (window - 1) as nat);
    }
}

/// What a result of [`SdmParser::next_message`] holds.
pub open spec fn optional_message(message: Option<SdmMessage>) -> Option<SdmMessageView> {
    match message {
        Some(message) => Some(message@),
        None => None,
    }
}

/// What an [`SdmParser`] stands at: the file, its header once read, and the
/// offset from which the next message is searched.
#[verifier::ext_equal]
pub struct SdmParserView {
    pub data: Seq<u8>,
    pub header: Option<SdmHeaderView>,
    pub offset: int,
}

impl SdmParserView {
    /// After the header was asked for: past it, if there is one.
    pub open spec fn after_header(self) -> SdmParserView {
        match header_of(self.data) {
            Ok(header) => SdmParserView { header: Some(header), offset: 0x140, ..self },
            Err(_) => self,
        }
    }

    /// The header has been read or can be.
    pub open spec fn readable(self) -> bool {
        self.header is Some || header_readable(self.data)
    }

    /// Before a message is searched: the header is read if it was not.
    pub open spec fn ready(self) -> SdmParserView {
        if self.header is Some {
            self
        } else {
            self.after_header()
        }
    }

    /// After the next message was asked for.
    pub open spec fn after_next(self) -> SdmParserView {
        if self.ready().header is None {
            self
        } else {
            let offset = match next_in(self.data, self.ready().offset) {
                Next::End { offset } => offset,
                Next::Cut { offset } => offset,
                Next::Message { offset, .. } => offset,
            };
            SdmParserView { offset, ..self.ready() }
        }
    }

    /// What is handed out when the next message is asked for. Without a
    /// header: the failure to read one.
    pub open spec fn next_result(self) -> Result<Option<SdmMessageView>, SdmParseError> {
        if self.ready().header is None {
            Err(header_of(self.data)->Err_0)
        } else {
            match next_in(self.data, self.ready().offset) {
                Next::End { .. } => Ok(None),
                Next::Cut { .. } => Err(SdmParseError::IoError(ReadError::UnexpectedEof)),
                Next::Message { message, .. } => Ok(Some(message)),
            }
        }
    }
}

/// SDM file parser, over the bytes of a file.
pub struct SdmParser {
    data: Vec<u8>,
    header: Option<SdmHeader>,
    current_offset: usize,
}

impl View for SdmParser {
    type V = SdmParserView;

    closed spec fn view(&self) -> SdmParserView {
        SdmParserView {
            data: self.data@,
            header: match self.header {
                Some(header) => Some(header@),
                None => None,
            },
            offset: self.current_offset as int,
        }
    }
}

impl SdmParser {
    /// What holds of every parser: the offset is not negative, and the file
    /// fits in memory.
    pub proof fn lemma_view(&self)
        ensures
            0 <= self@.offset,
            self@.data.len() <= usize::MAX,
    {
        assert(self.data.len() == self.data@.len());
    }

    /// A parser at the start of the file.
    pub fn new(reader: Vec<u8>) -> (parser: Self)
        ensures
            parser@ == (SdmParserView { data: reader@, header: None, offset: 0 }),
    {
        SdmParser { data: reader, header: None, current_offset: 0 }
    }

    /// Whether the logger version can be told, as far as the file has the
    /// bytes that it is in.
    pub fn header_readable(&self) -> (yes: bool)
        ensures
            yes == header_readable(self@.data),
    {
        if self.data.len() < 64 {
            return true;
        }
        let start = slice_subrange(self.data.as_slice(), 0, 64);
        assert(start@ =~= self.data@.take(64));
        logger_version(lossy_text(start).as_str()).is_some()
    }

    /// Parse the file header.
    pub fn parse_header(&mut self) -> (result: Result<SdmHeader, SdmParseError>)
        requires
            header_readable(old(self)@.data),
        ensures
            match result {
                Ok(header) => header_of(old(self)@.data) == Ok::<SdmHeaderView, SdmParseError>(
                    header@,
                ),
                Err(error) => header_of(old(self)@.data) == Err::<SdmHeaderView, SdmParseError>(
                    error,
                ),
            },
            final(self)@ == old(self)@.after_header(),
            result is Ok ==> {
                let data = old(self)@.data;
                &&& lossy_keeps(data.take(64))
                &&& lossy_keeps(data.subrange(0x30, 0x50))
                &&& data.len() > 0x180 ==> lossy_keeps(data.subrange(0x80, 0x180))
                &&& 0x80 <= data.len() <= 0x180 ==> lossy_keeps(data.skip(0x80))
            },
    {
        let len: usize = self.data.len();
        if len < 0x50 {
            return Err(SdmParseError::IoError(ReadError::UnexpectedEof));
        }
        let data = self.data.as_slice();

        // Find "Pixel Logger" string
        let start = slice_subrange(data, 0, 64);
        assert(start@ =~= self.data@.take(64));
        let version = logger_version(lossy_text(start).as_str()).unwrap();

        // Find timezone (after header)
        let zone = timezone(lossy_text(slice_subrange(data, 0x30, 0x50)).as_str());

        // Read extended header for IMEI and modem version
        let ext_start: usize = if len < 0x80 {
            len
        } else {
            0x80
        };
        let ext_end: usize = if len < 0x180 {
            len
        } else {
            0x180
        };
        let ext = slice_subrange(data, ext_start, ext_end);
        assert(ext@ =~= extended_header(self.data@));
        let ext_text = lossy_text(ext);
        proof {
            if len == 0x80 {
                assert(self.data@.skip(0x80) =~= ext@);
            }
        }

        let header = SdmHeader {
            logger_version: version,
            timezone: zone,
            lib_version: None,
            modem_version: modem_version(ext_text.as_str()),
            imei: imei(ext_text.as_str()),
        };
        self.header = Some(header.duplicate());
        self.current_offset = MESSAGE_AREA;
        Ok(header)
    }

    /// The first marker among the bytes that are searched from `from` on.
    fn find_marker(&self, from: usize) -> (found: Option<usize>)
        ensures
            match marker_from(self@.data, from as int, 4096) {
                Some(marker) => found == Some(marker as usize) && marker < self@.data.len(),
                None => found is None,
            },
    {
        let mut at: usize = from;
        let mut left: usize = SEARCH_WINDOW;
        while left > 0
            invariant
                from <= at,
                left <= 4096,
                marker_from(self@.data, from as int, 4096) == marker_from(
                    self@.data,
                    at as int,
                    left as nat,
                ),
            decreases left,
        {
            if at >= self.data.len() {
                return None;
            }
            if self.data[at] == 0x7f {
                return Some(at);
            }
            at += 1;
            left -= 1;
        }
        None
    }

    /// Read the next message from the file.
    pub fn next_message(&mut self) -> (result: Result<Option<SdmMessage>, SdmParseError>)
        requires
            old(self)@.readable(),
        ensures
            match result {
                Ok(message) => old(self)@.next_result() == Ok::<
                    Option<SdmMessageView>,
                    SdmParseError,
                >(optional_message(message)),
                Err(error) => old(self)@.next_result() == Err::<
                    Option<SdmMessageView>,
                    SdmParseError,
                >(error),
            },
            final(self)@ == old(self)@.after_next(),
    {
        if self.header.is_none() {
            if let Err(error) = self.parse_header() {
                return Err(error);
            }
        }
        let ghost ready = old(self)@.ready();
        loop
            invariant
                ready == old(self)@.ready(),
                ready.header is Some,
                self@.data == ready.data,
                self@.header == ready.header,
                0 <= self@.offset,
                next_in(ready.data, self@.offset) == next_in(ready.data, ready.offset),
            decreases self@.data.len() - self@.offset,
        {
            // Look for message marker 0x7f
            let marker = match self.find_marker(self.current_offset) {
                Some(marker) => marker,
                None => return Ok(None),
            };
            proof {
                lemma_marker_from(self@.data, self@.offset, 4096);
            }
            // Message structure: 7f [len:2] [timestamp:8] [type:1] [category:2] [data...]
            if self.data.len() - marker < 14 {
                return Ok(None);
            }
            let data = self.data.as_slice();
            let msg_len: usize = u16_at(data, marker + 1) as usize;
            if msg_len == 0 {
                self.current_offset = marker + 1;
                continue ;
            }
            // Read payload, capped
            let beyond: usize = if msg_len > 13 {
                msg_len - 13
            } else {
                0
            };
            let len: usize = if beyond > MAX_PAYLOAD {
                MAX_PAYLOAD
            } else {
                beyond
            };
            let start: usize = marker + 14;
            if self.data.len() - start < len {
                return Err(SdmParseError::IoError(ReadError::UnexpectedEof));
            }
            let message = SdmMessage {
                offset: marker as u64,
                timestamp: u64_at(data, marker + 3),
                msg_type: data[marker + 11],
                category: u16_at(data, marker + 12),
                payload: slice_to_vec(slice_subrange(data, start, start + len)),
            };
            self.current_offset = start + len;
            return Ok(Some(message));
        }
    }

    /// Iterate over all messages.
    pub fn messages(&mut self) -> (messages: SdmMessageIterator<'_>)
        ensures
            *messages.parser == *old(self),
            *final(self) == *final(messages.parser),
    {
        SdmMessageIterator { parser: self }
    }
}

/// The messages of a parser, one at a time.
pub struct SdmMessageIterator<'a> {
    pub parser: &'a mut SdmParser,
}

impl<'a> SdmMessageIterator<'a> {
    /// The next message, a failure to read one, or nothing at the end.
    pub fn next(&mut self) -> (item: Option<Result<SdmMessage, SdmParseError>>)
        requires
            old(self).parser@.readable(),
        ensures
            match item {
                Some(Ok(message)) => old(self).parser@.next_result() == Ok::<
                    Option<SdmMessageView>,
                    SdmParseError,
                >(Some(message@)),
                Some(Err(error)) => old(self).parser@.next_result() == Err::<
                    Option<SdmMessageView>,
                    SdmParseError,
                >(error),
                None => old(self).parser@.next_result() == Ok::<
                    Option<SdmMessageView>,
                    SdmParseError,
                >(None),
            },
            final(self).parser@ == old(self).parser@.after_next(),
            *final(final(self).parser) == *final(old(self).parser),
    {
        match self.parser.next_message() {
            Ok(Some(message)) => Some(Ok(message)),
            Ok(None) => None,
            Err(error) => Some(Err(error)),
        }
    }
}

/// The messages that come out of `data` from `offset` on, up to the end or to
/// one that the file ends in the middle of.
pub open spec fn messages_in(data: Seq<u8>, offset: int) -> Seq<SdmMessageView>
    decreases data.len() - offset,
{
    match next_in(data, offset) {
        Next::Message { message, offset: after } => if offset < after <= data.len() {
            seq![message] + messages_in(data, after)
        } else {
            seq![message]
        },
        _ => Seq::empty(),
    }
}

/// What is counted of a file.
#[derive(Debug)]
pub struct SdmStats {
    pub header: SdmHeader,
    pub total_messages: usize,
    pub lte_rrc_messages: usize,
    pub nas_messages: usize,
    pub debug_messages: usize,
    pub categories: HashMap<u16, usize>,
}

impl SdmStats {
    /// The counts are those of `messages`: in all, of each of three kinds, and
    /// by category, where a category is listed exactly if it occurs.
    pub open spec fn counts(self, messages: Seq<SdmMessageView>) -> bool {
        &&& self.total_messages == messages.len()
        &&& self.lte_rrc_messages == count(messages, |m: SdmMessageView| m.lte_rrc())
        &&& self.nas_messages == count(messages, |m: SdmMessageView| m.nas())
        &&& self.debug_messages == count(messages, |m: SdmMessageView| m.debug_log())
        &&& forall|category: u16| #[trigger]
            self.categories@.contains_key(category) <==> count(
                messages,
                |m: SdmMessageView| m.category == category,
            ) > 0
        &&& forall|category: u16| #[trigger]
            self.categories@.contains_key(category) ==> self.categories@[category] == count(
                messages,
                |m: SdmMessageView| m.category == category,
            )
    }

    /// Count one more message.
    fn add_message(&mut self, message: &SdmMessage, Ghost(before): Ghost<Seq<SdmMessageView>>)
        requires
            old(self).counts(before),
            before.len() < usize::MAX,
        ensures
            final(self).counts(before.push(message@)),
            final(self).header == old(self).header,
    {
        broadcast use vstd::std_specs::hash::group_hash_axioms;

        let ghost after = before.push(message@);
        proof {
            assert(after.drop_last() =~= before);
            lemma_count_bound(before, |m: SdmMessageView| m.lte_rrc());
            lemma_count_bound(before, |m: SdmMessageView| m.nas());
            lemma_count_bound(before, |m: SdmMessageView| m.debug_log());
            lemma_count_bound(before, |m: SdmMessageView| m.category == message.category);
        }
        self.total_messages += 1;
        let seen: usize = match self.categories.get(&message.category) {
            Some(seen) => *seen,
            None => 0,
        };
        self.categories.insert(message.category, seen + 1);
        if message.is_lte_rrc() {
            self.lte_rrc_messages += 1;
        }
        if message.is_nas() {
            self.nas_messages += 1;
        }
        if message.is_debug_log() {
            self.debug_messages += 1;
        }
    }
}

/// Quick function to dump SDM file statistics.
pub fn analyze_sdm_file(reader: Vec<u8>) -> (result: Result<SdmStats, SdmParseError>)
    requires
        header_readable(reader@),
    ensures
        match result {
            Ok(stats) => {
                &&& header_of(reader@) == Ok::<SdmHeaderView, SdmParseError>(stats.header@)
                &&& stats.counts(messages_in(reader@, 0x140))
            },
            Err(error) => header_of(reader@) == Err::<SdmHeaderView, SdmParseError>(error),
        },
{
    broadcast use vstd::std_specs::hash::group_hash_axioms;

    let ghost data = reader@;
    let limit: usize = reader.len();
    let mut parser = SdmParser::new(reader);
    let header = match parser.parse_header() {
        Ok(header) => header,
        Err(error) => return Err(error),
    };
    let mut stats = SdmStats {
        header,
        total_messages: 0,
        lte_rrc_messages: 0,
        nas_messages: 0,
        debug_messages: 0,
        categories: HashMap::new(),
    };
    let mut messages = parser.messages();
    let ghost mut seen: Seq<SdmMessageView> = Seq::empty();
    assert(seen + messages_in(data, 0x140) =~= messages_in(data, 0x140));
    loop
        invariant_except_break
            messages.parser@.data == data,
            messages.parser@.header is Some,
            0 <= messages.parser@.offset,
            seen.len() > 0 ==> seen.len() <= messages.parser@.offset <= data.len(),
            data.len() == limit,
            seen + messages_in(data, messages.parser@.offset) == messages_in(data, 0x140),
            stats.header@ == header@,
            stats.counts(seen),
        ensures
            stats.header@ == header@,
            stats.counts(messages_in(data, 0x140)),
        decreases data.len() - messages.parser@.offset,
    {
        let ghost offset = messages.parser@.offset;
        proof {
            lemma_next_in(data, offset);
        }
        match messages.next() {
            Some(Ok(message)) => {
                proof {
                    let rest = messages_in(data, messages.parser@.offset);
                    assert(seen + (seq![message@] + rest) =~= seen.push(message@) + rest);
                }
                stats.add_message(&message, Ghost(seen));
                proof {
                    seen = seen.push(message@);
                }
            },
            Some(Err(_)) => {
                assert(seen + Seq::<SdmMessageView>::empty() =~= seen);
                break ;
            },
            None => {
                assert(seen + Seq::<SdmMessageView>::empty() =~= seen);
                break ;
            },
        }
    }
    Ok(stats)
}

/// The statistics of a file, or nothing where its logger version cannot be
/// told.
pub fn try_analyze_sdm_file(reader: Vec<u8>) -> (result: Option<Result<SdmStats, SdmParseError>>)
    ensures
        match result {
            Some(Ok(stats)) => {
                &&& header_readable(reader@)
                &&& header_of(reader@) == Ok::<SdmHeaderView, SdmParseError>(stats.header@)
                &&& stats.counts(messages_in(reader@, 0x140))
            },
            Some(Err(error)) => {
                &&& header_readable(reader@)
                &&& header_of(reader@) == Err::<SdmHeaderView, SdmParseError>(error)
            },
            None => !header_readable(reader@),
        },
{
    let parser = SdmParser::new(reader);
    if parser.header_readable() {
        Some(analyze_sdm_file(parser.data))
    } else {
        None
    }
}

/// What comes next starts at a marker at or after `offset`, lies within the
/// file, and leaves the search further on.
pub proof fn lemma_next_in(data: Seq<u8>, offset: int)
    requires
        0 <= offset,
        data.len() <= u64::MAX,
    ensures
        match next_in(data, offset) {
            Next::End { offset: after } => offset <= after,
            Next::Cut { offset: after } => offset <= after,
            Next::Message { message, offset: after } => {
                &&& offset <= message.offset < after <= data.len()
                &&& data[message.offset as int] == 0x7f
                &&& message.payload.len() <= 4096
                &&& message.payload.is_suffix_of(data.take(after))
            },
        },
    decreases data.len() - offset,
{
    lemma_marker_from(data, offset, 4096);
    if let Some(marker) = marker_from(data, offset, 4096) {
        let msg_len = le_value(data.subrange(marker + 1, marker + 3));
        if data.len() >= marker + 14 && msg_len == 0 {
            lemma_next_in(data, marker + 1);
        }
    }
}

/// The messages of a file come out in the order in which their markers stand
/// in it, each at a marker of its own at or after `offset`.
pub proof fn law_messages_in_file_order(data: Seq<u8>, offset: int)
    requires
        0 <= offset,
        data.len() <= u64::MAX,
    ensures
        forall|i: int|
            0 <= i < messages_in(data, offset).len() ==> {
                let at = (#[trigger] messages_in(data, offset)[i]).offset;
                offset <= at < data.len() && data[at as int] == 0x7f
            },
        forall|i: int, j: int|
            0 <= i < j < messages_in(data, offset).len() ==> (#[trigger] messages_in(
                data,
                offset,
            )[i]).offset < (#[trigger] messages_in(data, offset)[j]).offset,
    decreases data.len() - offset,
{
    lemma_next_in(data, offset);
    if let Next::Message { message, offset: after } = next_in(data, offset) {
        law_messages_in_file_order(data, after);
        let all = messages_in(data, offset);
        let rest = messages_in(data, after);
        assert(forall|i: int| 0 < i < all.len() ==> #[trigger] all[i] == rest[i - 1]);
    }
}

/// The categories of the two kinds of protocol messages, and of no other.
pub proof fn law_kinds_by_category(message: SdmMessageView)
    ensures
        message.lte_rrc() <==> message.category / 0x100 == 1,
        message.nas() <==> message.category / 0x100 == 2,
{
}

proof fn lemma_count_is_filter<T>(items: Seq<T>, pred: spec_fn(T) -> bool)
    ensures
        count(items, pred) == items.filter(pred).len(),
    decreases items.len(),
{
    reveal(Seq::filter);
    if items.len() > 0 {
        lemma_count_is_filter(items.drop_last(), pred);
    }
}

/// A message is a debug log exactly if more than half of its bytes lie between
/// the space, 0x20, and the tilde, 0x7e.
pub proof fn law_debug_by_printable_bytes(message: SdmMessageView)
    ensures
        message.debug_log() <==> 2 * message.payload.filter(
            |b: u8| 0x20 <= b && b <= 0x7e,
        ).len() > message.payload.len(),
{
    let wanted = |b: u8| is_printable(b);
    let literal = |b: u8| 0x20 <= b && b <= 0x7e;
    assert(wanted =~= literal);
    lemma_count_is_filter(message.payload, wanted);
}

/// A payload of printable characters alone is a debug log, and is given as text,
/// character for character; one without any is none, and is not given.
pub proof fn law_printable_payload_is_text(message: SdmMessageView)
    requires
        message.payload.len() > 0,
    ensures
        (forall|i: int|
            0 <= i < message.payload.len() ==> 0x20 <= #[trigger] message.payload[i] <= 0x7e) ==> {
            &&& message.debug_log()
            &&& message.text() == Some(
                Seq::new(message.payload.len(), |i: int| message.payload[i] as char),
            )
        },
        (forall|i: int|
            0 <= i < message.payload.len() ==> (#[trigger] message.payload[i] < 0x20
                || message.payload[i] > 0x7e)) ==> !message.debug_log() && message.text() is None,
{
    let wanted = |b: u8| is_printable(b);
    if forall|i: int|
        0 <= i < message.payload.len() ==> 0x20 <= #[trigger] message.payload[i] <= 0x7e {
        lemma_count_everywhere(message.payload, wanted);
        lemma_ascii(message.payload);
        assert(ascii_chars(message.payload) =~= Seq::new(
            message.payload.len(),
            |i: int| message.payload[i] as char,
        ));
    }
    if forall|i: int|
        0 <= i < message.payload.len() ==> (#[trigger] message.payload[i] < 0x20
            || message.payload[i] > 0x7e) {
        lemma_count_nowhere(message.payload, wanted);
    }
}

proof fn lemma_count_everywhere<T>(items: Seq<T>, pred: spec_fn(T) -> bool)
    requires
        forall|i: int| 0 <= i < items.len() ==> pred(#[trigger] items[i]),
    ensures
        count(items, pred) == items.len(),
    decreases items.len(),
{
    if items.len() > 0 {
        let before = items.drop_last();
        assert forall|i: int| 0 <= i < before.len() implies pred(#[trigger] before[i]) by {
            assert(before[i] == items[i]);
        }
        lemma_count_everywhere(before, pred);
    }
}

proof fn lemma_count_nowhere<T>(items: Seq<T>, pred: spec_fn(T) -> bool)
    requires
        forall|i: int| 0 <= i < items.len() ==> !pred(#[trigger] items[i]),
    ensures
        count(items, pred) == 0,
    decreases items.len(),
{
    if items.len() > 0 {
        let before = items.drop_last();
        assert forall|i: int| 0 <= i < before.len() implies !pred(#[trigger] before[i]) by {
            assert(before[i] == items[i]);
        }
        lemma_count_nowhere(before, pred);
    }
}

/// What is counted of messages: how many there are, how many of them have a
/// category from 0x100 to 0x1ff, how many one from 0x200 to 0x2ff, how many are
/// printable for more than half, and how many have each category; a category
/// that none has is not listed.
pub proof fn law_what_is_counted(stats: SdmStats, messages: Seq<SdmMessageView>)
    requires
        stats.counts(messages),
    ensures
        stats.total_messages == messages.len(),
        stats.lte_rrc_messages == messages.filter(
            |m: SdmMessageView| 0x100 <= m.category && m.category <= 0x1ff,
        ).len(),
        stats.nas_messages == messages.filter(
            |m: SdmMessageView| 0x200 <= m.category && m.category <= 0x2ff,
        ).len(),
        stats.debug_messages == messages.filter(
            |m: SdmMessageView|
                2 * m.payload.filter(|b: u8| 0x20 <= b && b <= 0x7e).len() > m.payload.len(),
        ).len(),
        forall|category: u16| #[trigger]
            stats.categories@.contains_key(category) ==> stats.categories@[category]
                == messages.filter(|m: SdmMessageView| m.category == category).len(),
        forall|category: u16| #[trigger]
            stats.categories@.contains_key(category) <==> messages.filter(
                |m: SdmMessageView| m.category == category,
            ).len() > 0,
{
    let lte_rrc = |m: SdmMessageView| m.lte_rrc();
    let nas = |m: SdmMessageView| m.nas();
    let debug = |m: SdmMessageView| m.debug_log();
    lemma_count_is_filter(messages, lte_rrc);
    lemma_count_is_filter(messages, nas);
    lemma_count_is_filter(messages, debug);
    assert(lte_rrc =~= (|m: SdmMessageView| 0x100 <= m.category && m.category <= 0x1ff));
    assert(nas =~= (|m: SdmMessageView| 0x200 <= m.category && m.category <= 0x2ff));
    let printable = |m: SdmMessageView|
        2 * m.payload.filter(|b: u8| 0x20 <= b && b <= 0x7e).len() > m.payload.len();
    assert forall|m: SdmMessageView| #[trigger] debug(m) == printable(m) by {
        law_debug_by_printable_bytes(m);
    }
    assert(debug =~= printable);
    assert forall|category: u16| #[trigger]
        stats.categories@.contains_key(category) implies stats.categories@[category]
        == messages.filter(|m: SdmMessageView| m.category == category).len() by {
        lemma_count_is_filter(messages, |m: SdmMessageView| m.category == category);
    }
    assert forall|category: u16| #[trigger]
        stats.categories@.contains_key(category) <==> messages.filter(
            |m: SdmMessageView| m.category == category,
        ).len() > 0 by {
        lemma_count_is_filter(messages, |m: SdmMessageView| m.category == category);
    }
}

/// What comes next in a file, byte by byte, where the first 0x7f from the offset
/// on stands at `marker`, fewer than 4096 bytes on. Behind it come the length (2
/// bytes), the timestamp (8), the type (1), the category (2), and as many bytes
/// of payload as the length says beyond 13, but not more than 4096; numbers low
/// byte first. A length of 0 is passed over.
pub proof fn law_message_byte_by_byte(parser: SdmParserView, marker: int)
    requires
        parser.header is Some,
        0 <= parser.offset <= marker < parser.offset + 4096,
        marker < parser.data.len() <= u64::MAX,
        parser.data[marker] == 0x7f,
        forall|i: int| parser.offset <= i < marker ==> #[trigger] parser.data[i] != 0x7f,
    ensures
        ({
            let data = parser.data;
            let len = data[marker + 1] + 0x100 * data[marker + 2];
            let size = if len <= 13 {
                0
            } else if len <= 4109 {
                len - 13
            } else {
                4096
            };
            let end = marker + 14 + size;
            &&& data.len() < marker + 14 ==> parser.next_result() == Ok::<_, SdmParseError>(
                None::<SdmMessageView>,
            ) && parser.after_next() == parser
            &&& data.len() >= marker + 14 && len == 0 ==> {
                let on = SdmParserView { offset: marker + 1, ..parser };
                &&& parser.next_result() == on.next_result()
                &&& parser.after_next() == on.after_next()
            }
            &&& data.len() >= marker + 14 && len > 0 && data.len() < end ==> parser.next_result()
                == Err::<Option<SdmMessageView>, _>(
                SdmParseError::IoError(ReadError::UnexpectedEof),
            ) && parser.after_next() == parser
            &&& data.len() >= marker + 14 && len > 0 && data.len() >= end ==> {
                &&& parser.next_result() is Ok
                &&& parser.next_result()->Ok_0 matches Some(message)
                &&& message.offset == marker
                &&& message.timestamp == data[marker + 3] + 0x100 * data[marker + 4] + 0x1_0000
                    * data[marker + 5] + 0x100_0000 * data[marker + 6] + 0x1_0000_0000
                    * data[marker + 7] + 0x100_0000_0000 * data[marker + 8] + 0x1_0000_0000_0000
                    * data[marker + 9] + 0x100_0000_0000_0000 * data[marker + 10]
                &&& message.msg_type == data[marker + 11]
                &&& message.category == data[marker + 12] + 0x100 * data[marker + 13]
                &&& message.payload == data.subrange(marker + 14, end)
                &&& parser.after_next() == (SdmParserView { offset: end, ..parser })
            }
        }),
{
    let data = parser.data;
    lemma_marker_from(data, parser.offset, 4096);
    let found = marker_from(data, parser.offset, 4096);
    assert(found == Some(marker)) by {
        if let Some(other) = found {
            if other < marker {
                assert(data[other] != 0x7f);
            } else if marker < other {
                assert(data[marker] != 0x7f);
            }
        } else {
            assert(data[marker] != 0x7f);
        }
    }
    if data.len() >= marker + 14 {
        law_place_values(data.subrange(marker + 1, marker + 3), 0);
        law_place_values(data.subrange(marker + 3, marker + 11), 0);
        law_place_values(data.subrange(marker + 12, marker + 14), 0);
    }
}

/// Where there is no 0x7f in the next 4096 bytes, or as far as the file goes, no
/// message comes.
pub proof fn law_no_marker_no_message(parser: SdmParserView)
    requires
        parser.header is Some,
        0 <= parser.offset,
        forall|i: int|
            parser.offset <= i < parser.offset + 4096 && i < parser.data.len() ==> #[trigger]
                parser.data[i] != 0x7f,
    ensures
        parser.next_result() == Ok::<_, SdmParseError>(None::<SdmMessageView>),
        parser.after_next() == parser,
{
    lemma_marker_from(parser.data, parser.offset, 4096);
}

/// Without a header read, the first message asked for is the first from 0x140
/// on, where the file is long enough for its fixed fields, 0x50 bytes; where it
/// is not, there is neither header nor message.
pub proof fn law_messages_begin_after_the_header(parser: SdmParserView)
    requires
        parser.header is None,
    ensures
        parser.data.len() >= 0x50 ==> {
            let started = parser.after_header();
            &&& header_of(parser.data) is Ok
            &&& started.header == Some(header_of(parser.data)->Ok_0)
            &&& started.offset == 0x140 && started.data == parser.data
            &&& parser.next_result() == started.next_result()
            &&& parser.after_next() == started.after_next()
        },
        parser.data.len() < 0x50 ==> {
            &&& header_of(parser.data) == Err::<SdmHeaderView, _>(
                SdmParseError::IoError(ReadError::UnexpectedEof),
            )
            &&& parser.next_result() == Err::<Option<SdmMessageView>, _>(
                SdmParseError::IoError(ReadError::UnexpectedEof),
            )
            &&& parser.after_next() == parser
        },
{
}

/// The messages of a file are those that are handed out when they are asked for
/// one by one, up to the first time that none is.
pub proof fn law_messages_one_by_one(parser: SdmParserView)
    requires
        parser.header is Some,
        0 <= parser.offset,
        parser.data.len() <= u64::MAX,
    ensures
        match parser.next_result() {
            Ok(Some(message)) => messages_in(parser.data, parser.offset) == seq![message]
                + messages_in(parser.data, parser.after_next().offset),
            _ => messages_in(parser.data, parser.offset).len() == 0,
        },
{
    lemma_next_in(parser.data, parser.offset);
}

/// The timezone is read back as it was put in: where the field at 0x30, of 32
/// bytes, holds ASCII characters other than NUL, and a NUL behind them if they
/// do not fill it, the timezone is exactly these characters.
pub proof fn law_timezone_read_back(data: Seq<u8>, zone: Seq<char>)
    requires
        data.len() >= 0x50,
        zone.len() <= 32,
        forall|i: int|
            0 <= i < zone.len() ==> #[trigger] zone[i] != '\0' && zone[i] == data[0x30 + i] as char,
        zone.len() < 32 ==> data[0x30 + zone.len() as int] == 0,
        forall|i: int| 0x30 <= i < 0x50 ==> #[trigger] data[i] < 0x80,
    ensures
        lossy_keeps(data.subrange(0x30, 0x50)) ==> header_of(data)->Ok_0.timezone == zone,
{
    let field = data.subrange(0x30, 0x50);
    lemma_ascii(field);
    let text = ascii_chars(field);
    assert forall|i: int| 0 <= i < zone.len() implies #[trigger] text[i] == zone[i] by {
        assert(field[i] == data[0x30 + i] && data[0x30 + i] < 0x80);
        assert(zone[i] != '\0');
    }
    if zone.len() < 32 {
        assert(field[zone.len() as int] == data[0x30 + zone.len() as int]);
        assert(text[zone.len() as int] == '\0');
    }
    assert forall|i: int| 0 <= i < zone.len() implies #[trigger] text[i] != '\0' by {
        assert(text[i] == zone[i]);
    }
    lemma_index_of_char_unique(text, '\0', zone.len() as int);
    assert(text.take(zone.len() as int) =~= zone);
}

/// The logger version without a NUL takes 32 bytes of UTF-8, as this says of any
/// number of bytes: what is given is a prefix that takes exactly as many, and it
/// is given wherever there is one.
pub proof fn law_prefix_of_bytes(text: Seq<char>, bytes: nat, len: int)
    ensures
        prefix_of_bytes(text, bytes) matches Some(prefix) ==> prefix.is_prefix_of(text)
            && encode_utf8(prefix).len() == bytes,
        0 <= len <= text.len() && encode_utf8(text.take(len)).len() == bytes
            ==> prefix_of_bytes(text, bytes) == Some(text.take(len)),
    decreases text.len(),
{
    if text.len() > 0 && bytes > 0 {
        let rest = text.drop_first();
        let width = utf8_width(text[0]);
        vstd::utf8::char_is_scalar(text[0]);
        if width <= bytes {
            law_prefix_of_bytes(rest, (bytes - width) as nat, len - 1);
        }
        if let Some(prefix) = prefix_of_bytes(text, bytes) {
            assert(prefix.drop_first() =~= prefix_of_bytes(rest, (bytes - width) as nat)->0);
            assert(prefix =~= text.take(prefix.len() as int));
        }
        if 0 <= len <= text.len() && encode_utf8(text.take(len)).len() == bytes {
            assert(len > 0);
            assert(text.take(len).drop_first() =~= rest.take(len - 1));
            assert(seq![text[0]] + rest.take(len - 1) =~= text.take(len));
        }
    } else if 0 <= len <= text.len() && encode_utf8(text.take(len)).len() == bytes {
        if len > 0 {
            vstd::utf8::char_is_scalar(text.take(len)[0]);
        }
        assert(text.take(0) =~= Seq::<char>::empty());
    }
}

proof fn lemma_ascii_prefix(text: Seq<char>, bytes: nat)
    requires
        forall|i: int| 0 <= i < text.len() ==> ((#[trigger] text[i]) as u32) < 0x80,
    ensures
        bytes <= text.len() ==> prefix_of_bytes(text, bytes) == Some(text.take(bytes as int)),
        bytes > text.len() ==> prefix_of_bytes(text, bytes) is None,
    decreases text.len(),
{
    if bytes > 0 && text.len() > 0 {
        let rest = text.drop_first();
        assert((text[0] as u32) < 0x80);
        assert(utf8_width(text[0]) == 1);
        assert forall|i: int| 0 <= i < rest.len() implies ((#[trigger] rest[i]) as u32) < 0x80 by {
            assert(rest[i] == text[i + 1]);
        }
        lemma_ascii_prefix(rest, (bytes - 1) as nat);
        if bytes <= text.len() {
            assert(seq![text[0]] + rest.take(bytes - 1) =~= text.take(bytes as int));
        }
    } else if bytes == 0 {
        assert(text.take(0) =~= Seq::<char>::empty());
    }
}

/// The logger version begins where "Pixel Logger" first stands. It goes up to
/// the first NUL behind it, or, in ASCII without one, for 32 characters, which
/// have to be there. Where "Pixel Logger" does not stand, it is "Unknown".
pub proof fn law_logger_version(text: Seq<char>, start: int, end: int)
    ensures
        (forall|k: int|
            0 <= k <= text.len() - 12 ==> #[trigger] text.subrange(k, k + 12)
                != "Pixel Logger"@) ==> logger_version_in(text) == Some("Unknown"@),
        0 <= start <= text.len() - 12 && text.subrange(start, start + 12) == "Pixel Logger"@ && (
        forall|k: int|
            0 <= k < start ==> #[trigger] text.subrange(k, k + 12) != "Pixel Logger"@) ==> {
            &&& start <= end < text.len() && text[end] == '\0' && (forall|i: int|
                start <= i < end ==> #[trigger] text[i] != '\0') ==> logger_version_in(text)
                == Some(text.subrange(start, end))
            &&& (forall|i: int|
                start <= i < text.len() ==> #[trigger] text[i] != '\0' && (text[i] as u32)
                    < 0x80) ==> {
                &&& start + 32 <= text.len() ==> logger_version_in(text) == Some(
                    text.subrange(start, start + 32),
                )
                &&& start + 32 > text.len() ==> logger_version_in(text) is None
            }
        },
{
    let name = "Pixel Logger"@;
    reveal_strlit("Pixel Logger");
    if forall|k: int|
        0 <= k <= text.len() - 12 ==> #[trigger] text.subrange(k, k + 12) != "Pixel Logger"@ {
        assert forall|at: int| !occurs_at(text, name, at) by {
            if occurs_at(text, name, at) {
                assert(text.subrange(at, at + 12) != "Pixel Logger"@);
            }
        }
    }
    if 0 <= start <= text.len() - 12 && text.subrange(start, start + 12) == name && (forall|k: int|
        0 <= k < start ==> #[trigger] text.subrange(k, k + 12) != name) {
        assert(occurs_at(text, name, start));
        assert forall|earlier: int| occurs_at(text, name, earlier) implies start <= earlier by {
            if earlier < start {
                assert(text.subrange(earlier, earlier + 12) != name);
            }
        }
        lemma_first_occurrence(text, name, start);
        let rest = text.skip(start);
        assert(forall|i: int| 0 <= i < rest.len() ==> #[trigger] rest[i] == text[start + i]);
        lemma_index_of_char(rest, '\0');
        if start <= end < text.len() && text[end] == '\0' && (forall|i: int|
            start <= i < end ==> #[trigger] text[i] != '\0') {
            assert(rest[end - start] == text[end]);
            lemma_index_of_char_unique(rest, '\0', end - start);
            assert(rest.take(end - start) =~= text.subrange(start, end));
        }
        if forall|i: int|
            start <= i < text.len() ==> #[trigger] text[i] != '\0' && (text[i] as u32) < 0x80 {
            let found = index_of_char(rest, '\0') as int;
            if found < rest.len() {
                assert(rest[found] == text[start + found]);
            }
            lemma_ascii_prefix(rest, 32);
            if start + 32 <= text.len() {
                assert(rest.take(32) =~= text.subrange(start, start + 32));
            }
        }
    }
}

/// `text` from `from` up to `to` is all that stands between two semicolons, or
/// between one and an end of the text.
pub open spec fn is_field(text: Seq<char>, from: int, to: int) -> bool {
    &&& 0 <= from <= to <= text.len()
    &&& from == 0 || text[from - 1] == ';'
    &&& to == text.len() || text[to] == ';'
    &&& forall|i: int| from <= i < to ==> #[trigger] text[i] != ';'
}

proof fn lemma_first_field(text: Seq<char>, pred: spec_fn(Seq<char>) -> bool)
    ensures
        match first_where(pieces(text, ';'), pred) {
            Some(found) => exists|from: int, to: int|
                {
                    &&& #[trigger] is_field(text, from, to)
                    &&& found == text.subrange(from, to)
                    &&& pred(found)
                    &&& forall|a: int, b: int| #[trigger]
                        is_field(text, a, b) && a < from ==> !pred(text.subrange(a, b))
                },
            None => forall|a: int, b: int| #[trigger]
                is_field(text, a, b) ==> !pred(text.subrange(a, b)),
        },
    decreases text.len(),
{
    lemma_index_of_char(text, ';');
    let cut = index_of_char(text, ';') as int;
    let all = pieces(text, ';');
    let first = text.take(cut);
    assert(is_field(text, 0, cut));
    assert(first =~= text.subrange(0, cut));
    assert forall|b: int| #[trigger] is_field(text, 0, b) implies b == cut by {
        if b < cut {
            assert(text[b] != ';');
        } else if cut < b {
            assert(text[cut] != ';');
        }
    }
    assert forall|a: int, b: int| #[trigger] is_field(text, a, b) && a > 0 implies cut < a by {
        if a <= cut {
            assert(text[a - 1] != ';');
        }
    }
    if cut == text.len() {
        assert(first =~= text);
        assert(all =~= seq![text]);
        assert(all.drop_first() =~= Seq::<Seq<char>>::empty());
        reveal_with_fuel(first_where, 2);
    } else {
        let rest = text.skip(cut + 1);
        let shift = cut + 1;
        assert(all[0] == first);
        assert(all.drop_first() =~= pieces(rest, ';'));
        lemma_first_field(rest, pred);
        assert forall|a: int, b: int| #[trigger] is_field(text, a, b) && a > 0 implies is_field(
            rest,
            a - shift,
            b - shift,
        ) && rest.subrange(a - shift, b - shift) == text.subrange(a, b) by {
            assert(forall|i: int| 0 <= i < rest.len() ==> #[trigger] rest[i] == text[shift + i]);
            assert(rest.subrange(a - shift, b - shift) =~= text.subrange(a, b));
        }
        if !pred(first) {
            if let Some(found) = first_where(pieces(rest, ';'), pred) {
                let (from, to) = choose|from: int, to: int|
                    {
                        &&& #[trigger] is_field(rest, from, to)
                        &&& found == rest.subrange(from, to)
                        &&& pred(found)
                        &&& forall|a: int, b: int| #[trigger]
                            is_field(rest, a, b) && a < from ==> !pred(rest.subrange(a, b))
                    };
                assert(forall|i: int| 0 <= i < rest.len() ==> #[trigger] rest[i] == text[shift + i]);
                assert forall|i: int| from + shift <= i < to + shift implies #[trigger] text[i]
                    != ';' by {
                    assert(rest[i - shift] == text[i]);
                }
                assert(is_field(text, from + shift, to + shift));
                assert(text.subrange(from + shift, to + shift) =~= rest.subrange(from, to));
                assert forall|a: int, b: int| #[trigger]
                    is_field(text, a, b) && a < from + shift implies !pred(
                    text.subrange(a, b),
                ) by {
                    if a > 0 {
                        assert(is_field(rest, a - shift, b - shift));
                    }
                }
            } else {
                assert forall|a: int, b: int| #[trigger] is_field(text, a, b) implies !pred(
                    text.subrange(a, b),
                ) by {
                    if a > 0 {
                        assert(is_field(rest, a - shift, b - shift));
                    }
                }
            }
        }
    }
}

/// The IMEI is the first field between semicolons that is made of 15 decimal
/// digits; where no field is, there is none.
pub proof fn law_imei(text: Seq<char>)
    ensures
        match imei_in(text) {
            Some(found) => exists|from: int|
                {
                    &&& #[trigger] is_field(text, from, from + 15)
                    &&& found == text.subrange(from, from + 15)
                    &&& forall|i: int| 0 <= i < 15 ==> '0' <= #[trigger] found[i] <= '9'
                    &&& forall|a: int| #[trigger]
                        is_field(text, a, a + 15) && a < from ==> exists|i: int|
                            a <= i < a + 15 && !('0' <= #[trigger] text[i] <= '9')
                },
            None => forall|a: int| #[trigger]
                is_field(text, a, a + 15) ==> exists|i: int|
                    a <= i < a + 15 && !('0' <= #[trigger] text[i] <= '9'),
        },
{
    let pred = |piece: Seq<char>| is_imei(piece);
    lemma_first_field(text, pred);
    assert forall|a: int| #[trigger] is_field(text, a, a + 15) && !pred(
        text.subrange(a, a + 15),
    ) implies exists|i: int| a <= i < a + 15 && !('0' <= #[trigger] text[i] <= '9') by {
        let piece = text.subrange(a, a + 15);
        let k = choose|k: int| 0 <= k < piece.len() && !('0' <= #[trigger] piece[k] <= '9');
        assert(text[a + k] == piece[k]);
    }
    if let Some(found) = imei_in(text) {
        let (from, to) = choose|from: int, to: int|
            {
                &&& #[trigger] is_field(text, from, to)
                &&& found == text.subrange(from, to)
                &&& pred(found)
                &&& forall|a: int, b: int| #[trigger]
                    is_field(text, a, b) && a < from ==> !pred(text.subrange(a, b))
            };
        assert(to == from + 15);
        assert(is_field(text, from, from + 15));
    }
}

/// The modem version is the first field between semicolons that begins with
/// "g5"; where no field does, there is none.
pub proof fn law_modem_version(text: Seq<char>)
    ensures
        match modem_version_in(text) {
            Some(found) => exists|from: int, to: int|
                {
                    &&& #[trigger] is_field(text, from, to)
                    &&& found == text.subrange(from, to)
                    &&& to - from >= 2 && text[from] == 'g' && text[from + 1] == '5'
                    &&& forall|a: int, b: int| #[trigger]
                        is_field(text, a, b) && a < from ==> !(b - a >= 2 && text[a] == 'g'
                            && text[a + 1] == '5')
                },
            None => forall|a: int, b: int| #[trigger]
                is_field(text, a, b) ==> !(b - a >= 2 && text[a] == 'g' && text[a + 1] == '5'),
        },
{
    let pred = |piece: Seq<char>| is_modem_version(piece);
    lemma_first_field(text, pred);
    assert forall|a: int, b: int| #[trigger] is_field(text, a, b) implies pred(text.subrange(a, b))
        == (b - a >= 2 && text[a] == 'g' && text[a + 1] == '5') by {
        let piece = text.subrange(a, b);
        if b - a >= 2 {
            assert(piece[0] == text[a] && piece[1] == text[a + 1]);
        }
    }
    if let Some(found) = modem_version_in(text) {
        let (from, to) = choose|from: int, to: int|
            {
                &&& #[trigger] is_field(text, from, to)
                &&& found == text.subrange(from, to)
                &&& pred(found)
                &&& forall|a: int, b: int| #[trigger]
                    is_field(text, a, b) && a < from ==> !pred(text.subrange(a, b))
            };
        assert(is_field(text, from, to));
    }
}

/// Where the fields of a header stand in a file: the logger version in the first
/// 64 bytes, the timezone in the 32 from 0x30 on, the modem version and the IMEI
/// in the 256 from 0x80 on or as many as there are. A file of ASCII characters
/// is read as these; there is never a library version.
pub proof fn law_where_header_fields_are(data: Seq<u8>)
    requires
        data.len() >= 0x50,
        forall|i: int| 0 <= i < data.len() ==> #[trigger] data[i] < 0x80,
    ensures
        ({
            let text = Seq::new(data.len(), |i: int| data[i] as char);
            let header = header_of(data)->Ok_0;
            let end = if data.len() < 0x180 {
                data.len() as int
            } else {
                0x180
            };
            &&& header_of(data) is Ok
            &&& header.lib_version is None
            &&& lossy_keeps(data.take(64)) && logger_version_in(text.take(64)) is Some
                ==> logger_version_in(text.take(64)) == Some(header.logger_version)
            &&& lossy_keeps(data.take(64)) ==> (header_readable(data) <==> logger_version_in(
                text.take(64),
            ) is Some)
            &&& lossy_keeps(data.subrange(0x30, 0x50)) ==> header.timezone == timezone_in(
                text.subrange(0x30, 0x50),
            )
            &&& data.len() >= 0x80 && lossy_keeps(data.subrange(0x80, end)) ==> {
                &&& header.modem_version == modem_version_in(text.subrange(0x80, end))
                &&& header.imei == imei_in(text.subrange(0x80, end))
            }
        }),
{
    let text = Seq::new(data.len(), |i: int| data[i] as char);
    let end = if data.len() < 0x180 {
        data.len() as int
    } else {
        0x180
    };
    lemma_ascii(data.take(64));
    assert(ascii_chars(data.take(64)) =~= text.take(64));
    lemma_ascii(data.subrange(0x30, 0x50));
    assert(ascii_chars(data.subrange(0x30, 0x50)) =~= text.subrange(0x30, 0x50));
    if data.len() >= 0x80 {
        lemma_ascii(data.subrange(0x80, end));
        assert(ascii_chars(data.subrange(0x80, end)) =~= text.subrange(0x80, end));
        assert(extended_header(data) =~= data.subrange(0x80, end));
    }
}

/// The bytes of a run of messages, one after the other.
pub open spec fn written(messages: Seq<SdmMessageView>) -> Seq<u8>
    decreases messages.len(),
{
    if messages.len() == 0 {
        Seq::empty()
    } else {
        messages[0].encoded() + written(messages.drop_first())
    }
}

/// The messages have the offsets that they stand at when they are written one
/// after the other from `at` on, and none has a payload longer than the cap.
pub open spec fn placed(messages: Seq<SdmMessageView>, at: int) -> bool
    decreases messages.len(),
{
    messages.len() > 0 ==> {
        &&& messages[0].offset == at
        &&& messages[0].payload.len() <= MAX_PAYLOAD
        &&& placed(messages.drop_first(), at + messages[0].encoded().len())
    }
}

/// Messages that stand one after the other all come out, as they were written:
/// each ends where the marker of the next one is.
pub proof fn law_messages_read_back(data: Seq<u8>, offset: int, messages: Seq<SdmMessageView>)
    requires
        0 <= offset <= data.len() <= u64::MAX,
        data.skip(offset) == written(messages),
        placed(messages, offset),
    ensures
        messages_in(data, offset) == messages,
    decreases messages.len(),
{
    let rest = data.skip(offset);
    if messages.len() == 0 {
        assert(messages_in(data, offset) =~= messages);
    } else {
        let first = messages[0];
        let size = 14 + first.payload.len() as int;
        lemma_le_bytes_len((13 + first.payload.len()) as nat, 2);
        lemma_le_bytes_len(first.timestamp as nat, 8);
        lemma_le_bytes_len(first.category as nat, 2);
        assert(le_range(2) == 0x1_0000 && le_range(8) == 0x1_0000_0000_0000_0000) by {
            reveal_with_fuel(le_range, 9);
        }
        law_value_of_bytes((13 + first.payload.len()) as nat, 2);
        law_value_of_bytes(first.timestamp as nat, 8);
        law_value_of_bytes(first.category as nat, 2);
        assert(first.encoded().len() == size);
        let bytes = first.encoded();
        let len = (13 + first.payload.len()) as nat;
        assert(rest.len() == data.len() - offset && rest.len() >= size);
        assert(rest.take(size) =~= bytes);
        assert(data.subrange(offset, offset + size) =~= rest.take(size)) by {
            assert(forall|i: int| 0 <= i < size ==> data[offset + i] == #[trigger] rest[i]);
        }
        assert(data[offset] == data.subrange(offset, offset + size)[0]);
        assert(data[offset] == bytes[0]);
        assert(marker_from(data, offset, 4096) == Some(offset));
        assert(data.subrange(offset + 1, offset + 3) =~= bytes.subrange(1, 3));
        assert(bytes.subrange(1, 3) =~= le_bytes(len, 2));
        assert(data.subrange(offset + 3, offset + 11) =~= bytes.subrange(3, 11));
        assert(bytes.subrange(3, 11) =~= le_bytes(first.timestamp as nat, 8));
        assert(data[offset + 11] == bytes[11]);
        assert(data.subrange(offset + 12, offset + 14) =~= bytes.subrange(12, 14));
        assert(bytes.subrange(12, 14) =~= le_bytes(first.category as nat, 2));
        assert(data.subrange(offset + 14, offset + size) =~= bytes.subrange(14, size));
        assert(bytes.subrange(14, size) =~= first.payload);
        assert(message_at(data, offset) == first);
        assert(rest.skip(size) =~= written(messages.drop_first()));
        assert(data.skip(offset + size) =~= rest.skip(size));
        law_messages_read_back(data, offset + size, messages.drop_first());
        assert(seq![first] + messages.drop_first() =~= messages);
    }
}

/// No payload is longer than the cap.
pub proof fn law_payloads_are_capped(data: Seq<u8>, offset: int)
    requires
        0 <= offset,
        data.len() <= u64::MAX,
    ensures
        forall|i: int|
            0 <= i < messages_in(data, offset).len() ==> (#[trigger] messages_in(
                data,
                offset,
            )[i]).payload.len() <= MAX_PAYLOAD,
    decreases data.len() - offset,
{
    lemma_next_in(data, offset);
    if let Next::Message { message, offset: after } = next_in(data, offset) {
        law_payloads_are_capped(data, after);
        let all = messages_in(data, offset);
        let rest = messages_in(data, after);
        assert(forall|i: int| 0 < i < all.len() ==> #[trigger] all[i] == rest[i - 1]);
    }
}

/// No message is both LTE RRC and NAS: the two counts are within the total.
pub proof fn law_rrc_and_nas_within_total(stats: SdmStats, messages: Seq<SdmMessageView>)
    requires
        stats.counts(messages),
    ensures
        stats.lte_rrc_messages + stats.nas_messages <= stats.total_messages,
        stats.debug_messages <= stats.total_messages,
{
    lemma_disjoint_counts(
        messages,
        |m: SdmMessageView| m.lte_rrc(),
        |m: SdmMessageView| m.nas(),
    );
    lemma_count_bound(messages, |m: SdmMessageView| m.debug_log());
}

proof fn lemma_disjoint_counts<T>(
    items: Seq<T>,
    first: spec_fn(T) -> bool,
    second: spec_fn(T) -> bool,
)
    requires
        forall|item: T| !(#[trigger] first(item) && #[trigger] second(item)),
    ensures
        count(items, first) + count(items, second) <= items.len(),
    decreases items.len(),
{
    if items.len() > 0 {
        lemma_disjoint_counts(items.drop_last(), first, second);
    }
}

/// How many messages are listed under the categories below `limit`.
pub open spec fn listed_below(stats: SdmStats, limit: nat) -> nat
    decreases limit,
{
    if limit == 0 {
        0
    } else {
        let category = (limit - 1) as u16;
        listed_below(stats, (limit - 1) as nat) + (if stats.categories@.contains_key(category) {
            stats.categories@[category] as nat
        } else {
            0
        })
    }
}

/// Every message is listed under exactly one category: the counts by category
/// add up to the total.
pub proof fn law_categories_add_up(stats: SdmStats, messages: Seq<SdmMessageView>)
    requires
        stats.counts(messages),
    ensures
        listed_below(stats, 0x1_0000) == stats.total_messages,
{
    lemma_listed_below(stats, messages, 0x1_0000);
    lemma_count_all(messages, |m: SdmMessageView| m.category < 0x1_0000);
}

proof fn lemma_listed_below(stats: SdmStats, messages: Seq<SdmMessageView>, limit: nat)
    requires
        stats.counts(messages),
        limit <= 0x1_0000,
    ensures
        listed_below(stats, limit) == count(messages, |m: SdmMessageView| m.category < limit),
    decreases limit,
{
    let below = |m: SdmMessageView| m.category < limit;
    if limit == 0 {
        lemma_count_none(messages, below);
    } else {
        let category = (limit - 1) as u16;
        let before = |m: SdmMessageView| m.category < (limit - 1) as nat;
        let here = |m: SdmMessageView| m.category == category;
        lemma_listed_below(stats, messages, (limit - 1) as nat);
        lemma_count_union(messages, before, here, below);
        assert(stats.categories@.contains_key(category) <==> count(messages, here) > 0);
    }
}

proof fn lemma_count_all<T>(items: Seq<T>, pred: spec_fn(T) -> bool)
    requires
        forall|item: T| #[trigger] pred(item),
    ensures
        count(items, pred) == items.len(),
    decreases items.len(),
{
    if items.len() > 0 {
        lemma_count_all(items.drop_last(), pred);
    }
}

proof fn lemma_count_none<T>(items: Seq<T>, pred: spec_fn(T) -> bool)
    requires
        forall|item: T| !#[trigger] pred(item),
    ensures
        count(items, pred) == 0,
    decreases items.len(),
{
    if items.len() > 0 {
        lemma_count_none(items.drop_last(), pred);
    }
}

proof fn lemma_count_union<T>(
    items: Seq<T>,
    first: spec_fn(T) -> bool,
    second: spec_fn(T) -> bool,
    either: spec_fn(T) -> bool,
)
    requires
        forall|item: T| #[trigger] either(item) == (first(item) || second(item)),
        forall|item: T| !(#[trigger] first(item) && #[trigger] second(item)),
    ensures
        count(items, either) == count(items, first) + count(items, second),
    decreases items.len(),
{
    if items.len() > 0 {
        lemma_count_union(items.drop_last(), first, second, either);
    }
}

/// Reading messages leaves the file as it is, and the header once read as it
/// was read.
pub proof fn law_header_is_kept(parser: SdmParserView)
    ensures
        parser.after_next().data == parser.data,
        parser.header is Some ==> parser.after_next().header == parser.header,
        parser.after_next().header is Some ==> parser.after_next().ready() == parser.after_next(),
{
}

/// Once no further message comes, none ever does: asking again gives the same
/// answer and moves nothing.
pub proof fn law_end_of_messages_is_final(parser: SdmParserView)
    requires
        parser.ready().header is Some,
        0 <= parser.offset,
        !(next_in(parser.data, parser.ready().offset) is Message),
    ensures
        parser.after_next().next_result() == parser.next_result(),
        parser.after_next().after_next() == parser.after_next(),
{
    lemma_stuck(parser.data, parser.ready().offset);
}

proof fn lemma_stuck(data: Seq<u8>, offset: int)
    requires
        0 <= offset,
    ensures
        match next_in(data, offset) {
            Next::End { offset: after } => next_in(data, after) == next_in(data, offset),
            Next::Cut { offset: after } => next_in(data, after) == next_in(data, offset),
            Next::Message { .. } => true,
        },
    decreases data.len() - offset,
{
    lemma_marker_from(data, offset, 4096);
    if let Some(marker) = marker_from(data, offset, 4096) {
        let msg_len = le_value(data.subrange(marker + 1, marker + 3));
        if data.len() >= marker + 14 && msg_len == 0 {
            lemma_stuck(data, marker + 1);
        }
    }
}

} // verus!
