//! Shannon Mobile Diagnostic Log (SMDL) file format.
//!
//! SMDL files store diagnostic messages from Samsung Shannon modems.
//! Similar to QMDL (Qualcomm Mobile Diagnostic Log), but for Samsung devices.
//!
//! File format:
//! - Magic bytes: "SMDL" (4 bytes)
//! - Version: u32 (4 bytes)
//! - Device info length: u32 (4 bytes)
//! - Device info: UTF-8 string
//! - Messages: concatenated SipcRawHeader + payload pairs
//!
//! The reader and the writer do no input or output themselves. The writer
//! hands out the bytes that belong in the file, in one piece or, as a
//! [`Transfer`], field by field with a say in what a failed write leads to; the
//! reader is fed the bytes of the file as they come, and answers `WouldBlock`
//! while it needs more.

use vstd::prelude::*;
use vstd::slice::{slice_subrange, slice_to_vec};
use vstd::string::*;
use vstd::utf8::{decode_utf8, encode_utf8, valid_utf8};

use crate::little_endian::{
    law_place_values, law_value_of_bytes, le_bytes, le_range, le_value, lemma_le_bytes_len, lemma_le_value_2,
    push_u16, push_u32, push_u64, u16_at, u32_at, u64_at,
};
use crate::shannon::{
    encoded_messages, frame_len, frames, lemma_message_encoding, message_of, DmMessage, DmMessageType,
    DmMessageView, DmMessagesContainer, SipcRawHeader, DM_METADATA_SIZE,
};
use crate::text::string_from_utf8;

verus! {

/// Magic bytes identifying an SMDL file: "SMDL".
pub const SMDL_MAGIC: [u8; 4] = [0x53, 0x4d, 0x44, 0x4c];

/// Current SMDL format version.
pub const SMDL_VERSION: u32 = 1;

/// SMDL file header.
#[derive(Debug, Clone)]
pub struct SmdlHeader {
    pub version: u32,
    pub device_info: String,
}

/// What an [`SmdlHeader`] holds, as a mathematical value.
#[verifier::ext_equal]
pub struct SmdlHeaderView {
    pub version: u32,
    pub device_info: Seq<char>,
}

impl View for SmdlHeader {
    type V = SmdlHeaderView;

    open spec fn view(&self) -> SmdlHeaderView {
        SmdlHeaderView { version: self.version, device_info: self.device_info@ }
    }
}

impl SmdlHeaderView {
    /// The header's bytes in the file. The length field holds the low 32 bits
    /// of the length.
    pub open spec fn encoded(self) -> Seq<u8> {
        let info = encode_utf8(self.device_info);
        SMDL_MAGIC@ + le_bytes(self.version as nat, 4) + le_bytes(info.len() % 0x1_0000_0000, 4)
            + info
    }
}

impl SmdlHeader {
    /// A header of the current version.
    pub fn new(device_info: String) -> (header: Self)
        ensures
            header@ == (SmdlHeaderView { version: SMDL_VERSION, device_info: device_info@ }),
    {
        SmdlHeader { version: SMDL_VERSION, device_info }
    }

    /// Calculate the total header size in bytes.
    pub fn size(&self) -> (size: usize)
        requires
            12 + encode_utf8(self.device_info@).len() <= usize::MAX,
        ensures
            size == self@.encoded().len(),
            size == 12 + encode_utf8(self.device_info@).len(),
    {
        proof {
            lemma_le_bytes_len(self.version as nat, 4);
            lemma_le_bytes_len(encode_utf8(self.device_info@).len() % 0x1_0000_0000, 4);
        }
        4 +  // magic
        4 +  // version
        4 +  // device_info length
        self.device_info.as_str().as_bytes().len()
    }

    /// Another header with the same version and device info.
    fn duplicate(&self) -> (header: Self)
        ensures
            header@ == self@,
    {
        SmdlHeader { version: self.version, device_info: self.device_info.clone() }
    }
}

/// The encoder behind an SMDL file: it hands out the bytes to write and keeps
/// count of them.
#[derive(Debug, Clone)]
pub struct SmdlWriter {
    pub total_written: usize,
    /// Whether the header is in the file.
    pub header_written: bool,
}

impl SmdlWriter {
    /// A writer at the end of a file of `size` bytes.
    pub open spec fn at_end_of(size: usize) -> SmdlWriter {
        SmdlWriter { total_written: size, header_written: size > 0 }
    }

    /// A writer for an empty file.
    pub fn new() -> (writer: Self)
        ensures
            writer == SmdlWriter::at_end_of(0),
            writer.total_written == 0,
            !writer.header_written,
    {
        SmdlWriter { total_written: 0, header_written: false }
    }

    /// A writer that appends to a file of `existing_size` bytes; one that has
    /// any bytes has its header.
    pub fn new_with_existing_size(existing_size: usize) -> (writer: Self)
        ensures
            writer == SmdlWriter::at_end_of(existing_size),
            writer.total_written == existing_size,
            writer.header_written == (existing_size > 0),
    {
        SmdlWriter { total_written: existing_size, header_written: existing_size > 0 }
    }

    /// The bytes of the file header, to be written ahead of any message. There
    /// are none if the file has its header.
    pub fn write_header(&mut self, header: &SmdlHeader) -> (bytes: Vec<u8>)
        requires
            old(self).header_written || old(self).total_written + header@.encoded().len()
                <= usize::MAX,
        ensures
            bytes@ == (if old(self).header_written {
                Seq::<u8>::empty()
            } else {
                header@.encoded()
            }),
            final(self).total_written == old(self).total_written + bytes@.len(),
            final(self).header_written,
    {
        let mut bytes: Vec<u8> = Vec::new();
        if self.header_written {
            return bytes;
        }
        let info = header.device_info.as_str().as_bytes();
        bytes.push(SMDL_MAGIC[0]);
        bytes.push(SMDL_MAGIC[1]);
        bytes.push(SMDL_MAGIC[2]);
        bytes.push(SMDL_MAGIC[3]);
        assert(bytes@ =~= SMDL_MAGIC@);
        push_u32(&mut bytes, header.version);
        let info_len: u64 = info.len() as u64 % 0x1_0000_0000;
        push_u32(&mut bytes, info_len as u32);
        append(&mut bytes, info);
        self.total_written += bytes.len();
        self.header_written = true;
        bytes
    }

    /// The bytes of all the messages of a container, in order.
    pub fn write_container(&mut self, container: &DmMessagesContainer) -> (bytes: Vec<u8>)
        requires
            old(self).total_written + encoded_messages(container@).len() <= usize::MAX,
        ensures
            bytes@ == encoded_messages(container@),
            bytes@.len() == written_size(container@),
            final(self).total_written == old(self).total_written + bytes@.len(),
            final(self).header_written == old(self).header_written,
    {
        let mut bytes: Vec<u8> = Vec::new();
        let mut i: usize = 0;
        proof {
            assert(container@.skip(0) =~= container@);
            assert(bytes@ + encoded_messages(container@) =~= encoded_messages(container@));
        }
        while i < container.messages.len()
            invariant
                i <= container.messages@.len(),
                container@.len() == container.messages@.len(),
                old(self).total_written + encoded_messages(container@).len() <= usize::MAX,
                encoded_messages(container@) == bytes@ + encoded_messages(
                    container@.skip(i as int),
                ),
                self.total_written == old(self).total_written + bytes@.len(),
                self.header_written == old(self).header_written,
            decreases container.messages.len() - i,
        {
            let ghost rest = container@.skip(i as int);
            let ghost before = bytes@;
            proof {
                assert(rest[0] == container.messages@[i as int]@);
                assert(rest.drop_first() =~= container@.skip(i + 1));
                assert(encoded_messages(rest) == rest[0].encoded() + encoded_messages(
                    container@.skip(i + 1),
                ));
            }
            let mut message = self.write_message(&container.messages[i]);
            bytes.append(&mut message);
            i += 1;
            assert(before + (rest[0].encoded() + encoded_messages(container@.skip(i as int)))
                =~= bytes@ + encoded_messages(container@.skip(i as int)));
        }
        proof {
            assert(container@.skip(i as int) =~= Seq::<DmMessageView>::empty());
            assert(bytes@ =~= encoded_messages(container@));
            law_written_size(container@);
        }
        bytes
    }

    /// The bytes of a single message: raw header, metadata, payload.
    pub fn write_message(&mut self, msg: &DmMessage) -> (bytes: Vec<u8>)
        requires
            old(self).total_written + msg@.encoded().len() <= usize::MAX,
        ensures
            bytes@ == msg@.encoded(),
            bytes@.len() == 15 + msg@.payload.len(),
            final(self).total_written == old(self).total_written + bytes@.len(),
            final(self).header_written == old(self).header_written,
    {
        proof {
            lemma_message_len(msg@);
        }
        let mut bytes: Vec<u8> = msg.header.to_bytes();
        bytes.push(msg.msg_type.id());
        push_u16(&mut bytes, msg.category);
        push_u64(&mut bytes, msg.timestamp);
        append(&mut bytes, msg.payload.as_slice());
        assert(bytes@ =~= msg@.encoded());
        self.total_written += bytes.len();
        bytes
    }
}

/// How many bytes a run of messages takes in a file.
pub open spec fn written_size(messages: Seq<DmMessageView>) -> nat
    decreases messages.len(),
{
    if messages.len() == 0 {
        0
    } else {
        written_size(messages.drop_last()) + 15 + messages.last().payload.len()
    }
}

proof fn lemma_message_len(message: DmMessageView)
    ensures
        message.header.encoded().len() == 4,
        message.metadata().len() == 11,
        message.encoded().len() == 15 + message.payload.len(),
{
    lemma_le_bytes_len(message.header.len as nat, 2);
    lemma_le_bytes_len(message.category as nat, 2);
    lemma_le_bytes_len(message.timestamp as nat, 8);
}

/// The bytes of messages are those of each of them, in order: of two runs those
/// of the first and then those of the second, of one message its own, and of
/// none nothing.
pub proof fn law_messages_in_order(
    first: Seq<DmMessageView>,
    second: Seq<DmMessageView>,
    message: DmMessageView,
)
    ensures
        encoded_messages(first + second) == encoded_messages(first) + encoded_messages(second),
        encoded_messages(seq![message]) == message.encoded(),
        encoded_messages(Seq::empty()) == Seq::<u8>::empty(),
    decreases first.len(),
{
    reveal_with_fuel(encoded_messages, 2);
    let one = seq![message];
    assert(one.drop_first() =~= Seq::<DmMessageView>::empty());
    assert(encoded_messages(one) =~= message.encoded());
    if first.len() == 0 {
        assert(first + second =~= second);
        assert(encoded_messages(first + second) =~= encoded_messages(first) + encoded_messages(
            second,
        ));
    } else {
        let rest = first.drop_first();
        law_messages_in_order(rest, second, message);
        assert((first + second).drop_first() =~= rest + second);
        assert(encoded_messages(first + second) =~= encoded_messages(first) + encoded_messages(
            second,
        ));
    }
}

/// A run of messages takes 15 bytes and its payload for each of them.
pub proof fn law_written_size(messages: Seq<DmMessageView>)
    ensures
        encoded_messages(messages).len() == written_size(messages),
    decreases messages.len(),
{
    if messages.len() > 0 {
        law_written_size(messages.drop_last());
        lemma_message_len(messages.last());
        law_messages_in_order(messages.drop_last(), seq![messages.last()], messages.last());
        assert(messages.drop_last() + seq![messages.last()] =~= messages);
    }
}

/// Fields one after the other.
pub open spec fn joined(fields: Seq<Seq<u8>>) -> Seq<u8>
    decreases fields.len(),
{
    if fields.len() == 0 {
        Seq::empty()
    } else {
        joined(fields.drop_last()) + fields.last()
    }
}

proof fn lemma_joined(first: Seq<Seq<u8>>, second: Seq<Seq<u8>>)
    ensures
        joined(first + second) == joined(first) + joined(second),
    decreases second.len(),
{
    if second.len() == 0 {
        assert(first + second =~= first);
        assert(joined(first) + Seq::<u8>::empty() =~= joined(first));
    } else {
        lemma_joined(first, second.drop_last());
        assert((first + second).drop_last() =~= first + second.drop_last());
        assert(joined(first) + joined(second) =~= joined(first) + joined(second.drop_last())
            + second.last());
    }
}

impl SmdlHeaderView {
    /// The fields that a file header is written in.
    pub open spec fn fields(self) -> Seq<Seq<u8>> {
        let info = encode_utf8(self.device_info);
        seq![
            SMDL_MAGIC@,
            le_bytes(self.version as nat, 4),
            le_bytes(info.len() % 0x1_0000_0000, 4),
            info,
        ]
    }
}

/// The fields that a message is written in: raw header, metadata, payload.
pub open spec fn message_fields(message: DmMessageView) -> Seq<Seq<u8>> {
    seq![message.header.encoded(), message.metadata(), message.payload]
}

/// The fields that a run of messages is written in.
pub open spec fn messages_fields(messages: Seq<DmMessageView>) -> Seq<Seq<u8>>
    decreases messages.len(),
{
    if messages.len() == 0 {
        Seq::empty()
    } else {
        messages_fields(messages.drop_last()) + message_fields(messages.last())
    }
}

/// The fields of a header, a message or a run of messages, one after the other,
/// are its bytes.
pub proof fn law_fields_are_the_bytes(header: SmdlHeaderView, messages: Seq<DmMessageView>)
    ensures
        joined(header.fields()) == header.encoded(),
        joined(messages_fields(messages)) == encoded_messages(messages),
    decreases messages.len(),
{
    reveal_with_fuel(joined, 5);
    let fields = header.fields();
    assert(fields.drop_last().drop_last().drop_last().drop_last() =~= Seq::<Seq<u8>>::empty());
    assert(joined(fields) =~= header.encoded());
    if messages.len() > 0 {
        let last = messages.last();
        let before = messages.drop_last();
        law_fields_are_the_bytes(header, before);
        lemma_joined(messages_fields(before), message_fields(last));
        let parts = message_fields(last);
        assert(parts.drop_last().drop_last().drop_last() =~= Seq::<Seq<u8>>::empty());
        assert(joined(parts) =~= last.encoded());
        law_messages_in_order(before, seq![last], last);
        assert(before + seq![last] =~= messages);
    }
}

/// Fields on their way into a file, one after the other, up to the first that
/// cannot be written.
#[derive(Debug)]
pub struct Transfer {
    pub fields: Vec<Vec<u8>>,
    /// How many have been written.
    pub written: usize,
    /// Whether the one after those could not be.
    pub failed: bool,
    /// Whether they are those of the file header.
    pub of_file_header: bool,
}

/// What a [`Transfer`] holds, as a mathematical value.
#[verifier::ext_equal]
pub struct TransferView {
    pub fields: Seq<Seq<u8>>,
    pub written: nat,
    pub failed: bool,
    pub of_file_header: bool,
}

impl View for Transfer {
    type V = TransferView;

    open spec fn view(&self) -> TransferView {
        TransferView {
            fields: field_views(self.fields@),
            written: self.written as nat,
            failed: self.failed,
            of_file_header: self.of_file_header,
        }
    }
}

/// What a list of fields holds, as a mathematical value.
pub open spec fn field_views(fields: Seq<Vec<u8>>) -> Seq<Seq<u8>> {
    fields.map_values(|field: Vec<u8>| field@)
}

impl TransferView {
    /// None of the fields has been tried.
    pub open spec fn of_fields(fields: Seq<Seq<u8>>, of_file_header: bool) -> TransferView {
        TransferView { fields, written: 0, failed: false, of_file_header }
    }

    /// There is a field to write.
    pub open spec fn running(self) -> bool {
        !self.failed && self.written < self.fields.len()
    }

    /// The field to write.
    pub open spec fn next(self) -> Seq<u8> {
        self.fields[self.written as int]
    }

    /// After the field was tried.
    pub open spec fn after(self, success: bool) -> TransferView {
        if success {
            TransferView { written: self.written + 1, ..self }
        } else {
            TransferView { failed: true, ..self }
        }
    }

    /// After fields were tried, for as long as there are any to write, with the
    /// given outcomes.
    pub open spec fn after_all(self, outcomes: Seq<bool>) -> TransferView
        decreases outcomes.len(),
    {
        if outcomes.len() == 0 || !self.running() {
            self
        } else {
            self.after(outcomes[0]).after_all(outcomes.drop_first())
        }
    }
}

impl Transfer {
    /// The file header, if the file does not have it.
    pub fn of_header(writer: &SmdlWriter, header: &SmdlHeader) -> (transfer: Self)
        ensures
            transfer@ == TransferView::of_fields(
                if writer.header_written {
                    Seq::empty()
                } else {
                    header@.fields()
                },
                true,
            ),
    {
        let mut fields: Vec<Vec<u8>> = Vec::new();
        if !writer.header_written {
            let info = header.device_info.as_str().as_bytes();
            let mut version: Vec<u8> = Vec::new();
            push_u32(&mut version, header.version);
            let mut info_len: Vec<u8> = Vec::new();
            push_u32(&mut info_len, (info.len() as u64 % 0x1_0000_0000) as u32);
            fields.push(slice_to_vec(SMDL_MAGIC.as_slice()));
            fields.push(version);
            fields.push(info_len);
            fields.push(slice_to_vec(info));
            proof {
                assert(version@ =~= le_bytes(header.version as nat, 4));
                assert(info_len@ =~= le_bytes(info@.len() % 0x1_0000_0000, 4));
                assert(field_views(fields@) =~= header@.fields());
            }
        } else {
            assert(field_views(fields@) =~= Seq::<Seq<u8>>::empty());
        }
        Transfer { fields, written: 0, failed: false, of_file_header: true }
    }

    /// Add the fields of a message.
    fn add_message(&mut self, msg: &DmMessage)
        ensures
            final(self)@ == (TransferView {
                fields: old(self)@.fields + message_fields(msg@),
                ..old(self)@
            }),
    {
        let mut metadata: Vec<u8> = Vec::new();
        metadata.push(msg.msg_type.id());
        push_u16(&mut metadata, msg.category);
        push_u64(&mut metadata, msg.timestamp);
        self.fields.push(msg.header.to_bytes());
        self.fields.push(metadata);
        self.fields.push(slice_to_vec(msg.payload.as_slice()));
        proof {
            assert(metadata@ =~= msg@.metadata());
            assert(self@.fields =~= old(self)@.fields + message_fields(msg@));
        }
    }

    /// A single message.
    pub fn of_message(msg: &DmMessage) -> (transfer: Self)
        ensures
            transfer@ == TransferView::of_fields(message_fields(msg@), false),
    {
        let mut transfer = Transfer {
            fields: Vec::new(),
            written: 0,
            failed: false,
            of_file_header: false,
        };
        transfer.add_message(msg);
        assert(transfer@.fields =~= message_fields(msg@));
        transfer
    }

    /// All the messages of a container, in order.
    pub fn of_container(container: &DmMessagesContainer) -> (transfer: Self)
        ensures
            transfer@ == TransferView::of_fields(messages_fields(container@), false),
    {
        let mut transfer = Transfer {
            fields: Vec::new(),
            written: 0,
            failed: false,
            of_file_header: false,
        };
        let mut i: usize = 0;
        assert(transfer@.fields =~= messages_fields(container@.take(0)));
        while i < container.messages.len()
            invariant
                i <= container.messages@.len(),
                transfer@ == TransferView::of_fields(
                    messages_fields(container@.take(i as int)),
                    false,
                ),
            decreases container.messages.len() - i,
        {
            transfer.add_message(&container.messages[i]);
            i += 1;
            assert(container@.take(i as int).drop_last() =~= container@.take(i - 1));
        }
        assert(container@.take(i as int) =~= container@);
        transfer
    }

    /// The field to write, if there is one.
    pub fn next_field(&self) -> (field: Option<&[u8]>)
        ensures
            field is Some <==> self@.running(),
            field is Some ==> field->0@ == self@.next(),
    {
        if !self.failed && self.written < self.fields.len() {
            Some(self.fields[self.written].as_slice())
        } else {
            None
        }
    }
}

impl SmdlWriter {
    /// After a field of `transfer` was tried: what was written is counted, and
    /// with the last field of the file header the header is in the file.
    pub open spec fn after_field(self, transfer: TransferView, success: bool) -> SmdlWriter {
        if success {
            SmdlWriter {
                total_written: (self.total_written + transfer.next().len()) as usize,
                header_written: self.header_written || (transfer.of_file_header
                    && transfer.written + 1 == transfer.fields.len()),
            }
        } else {
            self
        }
    }

    /// After fields of `transfer` were tried with the given outcomes.
    pub open spec fn after_fields(
        self,
        transfer: TransferView,
        outcomes: Seq<bool>,
    ) -> SmdlWriter
        decreases outcomes.len(),
    {
        if outcomes.len() == 0 || !transfer.running() {
            self
        } else {
            self.after_field(transfer, outcomes[0]).after_fields(
                transfer.after(outcomes[0]),
                outcomes.drop_first(),
            )
        }
    }

    /// Note whether the field that was to be written has been.
    pub fn report(&mut self, transfer: &mut Transfer, success: bool)
        requires
            old(transfer)@.running(),
            old(self).total_written + old(transfer)@.next().len() <= usize::MAX,
        ensures
            *final(self) == old(self).after_field(old(transfer)@, success),
            final(transfer)@ == old(transfer)@.after(success),
    {
        assert(transfer.written < transfer.fields.len());
        if success {
            self.total_written += transfer.fields[transfer.written].len();
            transfer.written += 1;
            if transfer.of_file_header && transfer.written == transfer.fields.len() {
                self.header_written = true;
            }
        } else {
            transfer.failed = true;
        }
    }
}

/// The index of the first `false`, or the length if there is none.
pub open spec fn first_failure(outcomes: Seq<bool>) -> nat
    decreases outcomes.len(),
{
    if outcomes.len() == 0 || !outcomes[0] {
        0
    } else {
        1 + first_failure(outcomes.drop_first())
    }
}

/// Writing goes on up to the first field that cannot be written, and no further:
/// what has been counted then is the fields before it. Where every field can be
/// written, all are, and all are counted.
pub proof fn law_writing_stops_at_failure(
    writer: SmdlWriter,
    fields: Seq<Seq<u8>>,
    of_file_header: bool,
    outcomes: Seq<bool>,
)
    requires
        outcomes.len() == fields.len(),
        writer.total_written + joined(fields).len() <= usize::MAX,
    ensures
        ({
            let start = TransferView::of_fields(fields, of_file_header);
            let done = start.after_all(outcomes);
            let count = first_failure(outcomes);
            &&& count <= fields.len()
            &&& done.written == count
            &&& done.failed <==> count < fields.len()
            &&& !done.running()
            &&& writer.after_fields(start, outcomes).total_written == writer.total_written
                + joined(fields.take(count as int)).len()
            &&& writer.after_fields(start, outcomes).header_written <==> writer.header_written || (
            of_file_header && fields.len() > 0 && count == fields.len())
        }),
{
    let start = TransferView::of_fields(fields, of_file_header);
    assert(fields.take(0) =~= Seq::<Seq<u8>>::empty());
    lemma_transfer(writer, start, outcomes);
}

proof fn lemma_transfer(writer: SmdlWriter, transfer: TransferView, outcomes: Seq<bool>)
    requires
        !transfer.failed,
        transfer.written + outcomes.len() == transfer.fields.len(),
        writer.total_written + joined(transfer.fields).len() - joined(
            transfer.fields.take(transfer.written as int),
        ).len() <= usize::MAX,
    ensures
        ({
            let done = transfer.after_all(outcomes);
            let after = writer.after_fields(transfer, outcomes);
            let count = first_failure(outcomes);
            &&& count <= outcomes.len()
            &&& done.written == transfer.written + count
            &&& done.failed <==> count < outcomes.len()
            &&& !done.running()
            &&& after.total_written == writer.total_written + joined(
                transfer.fields.take((transfer.written + count) as int),
            ).len() - joined(transfer.fields.take(transfer.written as int)).len()
            &&& after.header_written <==> writer.header_written || (transfer.of_file_header
                && outcomes.len() > 0 && count == outcomes.len())
        }),
    decreases outcomes.len(),
{
    let fields = transfer.fields;
    let n = transfer.written as int;
    if outcomes.len() > 0 {
        let next = transfer.after(outcomes[0]);
        if outcomes[0] {
            assert(fields.take(n + 1).drop_last() =~= fields.take(n));
            lemma_joined(fields.take(n + 1), fields.skip(n + 1));
            assert(fields.take(n + 1) + fields.skip(n + 1) =~= fields);
            lemma_transfer(writer.after_field(transfer, true), next, outcomes.drop_first());
        } else {
            assert(next.after_all(outcomes.drop_first()) == next);
            assert(writer.after_fields(next, outcomes.drop_first()) == writer);
        }
    }
}

/// Append a copy of `more`.
fn append(out: &mut Vec<u8>, more: &[u8])
    ensures
        final(out)@ == old(out)@ + more@,
{
    out.extend_from_slice(more);
    assert(out@ =~= old(out)@ + more@);
}

/// Why no header or message could be read.
#[derive(Debug, PartialEq)]
pub enum SmdlError {
    /// The input so far is not enough, and it has not ended.
    WouldBlock,
    /// The input ended in the middle of a header or a message.
    UnexpectedEof,
    /// The input does not start with the magic bytes.
    InvalidMagic { got: (u8, u8, u8, u8) },
    /// The file is of a later version than this reader knows.
    UnsupportedVersion { version: u32 },
    /// The device info is not UTF-8.
    InvalidDeviceInfo,
}

/// What the front of some input holds.
pub enum Prefix<T> {
    /// Not enough bytes; the fields before the one that is cut off take
    /// `counted` bytes.
    Short { counted: nat },
    /// `consumed` bytes that are refused.
    Refused { consumed: nat, error: SmdlError },
    /// `consumed` bytes that spell a value.
    Read { consumed: nat, value: T },
}

/// What the front of `input` holds, read as a file header.
pub open spec fn header_in(input: Seq<u8>) -> Prefix<SmdlHeaderView> {
    let version = le_value(input.subrange(4, 8));
    let info_len = le_value(input.subrange(8, 12));
    let info = input.subrange(12, 12 + info_len as int);
    if input.len() < 4 {
        Prefix::Short { counted: 0 }
    } else if input.take(4) != SMDL_MAGIC@ {
        Prefix::Refused {
            consumed: 4,
            error: SmdlError::InvalidMagic { got: (input[0], input[1], input[2], input[3]) },
        }
    } else if input.len() < 8 {
        Prefix::Short { counted: 4 }
    } else if version > SMDL_VERSION {
        Prefix::Refused {
            consumed: 8,
            error: SmdlError::UnsupportedVersion { version: version as u32 },
        }
    } else if input.len() < 12 {
        Prefix::Short { counted: 8 }
    } else if input.len() < 12 + info_len {
        Prefix::Short { counted: 12 }
    } else if !valid_utf8(info) {
        Prefix::Refused { consumed: 12 + info_len, error: SmdlError::InvalidDeviceInfo }
    } else {
        Prefix::Read {
            consumed: 12 + info_len,
            value: SmdlHeaderView { version: version as u32, device_info: decode_utf8(info) },
        }
    }
}

/// How many bytes the message at the front of `input` takes: the raw header,
/// and what it counts, but never less than the metadata.
pub open spec fn stored_len(input: Seq<u8>) -> nat {
    let len = le_value(input.subrange(2, 4));
    if len > 11 {
        4 + len
    } else {
        15
    }
}

/// What the front of `input` holds, read as a message.
pub open spec fn message_in(input: Seq<u8>) -> Prefix<DmMessageView> {
    if input.len() < 4 {
        Prefix::Short { counted: 0 }
    } else if input.len() < 15 {
        Prefix::Short { counted: 4 }
    } else if input.len() < stored_len(input) {
        Prefix::Short { counted: 15 }
    } else {
        Prefix::Read {
            consumed: stored_len(input),
            value: message_of(
                SipcRawHeader::decoded(input),
                input.subrange(4, stored_len(input) as int),
            ),
        }
    }
}

/// A message that a reader gives back as it was written: its header counts the
/// metadata and the payload (or, with no payload, no more than the metadata),
/// and its type is the one that its byte stands for.
pub open spec fn storable(message: DmMessageView) -> bool {
    &&& message.header.len == 11 + message.payload.len() || (message.header.len <= 11
        && message.payload.len() == 0)
    &&& message.msg_type.canonical()
}

/// The state of a reader, as a mathematical value.
#[verifier::ext_equal]
pub struct SmdlReaderView {
    /// Input that has been fed and not been read.
    pub unread: Seq<u8>,
    /// Whether the input ends there.
    pub ended: bool,
    /// How many bytes have been read in full fields.
    pub bytes_read: nat,
    /// No message is read once this many bytes have been.
    pub max_bytes: Option<usize>,
    /// The file header, once it has been read.
    pub header: Option<SmdlHeaderView>,
}

impl SmdlReaderView {
    /// The state with `consumed` bytes less to read, `counted` of them in full
    /// fields.
    pub open spec fn advanced(self, consumed: nat, counted: nat) -> SmdlReaderView {
        SmdlReaderView {
            unread: self.unread.skip(consumed as int),
            bytes_read: self.bytes_read + counted,
            ..self
        }
    }

    /// The state after more input.
    pub open spec fn with_more(self, more: Seq<u8>) -> SmdlReaderView {
        SmdlReaderView { unread: self.unread + more, ..self }
    }

    /// The state after `read_header`.
    pub open spec fn after_header(self) -> SmdlReaderView {
        if self.header is Some {
            self
        } else {
            match header_in(self.unread) {
                Prefix::Short { counted } => if self.ended {
                    self.advanced(self.unread.len(), counted)
                } else {
                    self
                },
                Prefix::Refused { consumed, .. } => self.advanced(consumed, consumed),
                Prefix::Read { consumed, value } => SmdlReaderView {
                    header: Some(value),
                    ..self.advanced(consumed, consumed)
                },
            }
        }
    }

    /// What `read_header` gives.
    pub open spec fn header_result(self) -> Result<SmdlHeaderView, SmdlError> {
        match self.header {
            Some(header) => Ok(header),
            None => match header_in(self.unread) {
                Prefix::Short { .. } => if self.ended {
                    Err(SmdlError::UnexpectedEof)
                } else {
                    Err(SmdlError::WouldBlock)
                },
                Prefix::Refused { error, .. } => Err(error),
                Prefix::Read { value, .. } => Ok(value),
            },
        }
    }

    /// Whether as many bytes have been read as were asked for.
    pub open spec fn limit_reached(self) -> bool {
        self.max_bytes matches Some(max) && self.bytes_read >= max
    }

    /// The state after the message that follows the header has been read.
    pub open spec fn after_message(self) -> SmdlReaderView {
        if self.limit_reached() {
            self
        } else {
            match message_in(self.unread) {
                Prefix::Short { counted } => if self.ended {
                    self.advanced(self.unread.len(), counted)
                } else {
                    self
                },
                Prefix::Refused { consumed, .. } => self.advanced(consumed, consumed),
                Prefix::Read { consumed, .. } => self.advanced(consumed, consumed),
            }
        }
    }

    /// What reading the message that follows the header gives. An input that
    /// ends before a whole raw header holds no more messages.
    pub open spec fn message_result(self) -> Result<Option<DmMessageView>, SmdlError> {
        if self.limit_reached() {
            Ok(None)
        } else {
            match message_in(self.unread) {
                Prefix::Short { counted } => if !self.ended {
                    Err(SmdlError::WouldBlock)
                } else if counted == 0 {
                    Ok(None)
                } else {
                    Err(SmdlError::UnexpectedEof)
                },
                Prefix::Refused { error, .. } => Err(error),
                Prefix::Read { value, .. } => Ok(Some(value)),
            }
        }
    }

    /// The state after `get_next_messages_container`.
    pub open spec fn after_next(self) -> SmdlReaderView {
        if self.header_result() is Err {
            self.after_header()
        } else {
            self.after_header().after_message()
        }
    }

    /// The message in the container that `get_next_messages_container` gives.
    pub open spec fn next_result(self) -> Result<Option<DmMessageView>, SmdlError> {
        match self.header_result() {
            Err(error) => Err(error),
            Ok(_) => self.after_header().message_result(),
        }
    }
}

/// The decoder behind an SMDL file: it is fed the bytes of the file and gives
/// the header and the messages.
#[derive(Debug)]
pub struct SmdlReader {
    input: Vec<u8>,
    position: usize,
    ended: bool,
    bytes_read: usize,
    max_bytes: Option<usize>,
    header: Option<SmdlHeader>,
}

impl View for SmdlReader {
    type V = SmdlReaderView;

    closed spec fn view(&self) -> SmdlReaderView {
        SmdlReaderView {
            unread: self.input@.skip(self.position as int),
            ended: self.ended,
            bytes_read: self.bytes_read as nat,
            max_bytes: self.max_bytes,
            header: match self.header {
                Some(header) => Some(header@),
                None => None,
            },
        }
    }
}

impl SmdlReader {
    /// The read position is in the input, and the count of bytes has room for
    /// what is still to be read.
    pub closed spec fn wf(&self) -> bool {
        &&& self.position <= self.input@.len()
        &&& self.bytes_read + (self.input@.len() - self.position) <= usize::MAX
    }

    /// A reader of a whole file. No message is read once `max_bytes` bytes
    /// have been.
    pub fn new(input: Vec<u8>, max_bytes: Option<usize>) -> (reader: Self)
        ensures
            reader.wf(),
            reader@ == (SmdlReaderView {
                unread: input@,
                ended: true,
                bytes_read: 0,
                max_bytes,
                header: None,
            }),
    {
        assert(input.len() == input@.len());
        let reader = SmdlReader {
            input,
            position: 0,
            ended: true,
            bytes_read: 0,
            max_bytes,
            header: None,
        };
        assert(reader@.unread =~= input@);
        reader
    }

    /// A reader of a file that is fed in pieces.
    pub fn new_fed(max_bytes: Option<usize>) -> (reader: Self)
        ensures
            reader.wf(),
            reader@ == (SmdlReaderView {
                unread: Seq::empty(),
                ended: false,
                bytes_read: 0,
                max_bytes,
                header: None,
            }),
    {
        let reader = SmdlReader {
            input: Vec::new(),
            position: 0,
            ended: false,
            bytes_read: 0,
            max_bytes,
            header: None,
        };
        assert(reader@.unread =~= Seq::<u8>::empty());
        reader
    }

    /// Whether the reader can count `more` bytes of input.
    pub fn has_room_for(&self, more: usize) -> (yes: bool)
        requires
            self.wf(),
        ensures
            yes == (self@.bytes_read + self@.unread.len() + more <= usize::MAX),
    {
        more <= usize::MAX - (self.bytes_read + (self.input.len() - self.position))
    }

    /// Add input.
    pub fn feed(&mut self, more: &[u8])
        requires
            old(self).wf(),
            old(self)@.bytes_read + old(self)@.unread.len() + more@.len() <= usize::MAX,
        ensures
            final(self).wf(),
            final(self)@ == old(self)@.with_more(more@),
    {
        let mut input = slice_to_vec(
            slice_subrange(self.input.as_slice(), self.position, self.input.len()),
        );
        append(&mut input, more);
        self.input = input;
        self.position = 0;
        assert(self@.unread =~= old(self)@.unread + more@);
    }

    /// Declare that no input follows.
    pub fn finish(&mut self)
        requires
            old(self).wf(),
        ensures
            final(self).wf(),
            final(self)@ == (SmdlReaderView { ended: true, ..old(self)@ }),
    {
        self.ended = true;
    }

    /// Take the end back: a file that ended may have grown.
    pub fn resume(&mut self)
        requires
            old(self).wf(),
        ensures
            final(self).wf(),
            final(self)@ == (SmdlReaderView { ended: false, ..old(self)@ }),
    {
        self.ended = false;
    }

    /// Pass over `consumed` bytes of input and count `counted` of them.
    fn advance(&mut self, consumed: usize, counted: usize)
        requires
            old(self).wf(),
            counted <= consumed <= old(self)@.unread.len(),
        ensures
            final(self).wf(),
            final(self)@ == old(self)@.advanced(consumed as nat, counted as nat),
    {
        assert(self.input.len() == self.input@.len());
        self.position += consumed;
        self.bytes_read += counted;
        assert(self@.unread =~= old(self)@.unread.skip(consumed as int));
    }

    /// The answer to an input that is too short, of which `counted` bytes are
    /// in full fields: it ends the input, or waits for more.
    fn too_short(&mut self, counted: usize) -> (error: SmdlError)
        requires
            old(self).wf(),
            counted <= old(self)@.unread.len(),
        ensures
            final(self).wf(),
            old(self)@.ended ==> error == SmdlError::UnexpectedEof && final(self)@ == old(
                self,
            )@.advanced(old(self)@.unread.len(), counted as nat),
            !old(self)@.ended ==> error == SmdlError::WouldBlock && final(self)@ == old(self)@,
    {
        if self.ended {
            let left: usize = self.input.len() - self.position;
            self.advance(left, counted);
            SmdlError::UnexpectedEof
        } else {
            SmdlError::WouldBlock
        }
    }

    /// Read and validate the file header. A header that has been read is given
    /// again.
    pub fn read_header(&mut self) -> (read: Result<SmdlHeader, SmdlError>)
        requires
            old(self).wf(),
        ensures
            final(self).wf(),
            final(self)@ == old(self)@.after_header(),
            match old(self)@.header_result() {
                Ok(header) => read is Ok && read->Ok_0@ == header,
                Err(error) => read == Err::<SmdlHeader, _>(error),
            },
    {
        if let Some(header) = &self.header {
            return Ok(header.duplicate());
        }
        let unread = slice_subrange(self.input.as_slice(), self.position, self.input.len());
        let available: usize = unread.len();
        if available < 4 {
            return Err(self.too_short(0));
        }
        let got = (unread[0], unread[1], unread[2], unread[3]);
        if got.0 != SMDL_MAGIC[0] || got.1 != SMDL_MAGIC[1] || got.2 != SMDL_MAGIC[2] || got.3
            != SMDL_MAGIC[3] {
            proof {
                let magic = self@.unread.take(4);
                assert(magic[0] == got.0 && magic[1] == got.1 && magic[2] == got.2 && magic[3]
                    == got.3);
                assert(magic != SMDL_MAGIC@);
            }
            self.advance(4, 4);
            return Err(SmdlError::InvalidMagic { got });
        }
        assert(self@.unread.take(4) =~= SMDL_MAGIC@);
        if available < 8 {
            return Err(self.too_short(4));
        }
        let version: u32 = u32_at(unread, 4);
        if version > SMDL_VERSION {
            self.advance(8, 8);
            return Err(SmdlError::UnsupportedVersion { version });
        }
        if available < 12 {
            return Err(self.too_short(8));
        }
        let info_len: u32 = u32_at(unread, 8);
        if available as u64 - 12 < info_len as u64 {
            return Err(self.too_short(12));
        }
        let end: usize = 12 + info_len as usize;
        let info = slice_to_vec(slice_subrange(unread, 12, end));
        match string_from_utf8(info) {
            None => {
                self.advance(end, end);
                Err(SmdlError::InvalidDeviceInfo)
            },
            Some(device_info) => {
                let header = SmdlHeader { version, device_info };
                self.advance(end, end);
                self.header = Some(header.duplicate());
                Ok(header)
            },
        }
    }

    /// Read the next message container, and the file header ahead of it where
    /// that has not been read. A container holds one message.
    pub fn get_next_messages_container(&mut self) -> (read: Result<
        Option<DmMessagesContainer>,
        SmdlError,
    >)
        requires
            old(self).wf(),
        ensures
            final(self).wf(),
            final(self)@ == old(self)@.after_next(),
            match old(self)@.next_result() {
                Ok(Some(message)) => read is Ok && read->Ok_0 is Some && read->Ok_0->0@ == seq![
                    message,
                ],
                Ok(None) => read == Ok::<_, SmdlError>(None::<DmMessagesContainer>),
                Err(error) => read == Err::<Option<DmMessagesContainer>, _>(error),
            },
    {
        // The file header comes first.
        if self.header.is_none() {
            if let Err(error) = self.read_header() {
                return Err(error);
            }
        }
        if let Some(max_bytes) = self.max_bytes {
            if self.bytes_read >= max_bytes {
                return Ok(None);
            }
        }
        let unread = slice_subrange(self.input.as_slice(), self.position, self.input.len());
        let available: usize = unread.len();
        if available < SipcRawHeader::SIZE {
            return match self.too_short(0) {
                SmdlError::UnexpectedEof => Ok(None),
                error => Err(error),
            };
        }
        if available < SipcRawHeader::SIZE + DM_METADATA_SIZE {
            return Err(self.too_short(4));
        }
        let len: u16 = u16_at(unread, 2);
        let header = SipcRawHeader { channel: unread[0], control: unread[1], len };
        let msg_type = DmMessageType::from_id(unread[4]);
        let category: u16 = u16_at(unread, 5);
        let timestamp: u64 = u64_at(unread, 7);
        // The payload is what the header counts beyond the metadata.
        let payload_len: usize = if len as usize > DM_METADATA_SIZE {
            len as usize - DM_METADATA_SIZE
        } else {
            0
        };
        if available - 15 < payload_len {
            return Err(self.too_short(15));
        }
        let end: usize = 15 + payload_len;
        let payload = slice_to_vec(slice_subrange(unread, 15, end));
        let message = DmMessage { header, msg_type, category, timestamp, payload };
        proof {
            let body = unread@.subrange(4, end as int);
            assert(body.subrange(1, 3) =~= unread@.subrange(5, 7));
            assert(body.subrange(3, 11) =~= unread@.subrange(7, 15));
            assert(body.skip(11) =~= unread@.subrange(15, end as int));
            assert(message@ == message_of(SipcRawHeader::decoded(unread@), body));
        }
        self.advance(end, end);
        let mut container = DmMessagesContainer::new();
        container.push(message);
        assert(container@ =~= seq![message@]);
        Ok(Some(container))
    }
}

/// A writer counts the bytes that the file has, and takes the header to be in
/// every file but an empty one.
pub proof fn law_existing_size(size: usize)
    ensures
        SmdlWriter::at_end_of(size).total_written == size,
        !SmdlWriter::at_end_of(size).header_written <==> size == 0,
{
}

/// Where each field of a file header stands in its bytes: the letters "SMDL",
/// the version, the length of the device info, and the device info; numbers low
/// byte first.
pub proof fn law_header_layout(header: SmdlHeaderView)
    ensures
        ({
            let bytes = header.encoded();
            let info = encode_utf8(header.device_info);
            &&& bytes.len() == 12 + info.len()
            &&& bytes[0] == 0x53 && bytes[1] == 0x4d && bytes[2] == 0x44 && bytes[3] == 0x4c
            &&& bytes[4] + 0x100 * bytes[5] + 0x1_0000 * bytes[6] + 0x100_0000 * bytes[7]
                == header.version
            &&& info.len() <= u32::MAX ==> bytes[8] + 0x100 * bytes[9] + 0x1_0000 * bytes[10]
                + 0x100_0000 * bytes[11] == info.len()
            &&& bytes.skip(12) == info
        }),
{
    let info = encode_utf8(header.device_info);
    law_place_values(Seq::empty(), header.version as u64);
    law_place_values(Seq::empty(), (info.len() % 0x1_0000_0000) as u64);
    assert(header.encoded().skip(12) =~= info);
}

/// The fields that are written one by one: of a file header four, of 4, 4, 4 and
/// as many bytes as the device info has; of a message three, of 4, 11 and as
/// many bytes as the payload has.
pub proof fn law_field_sizes(header: SmdlHeaderView, message: DmMessageView)
    ensures
        header.fields().len() == 4,
        header.fields()[0].len() == 4,
        header.fields()[1].len() == 4,
        header.fields()[2].len() == 4,
        header.fields()[3] == encode_utf8(header.device_info),
        message_fields(message).len() == 3,
        message_fields(message)[0].len() == 4,
        message_fields(message)[1].len() == 11,
        message_fields(message)[2] == message.payload,
        messages_fields(seq![message]) == message_fields(message),
{
    lemma_message_len(message);
    lemma_le_bytes_len(header.version as nat, 4);
    lemma_le_bytes_len(encode_utf8(header.device_info).len() % 0x1_0000_0000, 4);
    reveal_with_fuel(messages_fields, 2);
    assert(seq![message].drop_last() =~= Seq::<DmMessageView>::empty());
    assert(messages_fields(seq![message]) =~= message_fields(message));
}

/// What a reader makes of the bytes at the start of a file, byte by byte. They
/// have to be "SMDL", a version of at most 1, a length, and that many bytes of
/// UTF-8; what is wrong is refused as soon as it can be told, and what is too
/// short is waited for, or is the end.
pub proof fn law_header_byte_by_byte(reader: SmdlReaderView)
    requires
        reader.header is None,
    ensures
        ({
            let input = reader.unread;
            let magic = input[0] == 0x53 && input[1] == 0x4d && input[2] == 0x44 && input[3]
                == 0x4c;
            let version = input[4] + 0x100 * input[5] + 0x1_0000 * input[6] + 0x100_0000
                * input[7];
            let end = 12 + input[8] + 0x100 * input[9] + 0x1_0000 * input[10] + 0x100_0000
                * input[11];
            let info = input.subrange(12, end);
            let short = input.len() < 4 || (magic && input.len() < 8) || (magic && version <= 1 && (
            input.len() < 12 || input.len() < end));
            let after = reader.after_header();
            &&& input.len() >= 4 && !magic ==> reader.header_result() == Err::<SmdlHeaderView, _>(
                SmdlError::InvalidMagic { got: (input[0], input[1], input[2], input[3]) },
            )
            &&& input.len() >= 8 && magic && version > 1 ==> reader.header_result() == Err::<
                SmdlHeaderView,
                _,
            >(SmdlError::UnsupportedVersion { version: version as u32 })
            &&& input.len() >= 12 && magic && version <= 1 && input.len() >= end && !valid_utf8(
                info,
            ) ==> reader.header_result() == Err::<SmdlHeaderView, _>(SmdlError::InvalidDeviceInfo)
            &&& input.len() >= 12 && magic && version <= 1 && input.len() >= end && valid_utf8(
                info,
            ) ==> {
                &&& reader.header_result() is Ok
                &&& reader.header_result()->Ok_0.version == version
                &&& reader.header_result()->Ok_0.device_info == decode_utf8(info)
                &&& after.header == Some(reader.header_result()->Ok_0)
                &&& after.unread == input.skip(end)
                &&& after.bytes_read == reader.bytes_read + end
                &&& after.ended == reader.ended && after.max_bytes == reader.max_bytes
            }
            &&& short && reader.ended ==> {
                &&& reader.header_result() == Err::<SmdlHeaderView, _>(SmdlError::UnexpectedEof)
                &&& after.unread.len() == 0 && after.header is None
                &&& after.bytes_read == reader.bytes_read + (if input.len() < 4 {
                    0int
                } else if input.len() < 8 {
                    4
                } else if input.len() < 12 {
                    8
                } else {
                    12
                })
            }
            &&& reader.header_result() is Err && !short ==> {
                let refused = if !magic {
                    4
                } else if version > 1 {
                    8
                } else {
                    end
                };
                &&& after.unread == input.skip(refused) && after.header is None
                &&& after.bytes_read == reader.bytes_read + refused
            }
            &&& short && !reader.ended ==> reader.header_result() == Err::<SmdlHeaderView, _>(
                SmdlError::WouldBlock,
            ) && after == reader
        }),
{
    let input = reader.unread;
    law_place_values(input.subrange(4, 8), 0);
    law_place_values(input.subrange(8, 12), 0);
    if input.len() >= 4 {
        let magic = input.take(4);
        assert(magic[0] == input[0] && magic[1] == input[1] && magic[2] == input[2] && magic[3]
            == input[3]);
        assert(magic == SMDL_MAGIC@ <==> (input[0] == 0x53 && input[1] == 0x4d && input[2] == 0x44
            && input[3] == 0x4c)) by {
            if input[0] == 0x53 && input[1] == 0x4d && input[2] == 0x44 && input[3] == 0x4c {
                assert(magic =~= SMDL_MAGIC@);
            }
        }
    }
}

/// What a reader makes of the bytes of a message, byte by byte, below its limit:
/// a raw header of 4 bytes, 11 bytes of metadata, and as many of payload as the
/// header counts beyond 11. What is too short is waited for; or it is the end,
/// which only comes quietly before the whole of a raw header.
pub proof fn law_message_byte_by_byte(reader: SmdlReaderView)
    requires
        reader.header is Some,
        reader.max_bytes matches Some(max) ==> reader.bytes_read < max,
    ensures
        ({
            let input = reader.unread;
            let len = input[2] + 0x100 * input[3];
            let end = if len > 11 {
                4 + len
            } else {
                15
            };
            let after = reader.after_next();
            &&& input.len() >= 15 && input.len() >= end ==> {
                &&& reader.next_result() is Ok
                &&& reader.next_result()->Ok_0 matches Some(message)
                &&& message.header.channel == input[0]
                &&& message.header.control == input[1]
                &&& message.header.len == len
                &&& input[4] == 0x10 ==> message.msg_type is Log
                &&& input[4] == 0x11 ==> message.msg_type is Response
                &&& input[4] == 0x12 ==> message.msg_type is Event
                &&& input[4] == 0x13 ==> message.msg_type is Debug
                &&& input[4] < 0x10 || input[4] > 0x13 ==> message.msg_type
                    == DmMessageType::Unknown(input[4])
                &&& message.category == input[5] + 0x100 * input[6]
                &&& message.timestamp == input[7] + 0x100 * input[8] + 0x1_0000 * input[9]
                    + 0x100_0000 * input[10] + 0x1_0000_0000 * input[11] + 0x100_0000_0000
                    * input[12] + 0x1_0000_0000_0000 * input[13] + 0x100_0000_0000_0000
                    * input[14]
                &&& message.payload == input.subrange(15, end)
                &&& after.unread == input.skip(end)
                &&& after.bytes_read == reader.bytes_read + end
                &&& after.header == reader.header && after.ended == reader.ended
                    && after.max_bytes == reader.max_bytes
            }
            &&& input.len() < 4 && reader.ended ==> reader.next_result() == Ok::<_, SmdlError>(
                None::<DmMessageView>,
            )
            &&& 4 <= input.len() && (input.len() < 15 || input.len() < end) && reader.ended
                ==> reader.next_result() == Err::<Option<DmMessageView>, _>(
                SmdlError::UnexpectedEof,
            )
            &&& (input.len() < 15 || input.len() < end) && !reader.ended ==> reader.next_result()
                == Err::<Option<DmMessageView>, _>(SmdlError::WouldBlock) && after == reader
            &&& (input.len() < 15 || input.len() < end) && reader.ended ==> {
                &&& after.unread.len() == 0
                &&& after.bytes_read == reader.bytes_read + (if input.len() < 4 {
                    0int
                } else if input.len() < 15 {
                    4
                } else {
                    15
                })
            }
        }),
{
    let input = reader.unread;
    if input.len() >= 15 {
        law_place_values(input.subrange(2, 4), 0);
        let end = stored_len(input) as int;
        if input.len() >= end {
            let body = input.subrange(4, end);
            law_place_values(body.subrange(1, 3), 0);
            law_place_values(body.subrange(3, 11), 0);
            assert(body.skip(11) =~= input.subrange(15, end));
        }
    }
}

/// The limit is one on the bytes read: once as many as `max` have been, no
/// message is given and nothing changes; so every message that is given was
/// begun below it. The file header counts.
pub proof fn law_no_message_past_the_limit(reader: SmdlReaderView, max: usize)
    requires
        reader.max_bytes == Some(max),
    ensures
        reader.header is Some && reader.bytes_read >= max ==> {
            &&& reader.next_result() == Ok::<_, SmdlError>(None::<DmMessageView>)
            &&& reader.after_next() == reader
        },
        reader.header_result() is Ok && reader.after_header().bytes_read >= max ==> {
            &&& reader.next_result() == Ok::<_, SmdlError>(None::<DmMessageView>)
            &&& reader.after_next() == reader.after_header()
        },
        reader.next_result() matches Ok(Some(_)) ==> reader.after_header().bytes_read < max,
{
}

/// What has been read stays read: more input changes nothing about a header
/// or a message that the input already holds in full, or already gets refused
/// for.
pub proof fn law_more_input_changes_nothing_read(input: Seq<u8>, more: Seq<u8>)
    ensures
        !(header_in(input) is Short) ==> header_in(input + more) == header_in(input),
        !(message_in(input) is Short) ==> message_in(input + more) == message_in(input),
{
    let all = input + more;
    if input.len() >= 4 {
        assert(all.take(4) =~= input.take(4));
        assert(all.subrange(2, 4) =~= input.subrange(2, 4));
    }
    if input.len() >= 8 {
        assert(all.subrange(4, 8) =~= input.subrange(4, 8));
    }
    if input.len() >= 12 {
        assert(all.subrange(8, 12) =~= input.subrange(8, 12));
        let end = 12 + le_value(input.subrange(8, 12)) as int;
        if input.len() >= end {
            assert(all.subrange(12, end) =~= input.subrange(12, end));
        }
    }
    if input.len() >= 15 && input.len() >= stored_len(input) {
        let end = stored_len(input) as int;
        assert(all.subrange(4, end) =~= input.subrange(4, end));
    }
}

/// How a file is cut into pieces does not matter. Take a reader that waits for
/// input, and the same reader with `more` input at hand from the start. If the
/// first gives an answer, the second gives the same answer, and has the
/// additional input left. If the first needs more, then once it is fed `more`
/// it goes on exactly as the second does.
pub proof fn law_pieces_do_not_matter(reader: SmdlReaderView, more: Seq<u8>)
    requires
        !reader.ended,
    ensures
        reader.next_result() != Err::<Option<DmMessageView>, _>(SmdlError::WouldBlock) ==> {
            &&& reader.with_more(more).next_result() == reader.next_result()
            &&& reader.with_more(more).after_next() == reader.after_next().with_more(more)
        },
        reader.next_result() == Err::<Option<DmMessageView>, _>(SmdlError::WouldBlock) ==> {
            &&& reader.after_next().with_more(more).next_result() == reader.with_more(
                more,
            ).next_result()
            &&& reader.after_next().with_more(more).after_next() == reader.with_more(
                more,
            ).after_next()
        },
{
    lemma_header_pieces(reader, more);
    if reader.header_result() is Ok {
        lemma_message_pieces(reader.after_header(), more);
    }
}

/// `law_pieces_do_not_matter`, of the file header.
proof fn lemma_header_pieces(reader: SmdlReaderView, more: Seq<u8>)
    requires
        !reader.ended,
    ensures
        !(reader.header_result() matches Err(SmdlError::WouldBlock)) ==> {
            &&& reader.with_more(more).header_result() == reader.header_result()
            &&& reader.with_more(more).after_header() == reader.after_header().with_more(more)
        },
        reader.header_result() matches Err(SmdlError::WouldBlock) ==> reader.after_header()
            == reader,
        !reader.after_header().ended,
{
    law_more_input_changes_nothing_read(reader.unread, more);
    lemma_prefix_in_bounds(reader.unread);
    if reader.header is None && !(header_in(reader.unread) is Short) {
        let consumed = match header_in(reader.unread) {
            Prefix::Short { .. } => 0,
            Prefix::Refused { consumed, .. } => consumed,
            Prefix::Read { consumed, .. } => consumed,
        };
        assert((reader.unread + more).skip(consumed as int) =~= reader.unread.skip(consumed as int)
            + more);
    }
}

/// `law_pieces_do_not_matter`, of a message after the file header.
proof fn lemma_message_pieces(reader: SmdlReaderView, more: Seq<u8>)
    requires
        !reader.ended,
    ensures
        !(reader.message_result() matches Err(SmdlError::WouldBlock)) ==> {
            &&& reader.with_more(more).message_result() == reader.message_result()
            &&& reader.with_more(more).after_message() == reader.after_message().with_more(more)
        },
        reader.message_result() matches Err(SmdlError::WouldBlock) ==> reader.after_message()
            == reader,
{
    law_more_input_changes_nothing_read(reader.unread, more);
    lemma_prefix_in_bounds(reader.unread);
    if !(message_in(reader.unread) is Short) {
        let consumed = stored_len(reader.unread) as int;
        assert((reader.unread + more).skip(consumed) =~= reader.unread.skip(consumed) + more);
    }
}

/// What is read or refused lies in the input.
proof fn lemma_prefix_in_bounds(input: Seq<u8>)
    ensures
        match header_in(input) {
            Prefix::Short { counted } => counted <= input.len(),
            Prefix::Refused { consumed, .. } => 0 < consumed <= input.len(),
            Prefix::Read { consumed, .. } => 0 < consumed <= input.len(),
        },
        match message_in(input) {
            Prefix::Short { counted } => counted <= input.len(),
            Prefix::Refused { consumed, .. } => false,
            Prefix::Read { consumed, .. } => 0 < consumed <= input.len(),
        },
{
}

/// The state of a reader at the start of a whole file.
pub open spec fn reader_of(file: Seq<u8>) -> SmdlReaderView {
    SmdlReaderView { unread: file, ended: true, bytes_read: 0, max_bytes: None, header: None }
}

/// All the messages that a reader gives, up to its end or the first error.
pub open spec fn messages_read(reader: SmdlReaderView) -> Seq<DmMessageView>
    decreases reader.unread.len(),
{
    match reader.next_result() {
        Ok(Some(message)) => if reader.after_next().unread.len() < reader.unread.len() {
            seq![message] + messages_read(reader.after_next())
        } else {
            seq![message]
        },
        _ => Seq::empty(),
    }
}

/// A header of a version that the reader knows, whose device info has a length
/// that the length field can hold, is read back as it was written, and what
/// follows it in the file is what the reader has left.
pub proof fn law_header_read_back(reader: SmdlReaderView, header: SmdlHeaderView, rest: Seq<u8>)
    requires
        reader.header is None,
        reader.unread == header.encoded() + rest,
        header.version <= SMDL_VERSION,
        encode_utf8(header.device_info).len() <= u32::MAX,
    ensures
        reader.header_result() == Ok::<_, SmdlError>(header),
        reader.after_header() == (SmdlReaderView {
            unread: rest,
            bytes_read: reader.bytes_read + header.encoded().len(),
            header: Some(header),
            ..reader
        }),
{
    let info = encode_utf8(header.device_info);
    let input = reader.unread;
    lemma_le_bytes_len(header.version as nat, 4);
    lemma_le_bytes_len(info.len() % 0x1_0000_0000, 4);
    assert(le_range(4) == 0x1_0000_0000) by {
        reveal_with_fuel(le_range, 5);
    }
    law_value_of_bytes(header.version as nat, 4);
    law_value_of_bytes(info.len(), 4);
    assert(input.take(4) =~= SMDL_MAGIC@);
    assert(input.subrange(4, 8) =~= le_bytes(header.version as nat, 4));
    assert(input.subrange(8, 12) =~= le_bytes(info.len(), 4));
    assert(input.subrange(12, 12 + info.len() as int) =~= info);
    assert(input.skip(12 + info.len() as int) =~= rest);
    vstd::utf8::encode_utf8_valid_utf8(header.device_info);
    vstd::utf8::encode_utf8_decode_utf8(header.device_info);
}

/// A storable message is read back as it was written, and what follows it in
/// the file is what the reader has left.
pub proof fn law_message_read_back(reader: SmdlReaderView, message: DmMessageView, rest: Seq<u8>)
    requires
        reader.header is Some,
        reader.max_bytes matches Some(max) ==> reader.bytes_read < max,
        reader.unread == message.encoded() + rest,
        storable(message),
    ensures
        reader.next_result() == Ok::<_, SmdlError>(Some(message)),
        reader.after_next() == (SmdlReaderView {
            unread: rest,
            bytes_read: reader.bytes_read + message.encoded().len(),
            ..reader
        }),
{
    lemma_message_encoding(message, rest);
    assert(reader.unread.skip(stored_len(reader.unread) as int) =~= rest);
}

/// What was written is what is read: a file made of a header and a run of
/// storable messages gives the header, then exactly these messages in this
/// order, and then its end.
pub proof fn law_file_read_back(header: SmdlHeaderView, messages: Seq<DmMessageView>)
    requires
        header.version <= SMDL_VERSION,
        encode_utf8(header.device_info).len() <= u32::MAX,
        forall|i: int| 0 <= i < messages.len() ==> storable(#[trigger] messages[i]),
    ensures
        reader_of(header.encoded() + encoded_messages(messages)).header_result() == Ok::<
            _,
            SmdlError,
        >(header),
        messages_read(reader_of(header.encoded() + encoded_messages(messages))) == messages,
{
    let file = header.encoded() + encoded_messages(messages);
    let reader = reader_of(file);
    law_header_read_back(reader, header, encoded_messages(messages));
    lemma_messages_read_back(reader.after_header(), messages);
    let started = reader.after_header();
    assert(started.header_result() is Ok && started.after_header() == started);
    assert(reader.next_result() == started.next_result());
    assert(reader.after_next() == started.after_next());
    lemma_prefix_in_bounds(started.unread);
    assert(header.encoded().len() >= 12) by {
        lemma_le_bytes_len(header.version as nat, 4);
        lemma_le_bytes_len(encode_utf8(header.device_info).len() % 0x1_0000_0000, 4);
    }
    if started.next_result() matches Ok(Some(_)) {
        assert(started.after_next().unread.len() < started.unread.len());
    }
    assert(messages_read(reader) == messages_read(started));
}

proof fn lemma_messages_read_back(reader: SmdlReaderView, messages: Seq<DmMessageView>)
    requires
        reader.header is Some,
        reader.max_bytes is None,
        reader.ended,
        reader.unread == encoded_messages(messages),
        forall|i: int| 0 <= i < messages.len() ==> storable(#[trigger] messages[i]),
    ensures
        messages_read(reader) == messages,
    decreases messages.len(),
{
    if messages.len() > 0 {
        let rest = messages.drop_first();
        assert forall|i: int| 0 <= i < rest.len() implies storable(#[trigger] rest[i]) by {
            assert(rest[i] == messages[i + 1]);
        }
        assert(storable(messages[0]));
        law_message_read_back(reader, messages[0], encoded_messages(rest));
        lemma_message_encoding(messages[0], encoded_messages(rest));
        lemma_messages_read_back(reader.after_next(), rest);
        assert(seq![messages[0]] + rest =~= messages);
    } else {
        assert(messages_read(reader) =~= messages);
    }
}

/// Once a reader is at the end of the file, or at its limit, it stays there:
/// every further read gives nothing and changes nothing.
pub proof fn law_end_is_final(reader: SmdlReaderView)
    requires
        reader.header is Some,
        (reader.max_bytes matches Some(max) && reader.bytes_read >= max) || (reader.ended
            && reader.unread.len() == 0),
    ensures
        reader.next_result() == Ok::<_, SmdlError>(None::<DmMessageView>),
        reader.after_next() == reader,
{
    if !reader.limit_reached() {
        assert(reader.unread.skip(0) =~= reader.unread);
    }
}

/// Every message that is parsed from a device buffer is storable, if its frame
/// was empty or had room for metadata.
pub proof fn law_parsed_messages_are_storable(data: Seq<u8>)
    requires
        frames(data) is Ok,
    ensures
        forall|i: int|
            #![trigger frames(data)->Ok_0[i]]
            0 <= i < frames(data)->Ok_0.len() && (frames(data)->Ok_0[i].header.len == 0
                || frames(data)->Ok_0[i].header.len >= 11) ==> storable(frames(data)->Ok_0[i]),
    decreases data.len(),
{
    if data.len() >= 4 {
        let end = frame_len(data) as int;
        let messages = frames(data)->Ok_0;
        let rest = frames(data.skip(end))->Ok_0;
        lemma_le_value_2(data.subrange(2, 4));
        law_parsed_messages_are_storable(data.skip(end));
        assert forall|i: int|
            #![trigger messages[i]]
            0 <= i < messages.len() && (messages[i].header.len == 0 || messages[i].header.len
                >= 11) implies storable(messages[i]) by {
            if i > 0 {
                assert(messages[i] == rest[i - 1]);
            }
        }
    }
}

/// What came off a device and was logged is what is read from the log: a file
/// that holds the messages parsed from a device buffer gives these messages.
/// Frames with some data but no room for metadata are left out: they are
/// logged with a payload that their header does not count.
pub proof fn law_logged_buffer_read_back(header: SmdlHeaderView, data: Seq<u8>)
    requires
        header.version <= SMDL_VERSION,
        encode_utf8(header.device_info).len() <= u32::MAX,
        frames(data) is Ok,
        forall|i: int|
            #![trigger frames(data)->Ok_0[i]]
            0 <= i < frames(data)->Ok_0.len() ==> frames(data)->Ok_0[i].header.len == 0
                || frames(data)->Ok_0[i].header.len >= 11,
    ensures
        messages_read(reader_of(header.encoded() + encoded_messages(frames(data)->Ok_0)))
            == frames(data)->Ok_0,
{
    law_parsed_messages_are_storable(data);
    law_file_read_back(header, frames(data)->Ok_0);
}

} // verus!
