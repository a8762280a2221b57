//! Samsung Shannon IPC/DM protocol.
//!
//! The Samsung Inter-Processor Communication (SIPC) protocol is used by the
//! Samsung Shannon modems found in Google Pixel 6+ devices.
//!
//! References:
//! - libsamsung-ipc: <https://github.com/morphis/libsamsung-ipc>
//! - Replicant: <https://redmine.replicant.us/projects/replicant/wiki/libsamsung-ipc>
//! - Samsung kernel sources: modem_prj.h, modem-s5000ap-sipc-pdata.dtsi

use vstd::prelude::*;
use vstd::slice::{slice_subrange, slice_to_vec};

use crate::little_endian::{
    law_bytes_of_value, law_place_values, law_value_of_bytes, le_bytes, le_range, le_value,
    lemma_le_bytes_len, lemma_le_value_2, lemma_le_value_8_bound, push_u16, u16_at, u64_at,
};

verus! {

/// HDLC frame start marker for Samsung IPC.
pub const SIPC_FRAME_START: u8 = 0x7f;

/// SIPC5 protocol version.
pub const SIPC_VERSION: u8 = 5;

/// Bytes of message metadata (type, category, timestamp) ahead of a payload.
pub const DM_METADATA_SIZE: usize = 11;

/// IPC command types.
#[derive(Debug, Clone, Copy, PartialEq, Eq)]
pub enum IpcCmdType {
    Exec,
    Get,
    SetCmd,
    Confirm,
    Event,
    Notification,
    Unknown(u8),
}

impl IpcCmdType {
    /// The byte that stands for this command type on the wire.
    pub open spec fn spec_id(self) -> u8 {
        match self {
            IpcCmdType::Exec => 0x01,
            IpcCmdType::Get => 0x02,
            IpcCmdType::SetCmd => 0x03,
            IpcCmdType::Confirm => 0x04,
            IpcCmdType::Event => 0x05,
            IpcCmdType::Notification => 0x06,
            IpcCmdType::Unknown(v) => v,
        }
    }

    /// The command type that a wire byte stands for.
    pub open spec fn spec_from_id(id: u8) -> IpcCmdType {
        if id == 0x01 {
            IpcCmdType::Exec
        } else if id == 0x02 {
            IpcCmdType::Get
        } else if id == 0x03 {
            IpcCmdType::SetCmd
        } else if id == 0x04 {
            IpcCmdType::Confirm
        } else if id == 0x05 {
            IpcCmdType::Event
        } else if id == 0x06 {
            IpcCmdType::Notification
        } else {
            IpcCmdType::Unknown(id)
        }
    }

    /// Not an `Unknown` that holds the byte of a known command type.
    pub open spec fn canonical(self) -> bool {
        self matches IpcCmdType::Unknown(v) ==> !(1 <= v <= 6)
    }

    /// The wire byte of this command type.
    pub fn id(&self) -> (id: u8)
        ensures
            id == self.spec_id(),
    {
        match self {
            IpcCmdType::Exec => 0x01,
            IpcCmdType::Get => 0x02,
            IpcCmdType::SetCmd => 0x03,
            IpcCmdType::Confirm => 0x04,
            IpcCmdType::Event => 0x05,
            IpcCmdType::Notification => 0x06,
            IpcCmdType::Unknown(v) => *v,
        }
    }

    /// Read a command type off the front of `data`; also gives what follows.
    pub fn from_bytes(data: &[u8]) -> (read: Result<(&[u8], IpcCmdType), ShannonParsingError>)
        ensures
            data@.len() == 0 ==> read == Err::<(&[u8], IpcCmdType), _>(
                ShannonParsingError::BufferTooSmall { need: 1, got: 0 },
            ),
            data@.len() > 0 ==> read is Ok && read->Ok_0.0@ == data@.skip(1) && read->Ok_0.1
                == IpcCmdType::spec_from_id(data@[0]),
    {
        if data.len() == 0 {
            return Err(ShannonParsingError::BufferTooSmall { need: 1, got: 0 });
        }
        let value = match data[0] {
            0x01 => IpcCmdType::Exec,
            0x02 => IpcCmdType::Get,
            0x03 => IpcCmdType::SetCmd,
            0x04 => IpcCmdType::Confirm,
            0x05 => IpcCmdType::Event,
            0x06 => IpcCmdType::Notification,
            v => IpcCmdType::Unknown(v),
        };
        Ok((slice_subrange(data, 1, data.len()), value))
    }

    /// The bytes of this command type.
    pub fn to_bytes(&self) -> (bytes: Vec<u8>)
        ensures
            bytes@ == seq![self.spec_id()],
    {
        let mut bytes: Vec<u8> = Vec::new();
        bytes.push(self.id());
        assert(bytes@ =~= seq![self.spec_id()]);
        bytes
    }

    /// The wire byte of each command type is the protocol's, in both directions.
    pub proof fn law_wire_bytes(self, id: u8)
        ensures
            self is Exec ==> self.spec_id() == 0x01,
            self is Get ==> self.spec_id() == 0x02,
            self is SetCmd ==> self.spec_id() == 0x03,
            self is Confirm ==> self.spec_id() == 0x04,
            self is Event ==> self.spec_id() == 0x05,
            self is Notification ==> self.spec_id() == 0x06,
            self matches IpcCmdType::Unknown(v) ==> self.spec_id() == v,
            id == 0x01 ==> IpcCmdType::spec_from_id(id) is Exec,
            id == 0x02 ==> IpcCmdType::spec_from_id(id) is Get,
            id == 0x03 ==> IpcCmdType::spec_from_id(id) is SetCmd,
            id == 0x04 ==> IpcCmdType::spec_from_id(id) is Confirm,
            id == 0x05 ==> IpcCmdType::spec_from_id(id) is Event,
            id == 0x06 ==> IpcCmdType::spec_from_id(id) is Notification,
            id == 0 || id > 6 ==> IpcCmdType::spec_from_id(id) == IpcCmdType::Unknown(id),
    {
    }

    /// A wire byte survives being read and written, whatever it is; a command
    /// type survives being written and read if it is canonical, and what is
    /// read is always canonical.
    pub proof fn law_id_round_trip(self, id: u8)
        ensures
            IpcCmdType::spec_from_id(id).spec_id() == id,
            IpcCmdType::spec_from_id(id).canonical(),
            self.canonical() ==> IpcCmdType::spec_from_id(self.spec_id()) == self,
    {
    }
}

/// IPC main command groups.
#[derive(Debug, Clone, Copy, PartialEq, Eq)]
pub enum IpcMainCmd {
    Power,
    Call,
    Sms,
    Sec,
    Pb,
    Disp,
    Net,
    Snd,
    Misc,
    Svc,
    Ss,
    Gprs,
    Sat,
    Cfg,
    Imei,
    Gps,
    Omadm,
    Gen,
    Rfs,
    Unknown(u8),
}

impl IpcMainCmd {
    /// The byte that stands for this command group on the wire.
    pub open spec fn spec_id(self) -> u8 {
        match self {
            IpcMainCmd::Power => 0x01,
            IpcMainCmd::Call => 0x02,
            IpcMainCmd::Sms => 0x03,
            IpcMainCmd::Sec => 0x04,
            IpcMainCmd::Pb => 0x05,
            IpcMainCmd::Disp => 0x06,
            IpcMainCmd::Net => 0x07,
            IpcMainCmd::Snd => 0x08,
            IpcMainCmd::Misc => 0x09,
            IpcMainCmd::Svc => 0x0A,
            IpcMainCmd::Ss => 0x0B,
            IpcMainCmd::Gprs => 0x0C,
            IpcMainCmd::Sat => 0x0D,
            IpcMainCmd::Cfg => 0x0E,
            IpcMainCmd::Imei => 0x0F,
            IpcMainCmd::Gps => 0x10,
            IpcMainCmd::Omadm => 0x11,
            IpcMainCmd::Gen => 0x80,
            IpcMainCmd::Rfs => 0xFE,
            IpcMainCmd::Unknown(v) => v,
        }
    }

    /// True of the bytes that stand for a known command group.
    pub open spec fn known_id(id: u8) -> bool {
        1 <= id <= 0x11 || id == 0x80 || id == 0xFE
    }

    /// Not an `Unknown` that holds the byte of a known command group.
    pub open spec fn canonical(self) -> bool {
        self matches IpcMainCmd::Unknown(v) ==> !IpcMainCmd::known_id(v)
    }

    /// The wire byte of this command group.
    pub fn id(&self) -> (id: u8)
        ensures
            id == self.spec_id(),
    {
        match self {
            IpcMainCmd::Power => 0x01,
            IpcMainCmd::Call => 0x02,
            IpcMainCmd::Sms => 0x03,
            IpcMainCmd::Sec => 0x04,
            IpcMainCmd::Pb => 0x05,
            IpcMainCmd::Disp => 0x06,
            IpcMainCmd::Net => 0x07,
            IpcMainCmd::Snd => 0x08,
            IpcMainCmd::Misc => 0x09,
            IpcMainCmd::Svc => 0x0A,
            IpcMainCmd::Ss => 0x0B,
            IpcMainCmd::Gprs => 0x0C,
            IpcMainCmd::Sat => 0x0D,
            IpcMainCmd::Cfg => 0x0E,
            IpcMainCmd::Imei => 0x0F,
            IpcMainCmd::Gps => 0x10,
            IpcMainCmd::Omadm => 0x11,
            IpcMainCmd::Gen => 0x80,
            IpcMainCmd::Rfs => 0xFE,
            IpcMainCmd::Unknown(v) => *v,
        }
    }

    /// Read a command group off the front of `data`; also gives what follows.
    /// The value read is the canonical one with the byte that stands there.
    pub fn from_bytes(data: &[u8]) -> (read: Result<(&[u8], IpcMainCmd), ShannonParsingError>)
        ensures
            data@.len() == 0 ==> read == Err::<(&[u8], IpcMainCmd), _>(
                ShannonParsingError::BufferTooSmall { need: 1, got: 0 },
            ),
            data@.len() > 0 ==> read is Ok && read->Ok_0.0@ == data@.skip(1)
                && read->Ok_0.1.spec_id() == data@[0] && read->Ok_0.1.canonical(),
    {
        if data.len() == 0 {
            return Err(ShannonParsingError::BufferTooSmall { need: 1, got: 0 });
        }
        let value = match data[0] {
            0x01 => IpcMainCmd::Power,
            0x02 => IpcMainCmd::Call,
            0x03 => IpcMainCmd::Sms,
            0x04 => IpcMainCmd::Sec,
            0x05 => IpcMainCmd::Pb,
            0x06 => IpcMainCmd::Disp,
            0x07 => IpcMainCmd::Net,
            0x08 => IpcMainCmd::Snd,
            0x09 => IpcMainCmd::Misc,
            0x0A => IpcMainCmd::Svc,
            0x0B => IpcMainCmd::Ss,
            0x0C => IpcMainCmd::Gprs,
            0x0D => IpcMainCmd::Sat,
            0x0E => IpcMainCmd::Cfg,
            0x0F => IpcMainCmd::Imei,
            0x10 => IpcMainCmd::Gps,
            0x11 => IpcMainCmd::Omadm,
            0x80 => IpcMainCmd::Gen,
            0xFE => IpcMainCmd::Rfs,
            v => IpcMainCmd::Unknown(v),
        };
        Ok((slice_subrange(data, 1, data.len()), value))
    }

    /// The bytes of this command group.
    pub fn to_bytes(&self) -> (bytes: Vec<u8>)
        ensures
            bytes@ == seq![self.spec_id()],
    {
        let mut bytes: Vec<u8> = Vec::new();
        bytes.push(self.id());
        assert(bytes@ =~= seq![self.spec_id()]);
        bytes
    }

    /// The wire byte of each command group is the protocol's, in both
    /// directions: what is read from a byte is the canonical group with it.
    pub proof fn law_wire_bytes(self)
        ensures
            self is Power ==> self.spec_id() == 0x01,
            self is Call ==> self.spec_id() == 0x02,
            self is Sms ==> self.spec_id() == 0x03,
            self is Sec ==> self.spec_id() == 0x04,
            self is Pb ==> self.spec_id() == 0x05,
            self is Disp ==> self.spec_id() == 0x06,
            self is Net ==> self.spec_id() == 0x07,
            self is Snd ==> self.spec_id() == 0x08,
            self is Misc ==> self.spec_id() == 0x09,
            self is Svc ==> self.spec_id() == 0x0a,
            self is Ss ==> self.spec_id() == 0x0b,
            self is Gprs ==> self.spec_id() == 0x0c,
            self is Sat ==> self.spec_id() == 0x0d,
            self is Cfg ==> self.spec_id() == 0x0e,
            self is Imei ==> self.spec_id() == 0x0f,
            self is Gps ==> self.spec_id() == 0x10,
            self is Omadm ==> self.spec_id() == 0x11,
            self is Gen ==> self.spec_id() == 0x80,
            self is Rfs ==> self.spec_id() == 0xfe,
            self matches IpcMainCmd::Unknown(v) ==> self.spec_id() == v,
            self.canonical() && self.spec_id() == 0x01 ==> self is Power,
            self.canonical() && self.spec_id() == 0x02 ==> self is Call,
            self.canonical() && self.spec_id() == 0x03 ==> self is Sms,
            self.canonical() && self.spec_id() == 0x04 ==> self is Sec,
            self.canonical() && self.spec_id() == 0x05 ==> self is Pb,
            self.canonical() && self.spec_id() == 0x06 ==> self is Disp,
            self.canonical() && self.spec_id() == 0x07 ==> self is Net,
            self.canonical() && self.spec_id() == 0x08 ==> self is Snd,
            self.canonical() && self.spec_id() == 0x09 ==> self is Misc,
            self.canonical() && self.spec_id() == 0x0a ==> self is Svc,
            self.canonical() && self.spec_id() == 0x0b ==> self is Ss,
            self.canonical() && self.spec_id() == 0x0c ==> self is Gprs,
            self.canonical() && self.spec_id() == 0x0d ==> self is Sat,
            self.canonical() && self.spec_id() == 0x0e ==> self is Cfg,
            self.canonical() && self.spec_id() == 0x0f ==> self is Imei,
            self.canonical() && self.spec_id() == 0x10 ==> self is Gps,
            self.canonical() && self.spec_id() == 0x11 ==> self is Omadm,
            self.canonical() && self.spec_id() == 0x80 ==> self is Gen,
            self.canonical() && self.spec_id() == 0xfe ==> self is Rfs,
            self.canonical() && (self.spec_id() == 0 || 0x11 < self.spec_id() < 0x80 || 0x80
                < self.spec_id() < 0xfe || self.spec_id() == 0xff) ==> self is Unknown,
    {
    }

    /// No two canonical command groups share a byte, so a canonical group is
    /// the only one that reading its byte can give.
    pub proof fn law_id_decides_group(self, other: IpcMainCmd)
        requires
            self.canonical(),
            other.canonical(),
            self.spec_id() == other.spec_id(),
        ensures
            self == other,
    {
    }
}

/// SIPC format header (7 bytes), used for formatted IPC messages on
/// `/dev/umts_ipc0`.
#[derive(Debug, Clone, PartialEq)]
pub struct SipcFmtHeader {
    /// Total message length including header.
    pub len: u16,
    /// Message sequence number.
    pub msg_seq: u8,
    /// Acknowledgment sequence number.
    pub ack_seq: u8,
    /// Main command group.
    pub main_cmd: u8,
    /// Sub command within group.
    pub sub_cmd: u8,
    /// Command type (exec/get/set/etc).
    pub cmd_type: u8,
}

impl SipcFmtHeader {
    pub const SIZE: usize = 7;

    /// The header's bytes on the wire.
    pub open spec fn encoded(self) -> Seq<u8> {
        le_bytes(self.len as nat, 2) + seq![
            self.msg_seq,
            self.ack_seq,
            self.main_cmd,
            self.sub_cmd,
            self.cmd_type,
        ]
    }

    /// A header for a command; its length is 0 until the payload is known.
    pub fn new(main_cmd: u8, sub_cmd: u8, cmd_type: IpcCmdType, msg_seq: u8) -> (header: Self)
        ensures
            header == (SipcFmtHeader {
                len: 0,
                msg_seq,
                ack_seq: 0,
                main_cmd,
                sub_cmd,
                cmd_type: cmd_type.spec_id(),
            }),
    {
        SipcFmtHeader { len: 0, msg_seq, ack_seq: 0, main_cmd, sub_cmd, cmd_type: cmd_type.id() }
    }

    /// Read a header off the front of `data`; also gives what follows.
    pub fn from_bytes(data: &[u8]) -> (read: Result<(&[u8], SipcFmtHeader), ShannonParsingError>)
        ensures
            data@.len() < 7 ==> read == Err::<(&[u8], SipcFmtHeader), _>(
                ShannonParsingError::BufferTooSmall { need: 7, got: data@.len() as usize },
            ),
            data@.len() >= 7 ==> read is Ok && read->Ok_0.1.encoded() + read->Ok_0.0@ == data@,
    {
        if data.len() < Self::SIZE {
            return Err(ShannonParsingError::BufferTooSmall { need: Self::SIZE, got: data.len() });
        }
        let len: u16 = u16_at(data, 0);
        let header = SipcFmtHeader {
            len,
            msg_seq: data[2],
            ack_seq: data[3],
            main_cmd: data[4],
            sub_cmd: data[5],
            cmd_type: data[6],
        };
        let rest = slice_subrange(data, Self::SIZE, data.len());
        proof {
            law_bytes_of_value(data@.subrange(0, 2));
            assert(header.encoded() + rest@ =~= data@);
        }
        Ok((rest, header))
    }

    /// The bytes of this header.
    pub fn to_bytes(&self) -> (bytes: Vec<u8>)
        ensures
            bytes@ == self.encoded(),
            bytes@.len() == Self::SIZE,
    {
        let mut bytes: Vec<u8> = Vec::new();
        push_u16(&mut bytes, self.len);
        proof {
            lemma_le_bytes_len(self.len as nat, 2);
        }
        bytes.push(self.msg_seq);
        bytes.push(self.ack_seq);
        bytes.push(self.main_cmd);
        bytes.push(self.sub_cmd);
        bytes.push(self.cmd_type);
        assert(bytes@ =~= self.encoded());
        bytes
    }

    /// Where each field stands in the bytes, lengths low byte first.
    pub proof fn law_layout(self)
        ensures
            self.encoded().len() == 7,
            self.encoded()[0] + 0x100 * self.encoded()[1] == self.len,
            self.encoded()[2] == self.msg_seq,
            self.encoded()[3] == self.ack_seq,
            self.encoded()[4] == self.main_cmd,
            self.encoded()[5] == self.sub_cmd,
            self.encoded()[6] == self.cmd_type,
    {
        law_place_values(Seq::empty(), self.len as u64);
    }

    /// A header is decided by its bytes: what `from_bytes` reads off the bytes
    /// that `to_bytes` wrote is the header that was written, and what follows
    /// is what followed.
    pub proof fn law_bytes_decide_header(self, other: SipcFmtHeader, tail: Seq<u8>, rest: Seq<u8>)
        requires
            self.encoded() + tail == other.encoded() + rest,
        ensures
            self == other,
            tail == rest,
    {
        let all = self.encoded() + tail;
        lemma_le_bytes_len(self.len as nat, 2);
        lemma_le_bytes_len(other.len as nat, 2);
        assert(le_range(2) == 0x1_0000) by {
            reveal_with_fuel(le_range, 3);
        }
        law_value_of_bytes(self.len as nat, 2);
        law_value_of_bytes(other.len as nat, 2);
        assert(all.subrange(0, 2) =~= le_bytes(self.len as nat, 2));
        assert(all.subrange(0, 2) =~= le_bytes(other.len as nat, 2));
        assert(all.skip(7) =~= tail);
        assert(all.skip(7) =~= rest);
        assert(all[2] == self.msg_seq && all[2] == other.msg_seq);
        assert(all[3] == self.ack_seq && all[3] == other.ack_seq);
        assert(all[4] == self.main_cmd && all[4] == other.main_cmd);
        assert(all[5] == self.sub_cmd && all[5] == other.sub_cmd);
        assert(all[6] == self.cmd_type && all[6] == other.cmd_type);
    }
}

/// SIPC5 raw header for the DM (Diagnostic Monitor) channel, used on
/// `/dev/umts_dm0` for diagnostic data.
#[derive(Debug, Clone, PartialEq)]
pub struct SipcRawHeader {
    /// Channel ID (28 for umts_dm0).
    pub channel: u8,
    /// Control byte (multi-frame: 0x80 = more frames, 0x7F = frame ID mask).
    pub control: u8,
    /// Length of data following this header.
    pub len: u16,
}

impl SipcRawHeader {
    pub const SIZE: usize = 4;

    pub const DM_CHANNEL_ID: u8 = 28;

    /// The header's bytes on the wire.
    pub open spec fn encoded(self) -> Seq<u8> {
        seq![self.channel, self.control] + le_bytes(self.len as nat, 2)
    }

    /// The header that the first four bytes of `data` spell.
    pub open spec fn decoded(data: Seq<u8>) -> SipcRawHeader {
        SipcRawHeader {
            channel: data[0],
            control: data[1],
            len: le_value(data.subrange(2, 4)) as u16,
        }
    }

    /// More frames of the message follow.
    pub open spec fn more_frames(self) -> bool {
        self.control >= 0x80
    }

    /// The frame ID for multi-frame reassembly.
    pub open spec fn frame_number(self) -> u8 {
        self.control % 0x80
    }

    /// Check if this is a multi-frame message with more frames following.
    pub fn has_more_frames(&self) -> (more: bool)
        ensures
            more == self.more_frames(),
            more == (self.control >= 0x80),
    {
        let control: u8 = self.control;
        assert((control & 0x80 != 0) == (control >= 0x80)) by (bit_vector);
        (self.control & 0x80) != 0
    }

    /// Get the frame ID for multi-frame reassembly.
    pub fn frame_id(&self) -> (id: u8)
        ensures
            id == self.frame_number(),
            id == self.control % 0x80,
    {
        let control: u8 = self.control;
        assert(control & 0x7F == control % 0x80) by (bit_vector);
        self.control & 0x7F
    }

    /// Read a header off the front of `data`; also gives what follows.
    pub fn from_bytes(data: &[u8]) -> (read: Result<(&[u8], SipcRawHeader), ShannonParsingError>)
        ensures
            data@.len() < 4 ==> read == Err::<(&[u8], SipcRawHeader), _>(
                ShannonParsingError::BufferTooSmall { need: 4, got: data@.len() as usize },
            ),
            data@.len() >= 4 ==> read is Ok && read->Ok_0.0@ == data@.skip(4) && read->Ok_0.1
                == SipcRawHeader::decoded(data@),
    {
        if data.len() < Self::SIZE {
            return Err(ShannonParsingError::BufferTooSmall { need: Self::SIZE, got: data.len() });
        }
        let len: u16 = u16_at(data, 2);
        let header = SipcRawHeader { channel: data[0], control: data[1], len };
        Ok((slice_subrange(data, Self::SIZE, data.len()), header))
    }

    /// The bytes of this header.
    pub fn to_bytes(&self) -> (bytes: Vec<u8>)
        ensures
            bytes@ == self.encoded(),
            bytes@.len() == Self::SIZE,
    {
        let mut bytes: Vec<u8> = Vec::new();
        bytes.push(self.channel);
        bytes.push(self.control);
        push_u16(&mut bytes, self.len);
        proof {
            lemma_le_bytes_len(self.len as nat, 2);
            assert(bytes@ =~= self.encoded());
        }
        bytes
    }

    /// Where each field stands in the bytes, the length low byte first.
    pub proof fn law_layout(self, data: Seq<u8>)
        ensures
            self.encoded().len() == 4,
            self.encoded()[0] == self.channel,
            self.encoded()[1] == self.control,
            self.encoded()[2] + 0x100 * self.encoded()[3] == self.len,
            data.len() >= 4 ==> ({
                let header = SipcRawHeader::decoded(data);
                &&& header.channel == data[0]
                &&& header.control == data[1]
                &&& header.len == data[2] + 0x100 * data[3]
            }),
    {
        law_place_values(data.subrange(2, 4), self.len as u64);
    }

    /// The "more frames" flag and the frame ID together are the control byte:
    /// nothing of it is lost, and the two do not overlap.
    pub proof fn law_control_byte(self)
        ensures
            self.frame_number() < 0x80,
            self.control == (if self.more_frames() { 0x80int } else { 0 }) + self.frame_number(),
            self.control == (if self.control >= 0x80 { 0x80int } else { 0 }) + self.control % 0x80,
    {
    }

    /// A header read off the bytes of a header is that header, and the bytes
    /// of a header that was read are the bytes it was read from.
    pub proof fn law_encode_decode(self, data: Seq<u8>, tail: Seq<u8>)
        ensures
            self.encoded().len() == 4,
            SipcRawHeader::decoded(self.encoded() + tail) == self,
            data.len() >= 4 ==> SipcRawHeader::decoded(data).encoded() == data.take(4),
    {
        let all = self.encoded() + tail;
        lemma_le_bytes_len(self.len as nat, 2);
        assert(le_range(2) == 0x1_0000) by {
            reveal_with_fuel(le_range, 3);
        }
        law_value_of_bytes(self.len as nat, 2);
        assert(all.subrange(2, 4) =~= le_bytes(self.len as nat, 2));
        if data.len() >= 4 {
            let len_bytes = data.subrange(2, 4);
            lemma_le_value_2(len_bytes);
            law_bytes_of_value(len_bytes);
            assert(SipcRawHeader::decoded(data).encoded() =~= data.take(4));
        }
    }
}

/// Samsung Diagnostic Monitor message types.
#[derive(Debug, Clone, PartialEq)]
pub enum DmMessageType {
    /// Log message containing protocol data.
    Log,
    /// Response to a command.
    Response,
    /// Event notification.
    Event,
    /// Debug/trace message.
    Debug,
    Unknown(u8),
}

impl DmMessageType {
    /// The byte that stands for this message type on the wire.
    pub open spec fn spec_id(self) -> u8 {
        match self {
            DmMessageType::Log => 0x10,
            DmMessageType::Response => 0x11,
            DmMessageType::Event => 0x12,
            DmMessageType::Debug => 0x13,
            DmMessageType::Unknown(v) => v,
        }
    }

    /// The message type that a wire byte stands for.
    pub open spec fn spec_from_id(id: u8) -> DmMessageType {
        if id == 0x10 {
            DmMessageType::Log
        } else if id == 0x11 {
            DmMessageType::Response
        } else if id == 0x12 {
            DmMessageType::Event
        } else if id == 0x13 {
            DmMessageType::Debug
        } else {
            DmMessageType::Unknown(id)
        }
    }

    /// Not an `Unknown` that holds the byte of a known message type.
    pub open spec fn canonical(self) -> bool {
        self matches DmMessageType::Unknown(v) ==> !(0x10 <= v <= 0x13)
    }

    /// The wire byte of this message type.
    pub fn id(&self) -> (id: u8)
        ensures
            id == self.spec_id(),
    {
        match self {
            DmMessageType::Log => 0x10,
            DmMessageType::Response => 0x11,
            DmMessageType::Event => 0x12,
            DmMessageType::Debug => 0x13,
            DmMessageType::Unknown(v) => *v,
        }
    }

    /// The message type that a wire byte stands for.
    pub fn from_id(id: u8) -> (msg_type: DmMessageType)
        ensures
            msg_type == DmMessageType::spec_from_id(id),
    {
        match id {
            0x10 => DmMessageType::Log,
            0x11 => DmMessageType::Response,
            0x12 => DmMessageType::Event,
            0x13 => DmMessageType::Debug,
            v => DmMessageType::Unknown(v),
        }
    }

    /// Read a message type off the front of `data`; also gives what follows.
    pub fn from_bytes(data: &[u8]) -> (read: Result<(&[u8], DmMessageType), ShannonParsingError>)
        ensures
            data@.len() == 0 ==> read == Err::<(&[u8], DmMessageType), _>(
                ShannonParsingError::BufferTooSmall { need: 1, got: 0 },
            ),
            data@.len() > 0 ==> read is Ok && read->Ok_0.0@ == data@.skip(1) && read->Ok_0.1
                == DmMessageType::spec_from_id(data@[0]),
    {
        if data.len() == 0 {
            return Err(ShannonParsingError::BufferTooSmall { need: 1, got: 0 });
        }
        Ok((slice_subrange(data, 1, data.len()), DmMessageType::from_id(data[0])))
    }

    /// The bytes of this message type.
    pub fn to_bytes(&self) -> (bytes: Vec<u8>)
        ensures
            bytes@ == seq![self.spec_id()],
    {
        let mut bytes: Vec<u8> = Vec::new();
        bytes.push(self.id());
        assert(bytes@ =~= seq![self.spec_id()]);
        bytes
    }

    /// The wire byte of each message type is the protocol's, in both directions.
    pub proof fn law_wire_bytes(self, id: u8)
        ensures
            self is Log ==> self.spec_id() == 0x10,
            self is Response ==> self.spec_id() == 0x11,
            self is Event ==> self.spec_id() == 0x12,
            self is Debug ==> self.spec_id() == 0x13,
            self matches DmMessageType::Unknown(v) ==> self.spec_id() == v,
            id == 0x10 ==> DmMessageType::spec_from_id(id) is Log,
            id == 0x11 ==> DmMessageType::spec_from_id(id) is Response,
            id == 0x12 ==> DmMessageType::spec_from_id(id) is Event,
            id == 0x13 ==> DmMessageType::spec_from_id(id) is Debug,
            id < 0x10 || id > 0x13 ==> DmMessageType::spec_from_id(id) == DmMessageType::Unknown(
                id,
            ),
    {
    }

    /// A wire byte survives being read and written, whatever it is; a message
    /// type survives being written and read if it is canonical, and what is
    /// read is always canonical.
    pub proof fn law_id_round_trip(self, id: u8)
        ensures
            DmMessageType::spec_from_id(id).spec_id() == id,
            DmMessageType::spec_from_id(id).canonical(),
            self.canonical() ==> DmMessageType::spec_from_id(self.spec_id()) == self,
    {
    }
}

/// Diagnostic Monitor log categories. Each stands for the first of a run of
/// category codes, which ends where the next category's begins.
///
/// The number that stands for a category in a message is the one that
/// [`DmLogCategory::code`] gives; a cast gives the category's place in this list.
#[derive(Debug, Clone, Copy, PartialEq, Eq)]
pub enum DmLogCategory {
    /// GSM/GPRS Layer 2 signalling.
    GsmL2,
    /// GSM/GPRS Layer 3 signalling.
    GsmL3,
    /// WCDMA/UMTS signalling.
    Wcdma,
    /// LTE RRC signalling.
    LteRrc,
    /// LTE NAS signalling.
    LteNas,
    /// 5G NR RRC signalling.
    NrRrc,
    /// 5G NR NAS signalling.
    NrNas,
    /// IP traffic.
    IpTraffic,
}

impl DmLogCategory {
    /// The category's code.
    pub open spec fn spec_code(self) -> u16 {
        match self {
            DmLogCategory::GsmL2 => 0x1000,
            DmLogCategory::GsmL3 => 0x1100,
            DmLogCategory::Wcdma => 0x2000,
            DmLogCategory::LteRrc => 0x3000,
            DmLogCategory::LteNas => 0x3100,
            DmLogCategory::NrRrc => 0x4000,
            DmLogCategory::NrNas => 0x4100,
            DmLogCategory::IpTraffic => 0x5000,
        }
    }

    /// The category's code.
    pub fn code(self) -> (code: u16)
        ensures
            code == self.spec_code(),
    {
        match self {
            DmLogCategory::GsmL2 => 0x1000,
            DmLogCategory::GsmL3 => 0x1100,
            DmLogCategory::Wcdma => 0x2000,
            DmLogCategory::LteRrc => 0x3000,
            DmLogCategory::LteNas => 0x3100,
            DmLogCategory::NrRrc => 0x4000,
            DmLogCategory::NrNas => 0x4100,
            DmLogCategory::IpTraffic => 0x5000,
        }
    }

    /// The code of each category is the protocol's, and only its.
    pub proof fn law_codes(self)
        ensures
            self is GsmL2 <==> self.spec_code() == 0x1000,
            self is GsmL3 <==> self.spec_code() == 0x1100,
            self is Wcdma <==> self.spec_code() == 0x2000,
            self is LteRrc <==> self.spec_code() == 0x3000,
            self is LteNas <==> self.spec_code() == 0x3100,
            self is NrRrc <==> self.spec_code() == 0x4000,
            self is NrNas <==> self.spec_code() == 0x4100,
            self is IpTraffic <==> self.spec_code() == 0x5000,
    {
    }
}

/// A parsed Samsung DM message.
#[derive(Debug, Clone, PartialEq)]
pub struct DmMessage {
    pub header: SipcRawHeader,
    pub msg_type: DmMessageType,
    pub category: u16,
    pub timestamp: u64,
    pub payload: Vec<u8>,
}

/// What a [`DmMessage`] holds, as a mathematical value.
#[verifier::ext_equal]
pub struct DmMessageView {
    pub header: SipcRawHeader,
    pub msg_type: DmMessageType,
    pub category: u16,
    pub timestamp: u64,
    pub payload: Seq<u8>,
}

impl View for DmMessage {
    type V = DmMessageView;

    open spec fn view(&self) -> DmMessageView {
        DmMessageView {
            header: self.header,
            msg_type: self.msg_type,
            category: self.category,
            timestamp: self.timestamp,
            payload: self.payload@,
        }
    }
}

impl DmMessageView {
    /// The message's type, category and timestamp on the wire.
    pub open spec fn metadata(self) -> Seq<u8> {
        seq![self.msg_type.spec_id()] + le_bytes(self.category as nat, 2) + le_bytes(
            self.timestamp as nat,
            8,
        )
    }

    /// The message's bytes on the wire: header, metadata, payload.
    pub open spec fn encoded(self) -> Seq<u8> {
        self.header.encoded() + self.metadata() + self.payload
    }

    /// The header counts the metadata and the payload, and the message type
    /// is the one that its byte stands for.
    pub open spec fn framed(self) -> bool {
        &&& self.header.len == 11 + self.payload.len()
        &&& self.msg_type.canonical()
    }
}

/// The bytes of a run of messages, one after the other.
pub open spec fn encoded_messages(messages: Seq<DmMessageView>) -> Seq<u8>
    decreases messages.len(),
{
    if messages.len() == 0 {
        Seq::empty()
    } else {
        messages[0].encoded() + encoded_messages(messages.drop_first())
    }
}

/// What a list of messages holds, as a mathematical value.
pub open spec fn message_views(messages: Seq<DmMessage>) -> Seq<DmMessageView> {
    messages.map_values(|m: DmMessage| m@)
}

/// Container for multiple DM messages read from a device.
#[derive(Debug, Clone, PartialEq)]
pub struct DmMessagesContainer {
    pub messages: Vec<DmMessage>,
}

impl View for DmMessagesContainer {
    type V = Seq<DmMessageView>;

    open spec fn view(&self) -> Seq<DmMessageView> {
        message_views(self.messages@)
    }
}

impl DmMessagesContainer {
    /// An empty container.
    pub fn new() -> (container: Self)
        ensures
            container@ == Seq::<DmMessageView>::empty(),
            container.messages@ == Seq::<DmMessage>::empty(),
    {
        let container = DmMessagesContainer { messages: Vec::new() };
        assert(container@ =~= Seq::<DmMessageView>::empty());
        container
    }

    /// Add a message at the end.
    pub fn push(&mut self, msg: DmMessage)
        ensures
            final(self)@ == old(self)@.push(msg@),
            final(self).messages@ == old(self).messages@.push(msg),
    {
        self.messages.push(msg);
        assert(self@ =~= old(self)@.push(msg@));
    }
}

impl Default for DmMessagesContainer {
    fn default() -> (container: Self)
        ensures
            container@ == Seq::<DmMessageView>::empty(),
    {
        Self::new()
    }
}

/// Why bytes could not be read as SIPC data.
#[derive(Debug, Clone, PartialEq)]
pub enum ShannonParsingError {
    /// Failed to parse a SIPC header.
    HeaderParsingError(String),
    /// Failed to parse a DM message, and its data.
    MessageParsingError(String, Vec<u8>),
    /// Another channel than the expected one.
    InvalidChannel { expected: u8, got: u8 },
    /// Fewer bytes than needed.
    BufferTooSmall { need: usize, got: usize },
    /// Checksum mismatch.
    ChecksumError,
}

/// The message that the data `body` after the header `header` spells: a type,
/// a category and a timestamp ahead of the payload, or, where there is no room
/// for those, a payload alone.
pub open spec fn message_of(header: SipcRawHeader, body: Seq<u8>) -> DmMessageView {
    if body.len() >= 11 {
        DmMessageView {
            header,
            msg_type: DmMessageType::spec_from_id(body[0]),
            category: le_value(body.subrange(1, 3)) as u16,
            timestamp: le_value(body.subrange(3, 11)) as u64,
            payload: body.skip(11),
        }
    } else {
        DmMessageView {
            header,
            msg_type: DmMessageType::Unknown(0),
            category: 0,
            timestamp: 0,
            payload: body,
        }
    }
}

/// How many bytes the frame at the front of `data` takes, by its header.
pub open spec fn frame_len(data: Seq<u8>) -> nat {
    4 + le_value(data.subrange(2, 4))
}

/// The frames that `data` is made of. `Err(need)` where a frame claims more
/// than is there; the whole of `data` would have to be `need` bytes for it to
/// be complete. A tail too short for a header is passed over.
pub open spec fn frames(data: Seq<u8>) -> Result<Seq<DmMessageView>, nat>
    decreases data.len(),
{
    if data.len() < 4 {
        Ok(Seq::empty())
    } else if frame_len(data) > data.len() {
        Err(frame_len(data))
    } else {
        let end = frame_len(data) as int;
        let first = message_of(SipcRawHeader::decoded(data), data.subrange(4, end));
        match frames(data.skip(end)) {
            Ok(rest) => Ok(seq![first] + rest),
            Err(need) => Err(end as nat + need),
        }
    }
}

/// Parse raw bytes from `/dev/umts_dm0` into DM messages.
///
/// The whole buffer is refused where its last frame is cut short. The length
/// reported as needed is capped at `usize::MAX`.
pub fn parse_dm_buffer(data: &[u8]) -> (parsed: Result<Vec<DmMessage>, ShannonParsingError>)
    ensures
        match frames(data@) {
            Ok(messages) => parsed is Ok && message_views(parsed->Ok_0@) == messages,
            Err(need) => parsed == Err::<Vec<DmMessage>, _>(
                ShannonParsingError::BufferTooSmall {
                    need: (if need <= usize::MAX { need as usize } else { usize::MAX }),
                    got: data@.len() as usize,
                },
            ),
        },
{
    let mut messages: Vec<DmMessage> = Vec::new();
    let mut offset: usize = 0;
    proof {
        assert(data@.skip(0) =~= data@);
        assert(message_views(messages@) =~= Seq::<DmMessageView>::empty());
    }
    while data.len() - offset >= SipcRawHeader::SIZE
        invariant
            offset <= data@.len(),
            match frames(data@.skip(offset as int)) {
                Ok(rest) => frames(data@) == Ok::<Seq<DmMessageView>, nat>(
                    message_views(messages@) + rest,
                ),
                Err(need) => frames(data@) == Err::<Seq<DmMessageView>, nat>(offset as nat + need),
            },
        decreases data.len() - offset,
    {
        let ghost here = data@.skip(offset as int);
        let msg_start: usize = offset + SipcRawHeader::SIZE;
        let header_bytes = slice_subrange(data, offset, msg_start);
        let header = match SipcRawHeader::from_bytes(header_bytes) {
            Ok((_, header)) => header,
            Err(e) => return Err(e),
        };
        proof {
            assert(header_bytes@.subrange(2, 4) =~= here.subrange(2, 4));
            lemma_le_value_2(here.subrange(2, 4));
            assert(header == SipcRawHeader::decoded(here));
        }
        let body_len: usize = header.len as usize;
        if body_len > data.len() - msg_start {
            return Err(
                ShannonParsingError::BufferTooSmall {
                    need: msg_start.saturating_add(body_len),
                    got: data.len(),
                },
            );
        }
        let msg_end: usize = msg_start + body_len;
        let body = slice_subrange(data, msg_start, msg_end);
        assert(body@ =~= here.subrange(4, frame_len(here) as int));
        let message = parse_body(header, body);
        let ghost before = message_views(messages@);
        messages.push(message);
        offset = msg_end;
        proof {
            assert(message_views(messages@) =~= before.push(message@));
            assert(here.skip(frame_len(here) as int) =~= data@.skip(offset as int));
            let rest = frames(data@.skip(offset as int));
            if rest is Ok {
                assert(before + (seq![message@] + rest->Ok_0) =~= before.push(message@) + rest->Ok_0);
            }
        }
    }
    proof {
        assert(frames(data@.skip(offset as int)) == Ok::<Seq<DmMessageView>, nat>(Seq::empty()));
        assert(message_views(messages@) + Seq::<DmMessageView>::empty() =~= message_views(messages@));
    }
    Ok(messages)
}

/// The length that a frame's header gives is the length of its bytes, and its
/// bytes after the header spell the message again.
pub proof fn lemma_message_encoding(message: DmMessageView, tail: Seq<u8>)
    requires
        message.msg_type.canonical(),
    ensures
        message.metadata().len() == 11,
        message.encoded().len() == 15 + message.payload.len(),
        SipcRawHeader::decoded(message.encoded() + tail) == message.header,
        message_of(
            message.header,
            (message.encoded() + tail).subrange(4, 15 + message.payload.len() as int),
        ) == message,
        le_value((message.encoded() + tail).subrange(2, 4)) == message.header.len,
{
    let all = message.encoded() + tail;
    let body = all.subrange(4, 15 + message.payload.len() as int);
    message.header.law_encode_decode(all, message.metadata() + message.payload + tail);
    assert(message.header.encoded() + (message.metadata() + message.payload + tail) =~= all);
    lemma_le_bytes_len(message.category as nat, 2);
    lemma_le_bytes_len(message.timestamp as nat, 8);
    assert(le_range(2) == 0x1_0000 && le_range(8) == 0x1_0000_0000_0000_0000) by {
        reveal_with_fuel(le_range, 9);
    }
    law_value_of_bytes(message.category as nat, 2);
    law_value_of_bytes(message.timestamp as nat, 8);
    assert(body =~= message.metadata() + message.payload);
    assert(body.subrange(1, 3) =~= le_bytes(message.category as nat, 2));
    assert(body.subrange(3, 11) =~= le_bytes(message.timestamp as nat, 8));
    assert(body.skip(11) =~= message.payload);
    lemma_le_bytes_len(message.header.len as nat, 2);
    law_value_of_bytes(message.header.len as nat, 2);
    assert(all.subrange(2, 4) =~= le_bytes(message.header.len as nat, 2));
}

/// Frames written one after the other are read back as they were: a buffer
/// made of the bytes of `messages` parses into `messages`. A tail too short to
/// be a frame changes nothing.
pub proof fn law_frames_read_back(messages: Seq<DmMessageView>, tail: Seq<u8>)
    requires
        forall|i: int| 0 <= i < messages.len() ==> (#[trigger] messages[i]).framed(),
        tail.len() < 4,
    ensures
        frames(encoded_messages(messages) + tail) == Ok::<Seq<DmMessageView>, nat>(messages),
    decreases messages.len(),
{
    let data = encoded_messages(messages) + tail;
    if messages.len() == 0 {
        assert(frames(data)->Ok_0 =~= messages);
    } else {
        let rest = messages.drop_first();
        let after = encoded_messages(rest) + tail;
        assert forall|i: int| 0 <= i < rest.len() implies (#[trigger] rest[i]).framed() by {
            assert(rest[i] == messages[i + 1]);
        }
        law_frames_read_back(rest, tail);
        assert(messages[0].framed());
        lemma_message_encoding(messages[0], after);
        assert(messages[0].encoded() + after =~= data);
        assert(data.skip(frame_len(data) as int) =~= after);
        assert(seq![messages[0]] + rest =~= messages);
    }
}

/// Where each field of a message stands in its bytes, numbers low byte first.
pub proof fn law_message_layout(message: DmMessageView)
    ensures
        ({
            let bytes = message.encoded();
            &&& bytes.len() == 15 + message.payload.len()
            &&& bytes[0] == message.header.channel
            &&& bytes[1] == message.header.control
            &&& bytes[2] + 0x100 * bytes[3] == message.header.len
            &&& message.msg_type is Log ==> bytes[4] == 0x10
            &&& message.msg_type is Response ==> bytes[4] == 0x11
            &&& message.msg_type is Event ==> bytes[4] == 0x12
            &&& message.msg_type is Debug ==> bytes[4] == 0x13
            &&& message.msg_type matches DmMessageType::Unknown(v) ==> bytes[4] == v
            &&& bytes[5] + 0x100 * bytes[6] == message.category
            &&& bytes[7] + 0x100 * bytes[8] + 0x1_0000 * bytes[9] + 0x100_0000 * bytes[10]
                + 0x1_0000_0000 * bytes[11] + 0x100_0000_0000 * bytes[12] + 0x1_0000_0000_0000
                * bytes[13] + 0x100_0000_0000_0000 * bytes[14] == message.timestamp
            &&& bytes.skip(15) == message.payload
        }),
{
    let bytes = message.encoded();
    law_place_values(Seq::empty(), message.header.len as u64);
    law_place_values(Seq::empty(), message.category as u64);
    law_place_values(Seq::empty(), message.timestamp);
    assert(bytes.skip(15) =~= message.payload);
}

/// What a buffer parses into, byte by byte. Fewer than four bytes hold nothing.
/// Otherwise the first two bytes are the channel and the control byte, and the
/// next two the length of the data that follow. With all the data there, the
/// first message is made of them, and the others are those of the rest of the
/// buffer; otherwise the buffer is refused.
pub proof fn law_frame_by_frame(data: Seq<u8>)
    ensures
        data.len() < 4 ==> frames(data) is Ok && frames(data)->Ok_0.len() == 0,
        data.len() >= 4 ==> ({
            let end = 4 + data[2] + 0x100 * data[3];
            let rest = frames(data.skip(end));
            &&& end > data.len() ==> frames(data) is Err && frames(data)->Err_0 == end
            &&& end <= data.len() && rest is Err ==> frames(data) is Err && frames(data)->Err_0
                == end + rest->Err_0
            &&& end <= data.len() && rest is Ok ==> {
                &&& frames(data) is Ok
                &&& frames(data)->Ok_0.len() == 1 + rest->Ok_0.len()
                &&& frames(data)->Ok_0.drop_first() == rest->Ok_0
                &&& ({
                    let first = frames(data)->Ok_0[0];
                    &&& first.header.channel == data[0]
                    &&& first.header.control == data[1]
                    &&& first.header.len == data[2] + 0x100 * data[3]
                    &&& end >= 15 ==> {
                        &&& data[4] == 0x10 ==> first.msg_type is Log
                        &&& data[4] == 0x11 ==> first.msg_type is Response
                        &&& data[4] == 0x12 ==> first.msg_type is Event
                        &&& data[4] == 0x13 ==> first.msg_type is Debug
                        &&& data[4] < 0x10 || data[4] > 0x13 ==> first.msg_type
                            == DmMessageType::Unknown(data[4])
                        &&& first.category == data[5] + 0x100 * data[6]
                        &&& first.timestamp == data[7] + 0x100 * data[8] + 0x1_0000 * data[9]
                            + 0x100_0000 * data[10] + 0x1_0000_0000 * data[11] + 0x100_0000_0000
                            * data[12] + 0x1_0000_0000_0000 * data[13] + 0x100_0000_0000_0000
                            * data[14]
                        &&& first.payload == data.subrange(15, end)
                    }
                    &&& end < 15 ==> {
                        &&& first.msg_type == DmMessageType::Unknown(0)
                        &&& first.category == 0
                        &&& first.timestamp == 0
                        &&& first.payload == data.subrange(4, end)
                    }
                })
            }
        }),
{
    if data.len() >= 4 {
        law_place_values(data.subrange(2, 4), 0);
        let end = 4 + data[2] + 0x100 * data[3];
        assert(end == frame_len(data));
        if end <= data.len() {
            let body = data.subrange(4, end);
            if frames(data.skip(end)) is Ok {
                assert(frames(data)->Ok_0.drop_first() =~= frames(data.skip(end))->Ok_0);
            }
            if end >= 15 {
                law_place_values(body.subrange(1, 3), 0);
                law_place_values(body.subrange(3, 11), 0);
                assert(body.skip(11) =~= data.subrange(15, end));
            }
        }
    }
}

/// Where the frame of a number begins in `data`.
pub open spec fn frame_start(data: Seq<u8>, number: nat) -> nat
    decreases number,
{
    if number == 0 {
        0
    } else {
        let end = frame_len(data);
        end + frame_start(data.skip(end as int), (number - 1) as nat)
    }
}

/// A frame with room for metadata, written again, gives its bytes.
proof fn lemma_frame_written_again(data: Seq<u8>)
    requires
        4 <= data.len(),
        frame_len(data) <= data.len(),
        SipcRawHeader::decoded(data).len >= 11,
    ensures
        ({
            let end = frame_len(data) as int;
            let first = message_of(SipcRawHeader::decoded(data), data.subrange(4, end));
            &&& end == 4 + first.header.len
            &&& first.framed()
            &&& first.encoded() == data.take(end)
        }),
{
    let end = frame_len(data) as int;
    let header = SipcRawHeader::decoded(data);
    let body = data.subrange(4, end);
    let first = message_of(header, body);
    lemma_le_value_2(data.subrange(2, 4));
    header.law_encode_decode(data, Seq::empty());
    assert(header.encoded() =~= data.take(4));
    let category = body.subrange(1, 3);
    let timestamp = body.subrange(3, 11);
    law_bytes_of_value(category);
    law_bytes_of_value(timestamp);
    lemma_le_value_2(category);
    lemma_le_value_8_bound(timestamp);
    assert(first.metadata() =~= body.take(11));
    assert(body.take(11) + body.skip(11) =~= body);
    assert(first.encoded() =~= data.take(end));
}

/// Writing undoes parsing: the bytes of a message whose frame had room for
/// metadata are the bytes that it was parsed from, whatever the other frames of
/// the buffer are.
pub proof fn law_writing_undoes_parsing(data: Seq<u8>, number: nat)
    requires
        frames(data) is Ok,
        number < frames(data)->Ok_0.len(),
        frames(data)->Ok_0[number as int].header.len >= 11,
    ensures
        ({
            let message = frames(data)->Ok_0[number as int];
            let start = frame_start(data, number) as int;
            let end = start + 4 + message.header.len;
            &&& end <= data.len()
            &&& message.encoded() == data.subrange(start, end)
            &&& end - start == 15 + message.payload.len()
            &&& message.framed()
        }),
    decreases number,
{
    let end = frame_len(data) as int;
    if number == 0 {
        lemma_frame_written_again(data);
        assert(data.take(end) =~= data.subrange(0, end));
    } else {
        let rest = data.skip(end);
        let message = frames(data)->Ok_0[number as int];
        assert(message == frames(rest)->Ok_0[number - 1]);
        law_writing_undoes_parsing(rest, (number - 1) as nat);
        let start = frame_start(rest, (number - 1) as nat) as int;
        let stop = start + 4 + message.header.len;
        assert(rest.subrange(start, stop) =~= data.subrange(end + start, end + stop));
    }
}

/// Reading frames loses nothing: where every frame of a buffer has room for
/// metadata, the messages read, written again one after the other, are the
/// buffer up to a tail too short to be a frame, and each of them is framed.
pub proof fn law_frames_lose_nothing(data: Seq<u8>)
    requires
        frames(data) is Ok,
        forall|i: int|
            0 <= i < frames(data)->Ok_0.len() ==> (#[trigger] frames(data)->Ok_0[i]).header.len
                >= 11,
    ensures
        forall|i: int|
            0 <= i < frames(data)->Ok_0.len() ==> (#[trigger] frames(data)->Ok_0[i]).framed(),
        encoded_messages(frames(data)->Ok_0).is_prefix_of(data),
        data.len() - encoded_messages(frames(data)->Ok_0).len() < 4,
    decreases data.len(),
{
    let messages = frames(data)->Ok_0;
    if data.len() >= 4 {
        let end = frame_len(data) as int;
        let header = SipcRawHeader::decoded(data);
        let body = data.subrange(4, end);
        let first = message_of(header, body);
        let after = data.skip(end);
        let rest = frames(after)->Ok_0;
        assert(messages =~= seq![first] + rest);
        assert(messages[0] == first);
        assert(messages.drop_first() =~= rest);
        assert forall|i: int| 0 <= i < rest.len() implies (#[trigger] rest[i]).header.len
            >= 11 by {
            assert(rest[i] == messages[i + 1]);
        }
        law_frames_lose_nothing(after);
        lemma_frame_written_again(data);
        assert forall|i: int| 0 <= i < messages.len() implies (#[trigger] messages[i]).framed() by {
            if i > 0 {
                assert(messages[i] == rest[i - 1]);
            }
        }
        let whole = encoded_messages(messages);
        assert(whole == first.encoded() + encoded_messages(rest));
        assert(whole =~= data.take(whole.len() as int));
    } else {
        assert(messages =~= Seq::<DmMessageView>::empty());
        assert(encoded_messages(messages) =~= data.take(0));
    }
}

/// Split the data of one frame into metadata and payload.
fn parse_body(header: SipcRawHeader, body: &[u8]) -> (message: DmMessage)
    ensures
        message@ == message_of(header, body@),
{
    if body.len() >= DM_METADATA_SIZE {
        DmMessage {
            header,
            msg_type: DmMessageType::from_id(body[0]),
            category: u16_at(body, 1),
            timestamp: u64_at(body, 3),
            payload: slice_to_vec(slice_subrange(body, DM_METADATA_SIZE, body.len())),
        }
    } else {
        DmMessage {
            header,
            msg_type: DmMessageType::Unknown(0),
            category: 0,
            timestamp: 0,
            payload: slice_to_vec(body),
        }
    }
}

} // verus!
