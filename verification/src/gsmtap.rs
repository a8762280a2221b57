//! GSMTAP messages, as the analysis takes them.

use vstd::prelude::*;

verus! {

/// Channels of the GSM air interface.
#[derive(Debug, Clone, Copy, PartialEq, Eq, Structural)]
pub enum UmSubtype {
    Bcch,
    Sdcch,
}

/// Channels of LTE RRC.
#[derive(Debug, Clone, Copy, PartialEq, Eq, Structural)]
pub enum LteRrcSubtype {
    BcchBch,
    BcchDlSch,
    MCCH,
    PCCH,
    DlCcch,
    DlDcch,
    UlCcch,
    UlDcch,
}

/// Forms of LTE NAS messages.
#[derive(Debug, Clone, Copy, PartialEq, Eq, Structural)]
pub enum LteNasSubtype {
    Plain,
}

/// What a GSMTAP message carries.
#[derive(Debug, Clone, Copy, PartialEq, Eq, Structural)]
pub enum GsmtapType {
    Um(UmSubtype),
    Abis,
    LteRrc(LteRrcSubtype),
    LteNas(LteNasSubtype),
}

/// The header of a GSMTAP message.
#[derive(Debug, Clone, Copy, PartialEq, Eq, Structural)]
pub struct GsmtapHeader {
    pub gsmtap_type: GsmtapType,
    pub arfcn: u16,
    pub uplink: bool,
    pub frame_number: u32,
    pub subslot: u8,
}

impl GsmtapHeader {
    /// A downlink header of the given type, with everything else zero.
    pub open spec fn of_type(gsmtap_type: GsmtapType) -> GsmtapHeader {
        GsmtapHeader { gsmtap_type, arfcn: 0, uplink: false, frame_number: 0, subslot: 0 }
    }

    /// A downlink header of the given type, with everything else zero.
    pub fn new(gsmtap_type: GsmtapType) -> (header: Self)
        ensures
            header == GsmtapHeader::of_type(gsmtap_type),
    {
        GsmtapHeader { gsmtap_type, arfcn: 0, uplink: false, frame_number: 0, subslot: 0 }
    }
}

/// A GSMTAP message.
#[derive(Debug, Clone)]
pub struct GsmtapMessage {
    pub header: GsmtapHeader,
    pub payload: Vec<u8>,
}

/// What a [`GsmtapMessage`] holds, as a mathematical value.
#[verifier::ext_equal]
pub struct GsmtapMessageView {
    pub header: GsmtapHeader,
    pub payload: Seq<u8>,
}

impl View for GsmtapMessage {
    type V = GsmtapMessageView;

    open spec fn view(&self) -> GsmtapMessageView {
        GsmtapMessageView { header: self.header, payload: self.payload@ }
    }
}

} // verus!
