//! Support for Samsung Shannon modems: the diagnostic wire formats, the log
//! files that hold them, and the decisions behind talking to a device.

use vstd::prelude::*;

pub mod android;
pub mod digest;
pub mod gsmtap;
pub mod little_endian;
pub mod sdm_parser;
pub mod shannon;
pub mod shannon_device;
pub mod shannon_gsmtap_parser;
pub mod smdl;
pub mod text;

verus! {

/// Supported device types.
#[derive(PartialEq, Debug, Clone)]
pub enum Device {
    Orbic,
    Tplink,
    Tmobile,
    Wingtech,
    Pinephone,
    Uz801,
    /// Google Pixel devices with a Samsung Shannon modem.
    Pixel9,
}

/// Modem types used by devices.
#[derive(PartialEq, Debug, Clone, Copy)]
pub enum ModemType {
    /// Qualcomm modem with the DIAG protocol (`/dev/diag`).
    Qualcomm,
    /// Samsung Shannon modem with the SIPC protocol (`/dev/umts_dm0`).
    Shannon,
}

impl Device {
    /// The modem built into this device: only the Pixel carries a Shannon.
    pub open spec fn spec_modem_type(self) -> ModemType {
        if self is Pixel9 {
            ModemType::Shannon
        } else {
            ModemType::Qualcomm
        }
    }

    /// Get the modem type for this device.
    pub fn modem_type(&self) -> (modem: ModemType)
        ensures
            modem == self.spec_modem_type(),
    {
        match self {
            Device::Pixel9 => ModemType::Shannon,
            _ => ModemType::Qualcomm,
        }
    }

    /// Check if this device uses a Samsung Shannon modem.
    pub fn is_shannon(&self) -> (yes: bool)
        ensures
            yes == (self.spec_modem_type() is Shannon),
    {
        matches!(self.modem_type(), ModemType::Shannon)
    }

    /// Check if this device uses a Qualcomm modem.
    pub fn is_qualcomm(&self) -> (yes: bool)
        ensures
            yes == (self.spec_modem_type() is Qualcomm),
    {
        matches!(self.modem_type(), ModemType::Qualcomm)
    }

    /// Every device has exactly one kind of modem: it is a Shannon device or
    /// a Qualcomm device, and never both.
    pub proof fn law_one_modem_kind(self)
        ensures
            (self.spec_modem_type() is Shannon) != (self.spec_modem_type() is Qualcomm),
    {
    }

    /// The Pixel, and no other device, has a Shannon modem.
    pub proof fn law_only_the_pixel_is_shannon(self)
        ensures
            self is Pixel9 ==> self.spec_modem_type() is Shannon,
            self is Orbic || self is Tplink || self is Tmobile || self is Wingtech
                || self is Pinephone || self is Uz801 ==> self.spec_modem_type() is Qualcomm,
    {
    }
}

} // verus!
