//! Configuration-space arithmetic for PCI probing: the address word written
//! to the configuration port, the extraction of the requested word from what
//! the data port returns, and the per-function register record. The port
//! reads and writes themselves are the platform layer's.

use vstd::prelude::*;

verus! {

/// The configuration-space address word selecting `offset` of the given
/// bus, slot and function, with the enable bit set.
pub open spec fn config_address(bus: u8, slot: u8, function: u8, offset: u8) -> u32 {
    ((bus as u32) << 16u32) | ((slot as u32) << 11u32) | ((function as u32) << 8u32) | ((offset
        & 0xfcu8) as u32) | 0x8000_0000u32
}

/// Computes the configuration-space address word for the given bus, slot,
/// function and register offset.
pub fn pci_config_address(bus: u8, slot: u8, function: u8, offset: u8) -> (address: u32)
    ensures
        address == config_address(bus, slot, function, offset),
{
    let lbus = bus as u32;
    let lslot = slot as u32;
    let lfunction = function as u32;
    (lbus << 16u32) | (lslot << 11u32) | (lfunction << 8u32) | ((offset & 0xfc) as u32)
        | 0x8000_0000u32
}

/// The 16-bit word the requested offset selects from what the data port
/// returned: the whole value for a word-aligned offset; a misaligned offset
/// selects the bits above the 16-bit port, which are zero.
pub open spec fn selected_word(data: u16, offset: u8) -> u16 {
    (((data as u32) >> ((((offset & 2u8) as u32) * 8u32) as u32)) & 0xffffu32) as u16
}

/// Extracts the 16-bit word the requested offset selects from what the
/// data port returned.
pub fn pci_data_word(data: u16, offset: u8) -> (word: u16)
    ensures
        word == selected_word(data, offset),
{
    proof {
        assert((offset & 2u8) <= 2u8) by (bit_vector);
    }
    let shift: u32 = ((offset & 2) as u32) * 8;
    (((data as u32) >> shift) & 0xffff) as u16
}

/// One PCI function's configuration registers, as read from configuration
/// space; a fresh record holds zeroes until the platform layer fills it.
#[derive(Clone, Copy, PartialEq, Eq, Structural, Debug)]
pub struct FunctionInfo {
    pub device_id: u16,
    pub vendor_id: u16,
    pub status: u8,
    pub command: u8,
    pub revision_id: u8,
    pub prog_if: u8,
    pub subclass: u8,
    pub class: u8,
    pub cache_line_size: u8,
    pub latency_timer: u8,
    pub header_type: u8,
    pub bist: u8,
}

impl Default for FunctionInfo {
    /// A record with every register zero.
    fn default() -> (r: Self)
        ensures
            r == (FunctionInfo {
                device_id: 0,
                vendor_id: 0,
                status: 0,
                command: 0,
                revision_id: 0,
                prog_if: 0,
                subclass: 0,
                class: 0,
                cache_line_size: 0,
                latency_timer: 0,
                header_type: 0,
                bist: 0,
            }),
    {
        FunctionInfo {
            device_id: 0,
            vendor_id: 0,
            status: 0,
            command: 0,
            revision_id: 0,
            prog_if: 0,
            subclass: 0,
            class: 0,
            cache_line_size: 0,
            latency_timer: 0,
            header_type: 0,
            bist: 0,
        }
    }
}

impl FunctionInfo {
    /// A fresh record with every register zero.
    pub fn new() -> (r: Self)
        ensures
            r == FunctionInfo::default_spec(),
    {
        FunctionInfo::default()
    }

    /// The value `new` and `default` return.
    pub open spec fn default_spec() -> FunctionInfo {
        FunctionInfo {
            device_id: 0,
            vendor_id: 0,
            status: 0,
            command: 0,
            revision_id: 0,
            prog_if: 0,
            subclass: 0,
            class: 0,
            cache_line_size: 0,
            latency_timer: 0,
            header_type: 0,
            bist: 0,
        }
    }

    /// Refreshes the record from the device's registers. The configuration
    /// reads go through the platform layer's ports; without them there is
    /// nothing to read, and the record is left as it is.
    pub fn read_in_device(&mut self)
        ensures
            *final(self) == *old(self),
    {
    }
}

} // verus!
