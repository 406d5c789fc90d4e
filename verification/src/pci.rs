//! PCI configuration-space scanning: the address arithmetic, the word
//! extraction, and the decision which probed functions are devices.
//!
//! The two fixed configuration ports are hardware; the enumeration loop
//! reads raw words through them and hands the plain values in here, where
//! the address computation and the device classification are verified.

use vstd::prelude::*;

verus! {

/// One discovered PCI device: where it sits and what it reported.
#[derive(Debug, Clone, Copy, PartialEq, Eq, Structural)]
pub struct PCIDevice {
    pub bus: u8,
    pub device: u8,
    pub vendor_id: u16,
    pub device_id: u16,
    pub class_id: u8,
    pub subclass_id: u8,
}

/// Whether the legacy firmware interface for configuration access is
/// assumed present. The runtime probe for it is known to double fault, so
/// the answer is the static one.
pub fn detect_pci_compat_bios() -> (r: bool)
    ensures
        r,
{
    true
}

/// The configuration-space address word for one register of one function:
/// enable bit, bus, slot, function, and the register offset aligned down to
/// a word boundary.
pub fn pci_config_address(bus: u8, slot: u8, func: u8, offset: u8) -> (r: u32)
    ensures
        r == ((bus as u32) << 16) | ((slot as u32) << 11) | ((func as u32) << 8) | ((offset
            & 0xFC) as u32) | 0x8000_0000u32,
{
    let long_bus: u32 = bus as u32;
    let long_slot: u32 = slot as u32;
    let long_func: u32 = func as u32;
    (long_bus << 16) | (long_slot << 11) | (long_func << 8) | ((offset & 0xFC) as u32)
        | 0x8000_0000
}

/// The 16-bit register picked out of the 32-bit word the data port
/// returned: the low or high half, by bit 1 of the offset.
pub fn extract_config_word(inl: u32, offset: u8) -> (r: u16)
    ensures
        r == ((inl >> (((offset & 2) as u32) * 8)) & 0xFFFF) as u16,
{
    proof {
        assert(offset & 2 <= 2) by (bit_vector);
    }
    let shift: u32 = ((offset & 2) as u32) * 8;
    let masked: u32 = (inl >> shift) & 0xFFFF;
    proof {
        assert((inl >> shift) & 0xFFFF < 0x10000) by (bit_vector);
    }
    masked as u16
}

/// The class byte of the class/subclass register: its low transmit byte.
pub fn pci_class_of_word(w: u16) -> (r: u8)
    ensures
        r == (w & 0xFF) as u8,
{
    proof {
        assert(w & 0xFF < 0x100) by (bit_vector);
    }
    (w & 0xFF) as u8
}

/// The subclass byte of the class/subclass register: its high transmit
/// byte.
pub fn pci_subclass_of_word(w: u16) -> (r: u8)
    ensures
        r == (w >> 8) as u8,
{
    proof {
        assert(w >> 8 < 0x100) by (bit_vector);
    }
    (w >> 8) as u8
}

/// The raw configuration words probed for one bus/device slot: the vendor
/// register, the device register, and the class/subclass register.
#[derive(Debug, Clone, Copy, PartialEq, Eq, Structural)]
pub struct PciProbe {
    pub bus: u8,
    pub device: u8,
    pub vendor_word: u16,
    pub device_word: u16,
    pub class_word: u16,
}

/// The device a probe describes, if the slot is populated: an all-ones
/// vendor register means no device answered.
pub open spec fn spec_check_device(p: PciProbe) -> Option<PCIDevice> {
    if p.vendor_word == 0xFFFF {
        None
    } else {
        Some(
            PCIDevice {
                bus: p.bus,
                device: p.device,
                vendor_id: p.vendor_word,
                device_id: p.device_word,
                class_id: (p.class_word & 0xFF) as u8,
                subclass_id: (p.class_word >> 8) as u8,
            },
        )
    }
}

/// Decide whether a probed slot holds a device, and if so describe it.
pub fn check_device(probe: PciProbe) -> (r: Option<PCIDevice>)
    ensures
        r == spec_check_device(probe),
{
    if probe.vendor_word == 0xFFFF {
        return None;
    }
    let class_id = pci_class_of_word(probe.class_word);
    let subclass_id = pci_subclass_of_word(probe.class_word);
    Some(
        PCIDevice {
            bus: probe.bus,
            device: probe.device,
            vendor_id: probe.vendor_word,
            device_id: probe.device_word,
            class_id,
            subclass_id,
        },
    )
}

/// The devices described by a whole sequence of probes, in probe order.
pub open spec fn spec_devices_of(probes: Seq<PciProbe>) -> Seq<PCIDevice>
    decreases probes.len(),
{
    if probes.len() == 0 {
        Seq::empty()
    } else {
        (match spec_check_device(probes[0]) {
            Some(d) => seq![d],
            None => Seq::empty(),
        }) + spec_devices_of(probes.drop_first())
    }
}

/// Classify every probed slot of the enumeration: exactly the populated
/// slots come back, as devices, in the order they were probed.
pub fn check_all_pci_devices(probes: &Vec<PciProbe>) -> (r: Box<Vec<PCIDevice>>)
    ensures
        r@ == spec_devices_of(probes@),
{
    let mut devices: Vec<PCIDevice> = Vec::new();
    let mut i: usize = 0;
    proof {
        assert(probes@.skip(0) =~= probes@);
    }
    while i < probes.len()
        invariant
            i <= probes@.len(),
            spec_devices_of(probes@) == devices@ + spec_devices_of(probes@.skip(i as int)),
        decreases probes@.len() - i,
    {
        let ghost rest = probes@.skip(i as int);
        proof {
            assert(rest[0] == probes@[i as int]);
            assert(rest.drop_first() =~= probes@.skip(i as int + 1));
        }
        let ghost dev_before = devices@;
        match check_device(*probes.get(i).unwrap()) {
            Some(d) => {
                devices.push(d);
                proof {
                    assert(dev_before + (seq![d] + spec_devices_of(probes@.skip(i as int + 1)))
                        =~= devices@ + spec_devices_of(probes@.skip(i as int + 1)));
                }
            },
            None => {},
        }
        i = i + 1;
    }
    proof {
        assert(spec_devices_of(probes@.skip(probes@.len() as int)) =~= Seq::<PCIDevice>::empty());
        assert(devices@ + Seq::<PCIDevice>::empty() =~= devices@);
    }
    Box::new(devices)
}

} // verus!
