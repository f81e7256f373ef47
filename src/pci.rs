use vstd::prelude::*;
use crate::ports::{PortIo, PortOp};

verus! {

/// Port that selects a configuration register.
pub const PCI_CONFIG_ADDRESS: u16 = 0xCF8;
/// Port that moves the selected configuration register.
pub const PCI_CONFIG_DATA: u16 = 0xCFC;
/// Enable bit of a configuration address.
pub const PCI_CONFIG_ADDRESS_ENABLE: u32 = 0x8000_0000;

/// The configuration space of one PCI function.
#[derive(Copy, Clone, Debug, PartialEq, Eq, Structural)]
pub struct PciConfig {
    pub bus: u8,
    pub slot: u8,
    pub func: u8,
}

/// Configuration address of register `offset` (rounded down to a dword) of
/// function `func` in slot `slot` on bus `bus`.
pub open spec fn spec_config_address(bus: u8, slot: u8, func: u8, offset: u8) -> u32 {
    PCI_CONFIG_ADDRESS_ENABLE | (bus as u32) << 16u32 | (slot as u32) << 11u32 | (func as u32) << 8u32
        | (offset as u32 & 0xFC)
}

/// `value` with the bits of `flag` set (`toggle`) or cleared.
pub open spec fn spec_flagged(value: u32, flag: u32, toggle: bool) -> u32 {
    if toggle { value | flag } else { value & !flag }
}

/// Accesses of setting or clearing `flag` in the dword at `offset` of `c`
/// when it read `v`: select, read, select, write back.
pub open spec fn flag_ops(c: PciConfig, offset: u8, v: u32, flag: u32, toggle: bool) -> Seq<PortOp> {
    let a = spec_config_address(c.bus, c.slot, c.func, offset);
    seq![
        PortOp::Out32(PCI_CONFIG_ADDRESS, a),
        PortOp::In32(PCI_CONFIG_DATA, v),
        PortOp::Out32(PCI_CONFIG_ADDRESS, a),
        PortOp::Out32(PCI_CONFIG_DATA, spec_flagged(v, flag, toggle)),
    ]
}

impl PciConfig {
    pub fn new(bus: u8, slot: u8, func: u8) -> (r: Self)
        ensures
            r.bus == bus && r.slot == slot && r.func == func,
    {
        PciConfig { bus, slot, func }
    }

    /// Configuration address of register `offset`.
    pub fn address(&self, offset: u8) -> (r: u32)
        ensures
            r == spec_config_address(self.bus, self.slot, self.func, offset),
    {
        PCI_CONFIG_ADDRESS_ENABLE | (self.bus as u32) << 16u32 | (self.slot as u32) << 11u32
            | (self.func as u32) << 8u32 | (offset as u32 & 0xFC)
    }

    fn set_address<P: PortIo>(&self, io: &mut P, offset: u8)
        ensures
            final(io).trace() == old(io).trace().push(
                PortOp::Out32(PCI_CONFIG_ADDRESS, spec_config_address(self.bus, self.slot, self.func, offset))),
    {
        io.outl(PCI_CONFIG_ADDRESS, self.address(offset));
    }

    /// Reads the configuration dword holding `offset`.
    pub fn read<P: PortIo>(&mut self, io: &mut P, offset: u8) -> (r: u32)
        ensures
            *final(self) == *old(self),
            final(io).trace() == old(io).trace() + seq![
                PortOp::Out32(PCI_CONFIG_ADDRESS, spec_config_address(old(self).bus, old(self).slot, old(self).func, offset)),
                PortOp::In32(PCI_CONFIG_DATA, r)],
    {
        let ghost t0 = io.trace();
        self.set_address(io, offset);
        let r = io.inl(PCI_CONFIG_DATA);
        assert(io.trace() =~= t0 + seq![
            PortOp::Out32(PCI_CONFIG_ADDRESS, spec_config_address(self.bus, self.slot, self.func, offset)),
            PortOp::In32(PCI_CONFIG_DATA, r)]);
        r
    }

    /// Writes the configuration dword holding `offset`.
    pub fn write<P: PortIo>(&mut self, io: &mut P, offset: u8, value: u32)
        ensures
            *final(self) == *old(self),
            final(io).trace() == old(io).trace() + seq![
                PortOp::Out32(PCI_CONFIG_ADDRESS, spec_config_address(old(self).bus, old(self).slot, old(self).func, offset)),
                PortOp::Out32(PCI_CONFIG_DATA, value)],
    {
        let ghost t0 = io.trace();
        self.set_address(io, offset);
        io.outl(PCI_CONFIG_DATA, value);
        assert(io.trace() =~= t0 + seq![
            PortOp::Out32(PCI_CONFIG_ADDRESS, spec_config_address(self.bus, self.slot, self.func, offset)),
            PortOp::Out32(PCI_CONFIG_DATA, value)]);
    }

    /// `value` with `flag` set or cleared.
    pub fn flagged(value: u32, flag: u32, toggle: bool) -> (r: u32)
        ensures
            r == spec_flagged(value, flag, toggle),
    {
        if toggle { value | flag } else { value & !flag }
    }

    /// Sets (`toggle`) or clears the bits of `flag` in the dword at `offset`.
    pub fn flag<P: PortIo>(&mut self, io: &mut P, offset: u8, flag: u32, toggle: bool)
        ensures
            *final(self) == *old(self),
            exists|v: u32| final(io).trace() == old(io).trace() + #[trigger] flag_ops(*old(self), offset, v, flag, toggle),
    {
        let ghost t0 = io.trace();
        let value = self.read(io, offset);
        self.write(io, offset, PciConfig::flagged(value, flag, toggle));
        assert(io.trace() =~= t0 + flag_ops(*self, offset, value, flag, toggle));
    }
}

// Registers of the configuration header.
pub const PCI_CFG_VENDOR_ID: u8 = 0x00;
pub const PCI_CFG_DEVICE_ID: u8 = 0x02;
pub const PCI_CFG_COMMAND: u8 = 0x04;
pub const PCI_CFG_STATUS: u8 = 0x06;
pub const PCI_CFG_REVISION_ID: u8 = 0x08;
pub const PCI_CFG_PROG_INTERFACE: u8 = 0x09;
pub const PCI_CFG_SUBCLASS: u8 = 0x0A;
pub const PCI_CFG_BASECLASS: u8 = 0x0B;
pub const PCI_CFG_SUBSYSTEM_VENDOR_ID: u8 = 0x2C;
pub const PCI_CFG_SUBSYSTEM_ID: u8 = 0x2E;

// Bits of the command register.
pub const IO_SPACE_ENABLE: u16 = 0x0001;
pub const MEMORY_SPACE_ENABLE: u16 = 0x0002;
pub const INTX_DISABLE: u16 = 0x0400;

/// A PCI function and the identification read from its header.
#[derive(Debug, Default)]
pub struct Function {
    bus: u8,
    slot: u8,
    func: u8,
    vendor: u16,
    device: u16,
    revision: u8,
    class: u8,
    subclass: u8,
    progif: u8,
    bar: [usize; 6],
    subvendor: u16,
    subsystem: u16,
}

impl Function {
    pub closed spec fn spec_location(&self) -> (u8, u8, u8) {
        (self.bus, self.slot, self.func)
    }

    /// Vendor, device, subsystem vendor and subsystem numbers.
    pub closed spec fn spec_ids(&self) -> (u16, u16, u16, u16) {
        (self.vendor, self.device, self.subvendor, self.subsystem)
    }

    /// Revision, class, subclass and programming interface.
    pub closed spec fn spec_class(&self) -> (u8, u8, u8, u8) {
        (self.revision, self.class, self.subclass, self.progif)
    }

    /// Reads the header of function `func` in slot `slot` on bus `bus` and
    /// enables its I/O and memory decoding.
    pub fn new<P: PortIo>(io: &mut P, bus: u8, slot: u8, func: u8) -> (r: Self)
        ensures
            r.spec_location() == (bus, slot, func),
    {
        let mut dev = Function {
            bus,
            slot,
            func,
            vendor: 0xFFFF,
            device: 0xFFFF,
            revision: 0,
            class: 0,
            subclass: 0,
            progif: 0,
            bar: [0, 0, 0, 0, 0, 0],
            subvendor: 0xFFFF,
            subsystem: 0xFFFF,
        };
        dev.parse_config(io);
        dev
    }

    fn config(&self) -> (r: PciConfig)
        ensures
            (r.bus, r.slot, r.func) == self.spec_location(),
    {
        PciConfig { bus: self.bus, slot: self.slot, func: self.func }
    }

    fn set_config_address<P: PortIo>(&self, io: &mut P, offset: u8) {
        io.outl(PCI_CONFIG_ADDRESS, self.config().address(offset));
    }

    fn config_get8<P: PortIo>(&self, io: &mut P, offset: u8) -> u8 {
        self.set_config_address(io, offset);
        io.inb(PCI_CONFIG_DATA + (offset & 3) as u16)
    }

    fn config_get16<P: PortIo>(&self, io: &mut P, offset: u8) -> u16 {
        self.set_config_address(io, offset);
        io.inw(PCI_CONFIG_DATA + (offset & 2) as u16)
    }

    fn config_get32<P: PortIo>(&self, io: &mut P, offset: u8) -> u32 {
        self.set_config_address(io, offset);
        io.inl(PCI_CONFIG_DATA)
    }

    fn config_put8<P: PortIo>(&self, io: &mut P, offset: u8, value: u8) {
        self.set_config_address(io, offset);
        io.outb(PCI_CONFIG_DATA + (offset & 3) as u16, value);
    }

    fn config_put16<P: PortIo>(&self, io: &mut P, offset: u8, value: u16) {
        self.set_config_address(io, offset);
        io.outw(PCI_CONFIG_DATA + (offset & 2) as u16, value);
    }

    fn config_put32<P: PortIo>(&self, io: &mut P, offset: u8, value: u32) {
        self.set_config_address(io, offset);
        io.outl(PCI_CONFIG_DATA, value);
    }

    fn parse_config<P: PortIo>(&mut self, io: &mut P)
        ensures
            final(self).spec_location() == old(self).spec_location(),
    {
        self.vendor = self.config_get16(io, PCI_CFG_VENDOR_ID);
        self.device = self.config_get16(io, PCI_CFG_DEVICE_ID);
        self.revision = self.config_get8(io, PCI_CFG_REVISION_ID);
        self.progif = self.config_get8(io, PCI_CFG_PROG_INTERFACE);
        self.subclass = self.config_get8(io, PCI_CFG_SUBCLASS);
        self.class = self.config_get8(io, PCI_CFG_BASECLASS);
        self.subvendor = self.config_get16(io, PCI_CFG_SUBSYSTEM_VENDOR_ID);
        self.subsystem = self.config_get16(io, PCI_CFG_SUBSYSTEM_ID);
        self.set_command(io, IO_SPACE_ENABLE | MEMORY_SPACE_ENABLE);
    }

    pub fn get_vendor(&self) -> (r: u16)
        ensures
            r == self.spec_ids().0,
    {
        self.vendor
    }

    pub fn get_device(&self) -> (r: u16)
        ensures
            r == self.spec_ids().1,
    {
        self.device
    }

    pub fn get_subvendor(&self) -> (r: u16)
        ensures
            r == self.spec_ids().2,
    {
        self.subvendor
    }

    pub fn get_subsystem(&self) -> (r: u16)
        ensures
            r == self.spec_ids().3,
    {
        self.subsystem
    }

    pub fn get_revision(&self) -> (r: u8)
        ensures
            r == self.spec_class().0,
    {
        self.revision
    }

    pub fn get_class(&self) -> (r: u8)
        ensures
            r == self.spec_class().1,
    {
        self.class
    }

    pub fn get_subclass(&self) -> (r: u8)
        ensures
            r == self.spec_class().2,
    {
        self.subclass
    }

    pub fn get_progif(&self) -> (r: u8)
        ensures
            r == self.spec_class().3,
    {
        self.progif
    }

    /// Reads the status register.
    pub fn get_status<P: PortIo>(&self, io: &mut P) -> u16 {
        self.config_get16(io, PCI_CFG_STATUS)
    }

    /// Sets the bits of `value` in the command register.
    pub fn set_command<P: PortIo>(&self, io: &mut P, value: u16) {
        let cmd = self.config_get16(io, PCI_CFG_COMMAND);
        self.config_put16(io, PCI_CFG_COMMAND, cmd | value);
    }

    /// Clears the bits of `value` in the command register.
    pub fn clear_command<P: PortIo>(&self, io: &mut P, value: u16) {
        let cmd = self.config_get16(io, PCI_CFG_COMMAND);
        self.config_put16(io, PCI_CFG_COMMAND, cmd & !value);
    }

    /// Lets the function raise legacy interrupts.
    pub fn enable_intx<P: PortIo>(&self, io: &mut P) {
        self.clear_command(io, INTX_DISABLE);
    }

    /// Stops the function from raising legacy interrupts.
    pub fn disable_intx<P: PortIo>(&self, io: &mut P) {
        self.set_command(io, INTX_DISABLE);
    }
}

/// Reads the function at the given location.
#[allow(non_snake_case)]
pub fn Device<P: PortIo>(io: &mut P, bus: u8, slot: u8, func: u8) -> (r: Function)
    ensures
        r.spec_location() == (bus, slot, func),
{
    Function::new(io, bus, slot, func)
}

} // verus!
