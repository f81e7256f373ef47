use vstd::prelude::*;
use crate::prdt::PrdEntry;

verus! {

/// One access to the machine, with the value moved.
#[derive(Copy, Clone, Debug, PartialEq, Eq, Structural)]
pub enum PortOp {
    In8(u16, u8),
    Out8(u16, u8),
    In16(u16, u16),
    Out16(u16, u16),
    In32(u16, u32),
    Out32(u16, u32),
    /// A descriptor table was asked for; the address given, if any.
    AllocTable(Option<u32>),
    /// Entry `index` of the table at the given address was stored.
    StorePrd(u32, u16, PrdEntry),
}

/// Access to the machine: I/O ports and the memory that holds descriptor
/// tables. Every access is recorded, in order, in `trace`; what a read
/// returns is left open, so the driver is checked for every value. The
/// driver's contracts are proved for implementations that keep this record
/// (such as `RecordingPorts`). An implementation that drives real hardware
/// and records nothing keeps the empty default and does not meet the
/// methods' contracts; the driver's behaviour on it is still the one proved,
/// since every step it takes depends only on the values read.
pub trait PortIo {
    /// The accesses made so far.
    open spec fn trace(&self) -> Seq<PortOp> {
        Seq::empty()
    }

    /// Reads a byte from `port`.
    fn inb(&mut self, port: u16) -> (r: u8)
        ensures
            final(self).trace() == old(self).trace().push(PortOp::In8(port, r)),
    ;

    /// Writes a byte to `port`.
    fn outb(&mut self, port: u16, value: u8)
        ensures
            final(self).trace() == old(self).trace().push(PortOp::Out8(port, value)),
    ;

    /// Reads a 16-bit word from `port`.
    fn inw(&mut self, port: u16) -> (r: u16)
        ensures
            final(self).trace() == old(self).trace().push(PortOp::In16(port, r)),
    ;

    /// Writes a 16-bit word to `port`.
    fn outw(&mut self, port: u16, value: u16)
        ensures
            final(self).trace() == old(self).trace().push(PortOp::Out16(port, value)),
    ;

    /// Reads a 32-bit word from `port`.
    fn inl(&mut self, port: u16) -> (r: u32)
        ensures
            final(self).trace() == old(self).trace().push(PortOp::In32(port, r)),
    ;

    /// Writes a 32-bit word to `port`.
    fn outl(&mut self, port: u16, value: u32)
        ensures
            final(self).trace() == old(self).trace().push(PortOp::Out32(port, value)),
    ;

    /// Allocates a 64 KiB aligned block for a descriptor table and returns
    /// its physical address.
    fn alloc_prd_table(&mut self) -> (r: Option<u32>)
        ensures
            final(self).trace() == old(self).trace().push(PortOp::AllocTable(r)),
    ;

    /// Stores entry `index` of the descriptor table at physical address `table`.
    fn store_prd(&mut self, table: u32, index: u16, entry: PrdEntry)
        ensures
            final(self).trace() == old(self).trace().push(PortOp::StorePrd(table, index, entry)),
    ;
}

/// A machine that answers from fixed values and records every access: for
/// running the driver without hardware.
pub struct RecordingPorts {
    /// Returned by every byte read.
    pub byte: u8,
    /// Returned by every word and dword read.
    pub word: u16,
    /// Address handed out for a descriptor table.
    pub table: Option<u32>,
    /// Every access so far.
    pub log: Vec<PortOp>,
}

impl RecordingPorts {
    pub fn new(byte: u8, word: u16, table: Option<u32>) -> (r: Self)
        ensures
            r.trace().len() == 0,
    {
        RecordingPorts { byte, word, table, log: Vec::new() }
    }

    /// The accesses made so far.
    pub fn log(&self) -> (r: &Vec<PortOp>)
        ensures
            r@ == self.trace(),
    {
        &self.log
    }
}

impl PortIo for RecordingPorts {
    open spec fn trace(&self) -> Seq<PortOp> {
        self.log@
    }

    fn inb(&mut self, port: u16) -> (r: u8) {
        let r = self.byte;
        self.log.push(PortOp::In8(port, r));
        r
    }

    fn outb(&mut self, port: u16, value: u8) {
        self.log.push(PortOp::Out8(port, value));
    }

    fn inw(&mut self, port: u16) -> (r: u16) {
        let r = self.word;
        self.log.push(PortOp::In16(port, r));
        r
    }

    fn outw(&mut self, port: u16, value: u16) {
        self.log.push(PortOp::Out16(port, value));
    }

    fn inl(&mut self, port: u16) -> (r: u32) {
        let r = self.word as u32;
        self.log.push(PortOp::In32(port, r));
        r
    }

    fn outl(&mut self, port: u16, value: u32) {
        self.log.push(PortOp::Out32(port, value));
    }

    fn alloc_prd_table(&mut self) -> (r: Option<u32>) {
        let r = self.table;
        self.log.push(PortOp::AllocTable(r));
        r
    }

    fn store_prd(&mut self, table: u32, index: u16, entry: PrdEntry) {
        self.log.push(PortOp::StorePrd(table, index, entry));
    }
}

} // verus!
