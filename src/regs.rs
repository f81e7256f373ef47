use vstd::prelude::*;
use vstd::arithmetic::power2::pow2;

verus! {

// Bus-master registers, relative to the bus-master base port.
/// Bus-master command register offset.
pub const BM_COMMAND: u16 = 0;
/// Bus-master status register offset.
pub const BM_STATUS: u16 = 2;
/// Bus-master descriptor table address register offset.
pub const BM_PRDT: u16 = 4;

/// Bus-master command: transfer from disk to memory.
pub const CMD_DIR: u8 = 8;
/// Bus-master command: process the descriptor table.
pub const CMD_ACT: u8 = 1;
/// Bus-master status: interrupt raised.
pub const STS_INT: u8 = 4;
/// Bus-master status: DMA error.
pub const STS_ERR: u8 = 2;
/// Bus-master status: DMA active.
pub const STS_ACT: u8 = 1;

// Status register bits.
pub const ATA_SR_BSY: u8 = 0x80;
pub const ATA_SR_DRDY: u8 = 0x40;
pub const ATA_SR_DF: u8 = 0x20;
pub const ATA_SR_DRQ: u8 = 0x08;
pub const ATA_SR_ERR: u8 = 0x01;

// Commands.
pub const ATA_CMD_READ_PIO: u8 = 0x20;
pub const ATA_CMD_READ_PIO_EXT: u8 = 0x24;
pub const ATA_CMD_READ_DMA: u8 = 0xC8;
pub const ATA_CMD_READ_DMA_EXT: u8 = 0x25;
pub const ATA_CMD_WRITE_PIO: u8 = 0x30;
pub const ATA_CMD_WRITE_PIO_EXT: u8 = 0x34;
pub const ATA_CMD_WRITE_DMA: u8 = 0xCA;
pub const ATA_CMD_WRITE_DMA_EXT: u8 = 0x35;
pub const ATA_CMD_CACHE_FLUSH: u8 = 0xE7;
pub const ATA_CMD_CACHE_FLUSH_EXT: u8 = 0xEA;
pub const ATA_CMD_PACKET: u8 = 0xA0;
pub const ATA_CMD_IDENTIFY_PACKET: u8 = 0xA1;
pub const ATA_CMD_IDENTIFY: u8 = 0xEC;

// Logical register names.
pub const ATA_REG_DATA: u16 = 0x00;
pub const ATA_REG_ERROR: u16 = 0x01;
pub const ATA_REG_FEATURES: u16 = 0x01;
pub const ATA_REG_SECCOUNT0: u16 = 0x02;
pub const ATA_REG_LBA0: u16 = 0x03;
pub const ATA_REG_LBA1: u16 = 0x04;
pub const ATA_REG_LBA2: u16 = 0x05;
pub const ATA_REG_HDDEVSEL: u16 = 0x06;
pub const ATA_REG_COMMAND: u16 = 0x07;
pub const ATA_REG_STATUS: u16 = 0x07;
pub const ATA_REG_SECCOUNT1: u16 = 0x08;
pub const ATA_REG_LBA3: u16 = 0x09;
pub const ATA_REG_LBA4: u16 = 0x0A;
pub const ATA_REG_LBA5: u16 = 0x0B;
pub const ATA_REG_CONTROL: u16 = 0x0C;
pub const ATA_REG_ALTSTATUS: u16 = 0x0C;
pub const ATA_REG_DEVADDRESS: u16 = 0x0D;

/// Physical port of a logical register: the first eight sit at the command
/// block base, the high LBA48 ones alias offsets 2 to 5 of the command block,
/// CONTROL and DEVADDRESS sit at offsets 2 and 3 of the control block base.
pub open spec fn spec_reg_port(base: u16, ctrl: u16, reg: u16) -> Option<u16> {
    if reg < 0x08 {
        Some(((base + reg) % 0x10000) as u16)
    } else if reg < 0x0C {
        Some(((base + reg - 6) % 0x10000) as u16)
    } else if reg < 0x0E {
        Some(((ctrl + reg - 0x0A) % 0x10000) as u16)
    } else {
        None
    }
}

pub fn reg_port(base: u16, ctrl: u16, reg: u16) -> (r: Option<u16>)
    ensures
        r == spec_reg_port(base, ctrl, reg),
{
    if reg < 0x08 {
        Some(base.wrapping_add(reg))
    } else if reg < 0x0C {
        Some(base.wrapping_add(reg - 6))
    } else if reg < 0x0E {
        Some(ctrl.wrapping_add(reg - 0x0A))
    } else {
        None
    }
}

/// Fault reported by the device during a programmed transfer.
#[derive(Copy, Clone, Debug, PartialEq, Eq, Structural)]
pub enum IoError {
    /// DF set in the status register.
    DeviceFault,
    /// ERR set in the status register.
    DeviceError,
    /// DRQ clear: the device has no data to move.
    DataNotReady,
}

impl IoError {
    /// The numeric code of the fault: 1 fault, 2 error, 3 not ready.
    pub fn code(&self) -> (r: u8)
        ensures
            r == (match self {
                IoError::DeviceFault => 1u8,
                IoError::DeviceError => 2u8,
                IoError::DataNotReady => 3u8,
            }),
    {
        match self {
            IoError::DeviceFault => 1,
            IoError::DeviceError => 2,
            IoError::DataNotReady => 3,
        }
    }
}

/// Whether bit `bit` (a power of two) is set in `x`.
pub open spec fn has_bit(x: u8, bit: u8) -> bool {
    (x / bit) % 2 == 1
}

/// What a status byte read after BSY cleared says of the transfer; ERR wins
/// over DF, which wins over a missing DRQ.
pub open spec fn spec_classify(status: u8) -> Option<IoError> {
    if has_bit(status, ATA_SR_ERR) {
        Some(IoError::DeviceError)
    } else if has_bit(status, ATA_SR_DF) {
        Some(IoError::DeviceFault)
    } else if !has_bit(status, ATA_SR_DRQ) {
        Some(IoError::DataNotReady)
    } else {
        None
    }
}

pub fn classify_status(status: u8) -> (r: Option<IoError>)
    ensures
        r == spec_classify(status),
{
    assert((status & 0x01 != 0) == ((status / 0x01) % 2 == 1)) by (bit_vector);
    assert((status & 0x20 != 0) == ((status / 0x20) % 2 == 1)) by (bit_vector);
    assert((status & 0x08 != 0) == ((status / 0x08) % 2 == 1)) by (bit_vector);
    if status & ATA_SR_ERR != 0 {
        Some(IoError::DeviceError)
    } else if status & ATA_SR_DF != 0 {
        Some(IoError::DeviceFault)
    } else if status & ATA_SR_DRQ == 0 {
        Some(IoError::DataNotReady)
    } else {
        None
    }
}

/// True when the status byte shows the device busy.
pub open spec fn spec_busy(status: u8) -> bool {
    has_bit(status, ATA_SR_BSY)
}

pub fn is_busy(status: u8) -> (r: bool)
    ensures
        r == spec_busy(status),
{
    assert((status & 0x80 != 0) == ((status / 0x80) % 2 == 1)) by (bit_vector);
    status & ATA_SR_BSY != 0
}

/// Byte `k` (0 the lowest) of `x`.
pub open spec fn byte_of(x: u64, k: nat) -> u8 {
    ((x as nat / pow2(8 * k)) % 256) as u8
}

/// Register writes that address `count` sectors from `block` in 48-bit mode
/// and issue `command`, in the order the controller expects: drive select,
/// the high bytes, the low bytes, the command.
pub open spec fn spec_lba48_writes(devsel: u8, block: u64, count: u64, command: u8) -> Seq<(u16, u8)> {
    seq![
        (ATA_REG_HDDEVSEL, devsel),
        (ATA_REG_SECCOUNT1, byte_of(count, 1)),
        (ATA_REG_LBA3, byte_of(block, 3)),
        (ATA_REG_LBA4, byte_of(block, 4)),
        (ATA_REG_LBA5, byte_of(block, 5)),
        (ATA_REG_SECCOUNT0, byte_of(count, 0)),
        (ATA_REG_LBA0, byte_of(block, 0)),
        (ATA_REG_LBA1, byte_of(block, 1)),
        (ATA_REG_LBA2, byte_of(block, 2)),
        (ATA_REG_COMMAND, command),
    ]
}

fn byte_at(x: u64, k: u64) -> (r: u8)
    requires
        k < 8,
    ensures
        r == byte_of(x, k as nat),
{
    let s: u64 = 8 * k;
    let y: u64 = x >> s;
    let r = (y & 0xFF) as u8;
    proof {
        vstd::bits::lemma_u64_shr_is_div(x, s);
        assert(y & 0xFF == y % 256) by (bit_vector);
    }
    r
}

pub fn lba48_writes(devsel: u8, block: u64, count: u64, command: u8) -> (r: Vec<(u16, u8)>)
    ensures
        r@ == spec_lba48_writes(devsel, block, count, command),
{
    let v = vec![
        (ATA_REG_HDDEVSEL, devsel),
        (ATA_REG_SECCOUNT1, byte_at(count, 1)),
        (ATA_REG_LBA3, byte_at(block, 3)),
        (ATA_REG_LBA4, byte_at(block, 4)),
        (ATA_REG_LBA5, byte_at(block, 5)),
        (ATA_REG_SECCOUNT0, byte_at(count, 0)),
        (ATA_REG_LBA0, byte_at(block, 0)),
        (ATA_REG_LBA1, byte_at(block, 1)),
        (ATA_REG_LBA2, byte_at(block, 2)),
        (ATA_REG_COMMAND, command),
    ];
    assert(v@ =~= spec_lba48_writes(devsel, block, count, command));
    v
}

} // verus!
