use std::sync::atomic::{AtomicBool, Ordering};
use std::sync::Arc;

use ata_ide::extent::Extent;
use ata_ide::ide::{DiskError, Ide, IdeDisk};
use ata_ide::pci::{Device, PciConfig};
use ata_ide::ports::PortIo;
use ata_ide::prdt::PrdEntry;
use ata_ide::queue::Request;
use ata_ide::regs::IoError;

const BUSMASTER: u16 = 0xC000;
const BASE: u16 = 0x1F0;
const CTRL: u16 = 0x3F4;
const TABLE: u32 = 0x0010_0000;

#[derive(Debug, Clone, PartialEq)]
enum Op {
    Out8(u16, u8),
    Out32(u16, u32),
    Prd(u32, u16, PrdEntry),
}

/// A controller that answers from a script: STATUS reads pop the script
/// (the last value repeats), a started DMA completes at once.
struct Fake {
    status: Vec<u8>,
    bm_status: u8,
    bm_cmd: u8,
    words: Vec<u16>,
    log: Vec<Op>,
    data_out: usize,
    table: Option<u32>,
    pci_bar4: u32,
}

impl Fake {
    fn new(status: Vec<u8>) -> Fake {
        Fake {
            status,
            bm_status: 0,
            bm_cmd: 0,
            words: Vec::new(),
            log: Vec::new(),
            data_out: 0,
            table: Some(TABLE),
            pci_bar4: 0,
        }
    }
}

impl PortIo for Fake {
    fn inb(&mut self, port: u16) -> u8 {
        if port == BASE + 7 || port == 0x177 {
            if self.status.len() > 1 {
                self.status.remove(0)
            } else {
                self.status[0]
            }
        } else if port == BUSMASTER + 2 {
            self.bm_status
        } else if port == BUSMASTER {
            self.bm_cmd
        } else {
            0
        }
    }

    fn outb(&mut self, port: u16, value: u8) {
        if port == BUSMASTER {
            self.bm_cmd = value;
            if value & 1 == 1 {
                self.bm_status |= 4;
            }
        } else if port == BUSMASTER + 2 {
            self.bm_status &= !(value & 4);
        }
        self.log.push(Op::Out8(port, value));
    }

    fn inw(&mut self, _port: u16) -> u16 {
        if self.words.is_empty() {
            0
        } else {
            self.words.remove(0)
        }
    }

    fn outw(&mut self, _port: u16, _value: u16) {
        self.data_out += 1;
    }

    fn inl(&mut self, port: u16) -> u32 {
        if port == 0xCFC {
            self.pci_bar4
        } else {
            0
        }
    }

    fn outl(&mut self, port: u16, value: u32) {
        self.log.push(Op::Out32(port, value));
    }

    fn alloc_prd_table(&mut self) -> Option<u32> {
        self.table
    }

    fn store_prd(&mut self, table: u32, index: u16, entry: PrdEntry) {
        self.log.push(Op::Prd(table, index, entry));
    }
}

fn disk(io: &mut Fake) -> IdeDisk {
    IdeDisk::with_ports(io, BUSMASTER, BASE, CTRL, 0xE, true)
}

fn read_request(block: u64, length: u64, mem: usize) -> Request {
    Request {
        extent: Extent { block, length },
        mem,
        read: true,
        complete: Arc::new(AtomicBool::new(false)),
    }
}

fn done(r: &Request) -> bool {
    r.complete.load(Ordering::SeqCst)
}

#[test]
fn fifo_completion_order() {
    let mut io = Fake::new(vec![0x50]);
    let mut d = disk(&mut io);
    let reqs: Vec<Request> = (0..5).map(|i| read_request(10 + i * 8, 4096, 0x20_0000 + i as usize * 4096)).collect();
    for r in &reqs {
        assert_eq!(d.request(&mut io, r.clone()), Ok(()));
    }
    assert_eq!(d.pending_len(), 4);
    for k in 0..reqs.len() {
        for (j, r) in reqs.iter().enumerate() {
            assert_eq!(done(r), j < k);
        }
        assert_eq!(d.on_poll(&mut io), Ok(()));
    }
    assert!(reqs.iter().all(done));
    assert!(d.is_idle());
}

#[test]
fn poll_without_interrupt_changes_nothing() {
    let mut io = Fake::new(vec![0x50]);
    let mut d = disk(&mut io);
    let r = read_request(5, 512, 0x1000);
    assert_eq!(d.request(&mut io, r.clone()), Ok(()));
    io.bm_status = 0;
    let before = io.log.len();
    assert_eq!(d.on_poll(&mut io), Ok(()));
    assert_eq!(io.log.len(), before);
    assert!(!done(&r));
    assert!(!d.is_idle());
}

#[test]
fn two_reads_start_in_turn() {
    let mut io = Fake::new(vec![0x50]);
    let mut d = disk(&mut io);
    let a = read_request(100, 4096, 0x30_0000);
    let b = read_request(200, 4096, 0x40_0000);
    assert_eq!(d.request(&mut io, a.clone()), Ok(()));
    assert_eq!(d.request(&mut io, b.clone()), Ok(()));
    let first_table: Vec<Op> = io.log.iter().filter(|o| matches!(o, Op::Prd(..))).cloned().collect();
    assert_eq!(first_table, vec![Op::Prd(TABLE, 0, PrdEntry { addr: 0x30_0000, size: 4096, end_of_table: true })]);
    assert!(!done(&a) && !done(&b));

    let mark = io.log.len();
    assert_eq!(d.on_poll(&mut io), Ok(()));
    assert!(done(&a));
    assert!(!done(&b));
    let later: Vec<Op> = io.log[mark..].iter().filter(|o| matches!(o, Op::Prd(..))).cloned().collect();
    assert_eq!(later, vec![Op::Prd(TABLE, 0, PrdEntry { addr: 0x40_0000, size: 4096, end_of_table: true })]);
    // LBA0 of the second request is 200.
    assert!(io.log[mark..].contains(&Op::Out8(BASE + 3, 200)));
    assert!(io.log[mark..].contains(&Op::Out8(BASE + 7, 0x25)));

    assert_eq!(d.on_poll(&mut io), Ok(()));
    assert!(done(&a) && done(&b));
    assert!(d.is_idle());
}

#[test]
fn dma_start_programs_registers() {
    let mut io = Fake::new(vec![0x50]);
    let mut d = disk(&mut io);
    let r = read_request(0x0102_0304_0506, 1024, 0x5000);
    assert_eq!(d.request(&mut io, r), Ok(()));
    let out8: Vec<(u16, u8)> = io
        .log
        .iter()
        .filter_map(|o| if let Op::Out8(p, v) = o { Some((*p, *v)) } else { None })
        .collect();
    assert_eq!(
        out8,
        vec![
            (BUSMASTER, 8),
            (BASE + 6, 0x40),
            (BASE + 2, 0),
            (BASE + 3, 0x03),
            (BASE + 4, 0x02),
            (BASE + 5, 0x01),
            (BASE + 2, 2),
            (BASE + 3, 0x06),
            (BASE + 4, 0x05),
            (BASE + 5, 0x04),
            (BASE + 7, 0x25),
            (BUSMASTER, 9),
        ]
    );
    assert!(io.log.contains(&Op::Out32(BUSMASTER + 4, TABLE)));
}

#[test]
fn dma_write_sets_no_direction_bit() {
    let mut io = Fake::new(vec![0x50]);
    let mut d = IdeDisk::with_ports(&mut io, BUSMASTER, BASE, CTRL, 0xE, false);
    let mut r = read_request(9, 512, 0x5000);
    r.read = false;
    assert_eq!(d.request(&mut io, r), Ok(()));
    assert!(io.log.contains(&Op::Out8(BASE + 6, 0x50)));
    assert!(io.log.contains(&Op::Out8(BASE + 7, 0x35)));
    assert_eq!(io.log.last(), Some(&Op::Out8(BUSMASTER, 1)));
}

#[test]
fn dma_overflow_is_reported() {
    let mut io = Fake::new(vec![0x50]);
    let mut d = disk(&mut io);
    let r = read_request(1, 8192 * 65536 + 1, 0x5000);
    assert_eq!(d.request(&mut io, r.clone()), Err(DiskError::DescriptorOverflow));
    assert!(!io.log.iter().any(|o| matches!(o, Op::Prd(..))));
    assert!(!done(&r));
    assert!(!d.is_idle());
}

#[test]
fn dma_invalid_requests() {
    let mut io = Fake::new(vec![0x50]);
    let mut d = disk(&mut io);
    assert_eq!(d.request(&mut io, read_request(1, 512, 0)), Err(DiskError::InvalidRequest));
    let mut io = Fake::new(vec![0x50]);
    let mut d = disk(&mut io);
    assert_eq!(d.request(&mut io, read_request(1, 0, 0x1000)), Err(DiskError::InvalidRequest));
}

#[test]
fn dma_without_table() {
    let mut io = Fake::new(vec![0x50]);
    io.table = None;
    let mut d = disk(&mut io);
    assert_eq!(d.request(&mut io, read_request(1, 512, 0x1000)), Err(DiskError::NoDescriptorTable));
}

#[test]
fn dma_busy_device_times_out() {
    let mut io = Fake::new(vec![0x80]);
    let mut d = disk(&mut io);
    d.set_spin_limit(10);
    assert_eq!(d.request(&mut io, read_request(1, 512, 0x1000)), Err(DiskError::HardwareTimeout));
}

#[test]
fn release_clears_table_register() {
    let mut io = Fake::new(vec![0x50]);
    let mut d = disk(&mut io);
    d.release(&mut io);
    assert_eq!(io.log.last(), Some(&Op::Out32(BUSMASTER + 4, 0)));
    assert_eq!(d.request(&mut io, read_request(1, 512, 0x1000)), Err(DiskError::NoDescriptorTable));
}

#[test]
fn pio_large_read_in_two_chunks() {
    let mut io = Fake::new(vec![0x58]);
    let mut d = disk(&mut io);
    let mut buf = vec![0u8; 70000 * 512];
    assert_eq!(d.ata_pio(&mut io, 0, 70000, &mut buf, false), Ok(70000 * 512));
    let counts: Vec<(u8, u8)> = io
        .log
        .iter()
        .filter_map(|o| match o {
            Op::Out8(p, v) if *p == BASE + 2 => Some(*v),
            _ => None,
        })
        .collect::<Vec<u8>>()
        .chunks(2)
        .map(|c| (c[0], c[1]))
        .collect();
    // high byte then low byte of each chunk's count: 65536 encodes as 0, then 4464 = 0x1170
    assert_eq!(counts, vec![(0, 0), (0x11, 0x70)]);
    let lba0: Vec<u8> = io
        .log
        .iter()
        .filter_map(|o| match o {
            Op::Out8(p, v) if *p == BASE + 3 => Some(*v),
            _ => None,
        })
        .collect();
    // second chunk starts at block 65536: LBA0 = 0, LBA3 = 0
    assert_eq!(lba0, vec![0, 0, 0, 0]);
    // its LBA2 byte is 1
    assert!(io.log.contains(&Op::Out8(BASE + 5, 1)));
}

#[test]
fn pio_read_fills_buffer_low_byte_first() {
    let mut io = Fake::new(vec![0x58]);
    io.words = vec![0x1234, 0xABCD];
    let mut d = disk(&mut io);
    let mut buf = vec![0xEEu8; 1024];
    assert_eq!(d.read(&mut io, 7, &mut buf), Ok(1024));
    assert_eq!(&buf[0..4], &[0x34, 0x12, 0xCD, 0xAB]);
    assert!(io.log.contains(&Op::Out8(BASE + 7, 0x24)));
}

#[test]
fn pio_write_flushes_each_sector() {
    let mut io = Fake::new(vec![0x58]);
    let mut d = disk(&mut io);
    let buf = vec![1u8; 3 * 512];
    assert_eq!(d.write(&mut io, 7, &buf), Ok(3 * 512));
    assert_eq!(io.data_out, 3 * 256);
    let flushes = io.log.iter().filter(|o| **o == Op::Out8(BASE + 7, 0xEA)).count();
    assert_eq!(flushes, 3);
    assert!(io.log.contains(&Op::Out8(BASE + 7, 0x34)));
}

#[test]
fn pio_busy_then_no_data_is_not_ready() {
    let mut io = Fake::new(vec![0x50, 0x80, 0x00]);
    let mut d = disk(&mut io);
    let mut buf = vec![0u8; 512];
    assert_eq!(d.ata_pio(&mut io, 1, 1, &mut buf, false), Err(DiskError::Io(IoError::DataNotReady)));
}

#[test]
fn pio_error_bit_is_device_error() {
    let mut io = Fake::new(vec![0x50, 0x01]);
    let mut d = disk(&mut io);
    let mut buf = vec![0u8; 512];
    assert_eq!(d.ata_pio(&mut io, 1, 1, &mut buf, false), Err(DiskError::Io(IoError::DeviceError)));
}

#[test]
fn pio_fault_bit_is_device_fault() {
    let mut io = Fake::new(vec![0x50, 0x20]);
    let mut d = disk(&mut io);
    let mut buf = vec![0u8; 512];
    assert_eq!(d.ata_pio(&mut io, 1, 1, &mut buf, false), Err(DiskError::Io(IoError::DeviceFault)));
}

#[test]
fn pio_rejects_empty_and_short_buffers() {
    let mut io = Fake::new(vec![0x58]);
    let mut d = disk(&mut io);
    let mut buf = vec![0u8; 512];
    assert_eq!(d.ata_pio(&mut io, 1, 0, &mut buf, false), Err(DiskError::InvalidRequest));
    assert_eq!(d.ata_pio(&mut io, 1, 2, &mut buf, false), Err(DiskError::InvalidRequest));
    let mut empty: Vec<u8> = Vec::new();
    assert_eq!(d.read(&mut io, 1, &mut empty), Err(DiskError::InvalidRequest));
    assert!(io.log.is_empty());
}

#[test]
fn pio_busy_device_times_out() {
    let mut io = Fake::new(vec![0x80]);
    let mut d = disk(&mut io);
    d.set_spin_limit(5);
    let mut buf = vec![0u8; 512];
    assert_eq!(d.ata_pio(&mut io, 1, 1, &mut buf, false), Err(DiskError::HardwareTimeout));
}

fn identify_words() -> Vec<u16> {
    let mut w = vec![0u16; 256];
    // serial "AB 1" then padding
    w[10] = 0x4142;
    w[11] = 0x2031;
    for i in 12..20 {
        w[i] = 0x2020;
    }
    w[23] = 0x7631;
    for i in 24..27 {
        w[i] = 0x2020;
    }
    w[27] = 0x514D;
    w[28] = 0x4555;
    for i in 29..47 {
        w[i] = 0x2020;
    }
    w[100] = 0x0000;
    w[101] = 0x0002;
    w
}

#[test]
fn identify_reads_drive_data() {
    let mut io = Fake::new(vec![0x50, 0x50, 0x58]);
    io.words = identify_words();
    let d = IdeDisk::new(&mut io, BUSMASTER, BASE, CTRL, 0xE, true).expect("drive");
    let info = d.info().as_ref().expect("info");
    assert_eq!(info.serial, b"AB 1".to_vec());
    assert_eq!(info.firmware, b"v1".to_vec());
    assert_eq!(info.model, b"QMEU".to_vec());
    assert_eq!(info.sectors, 0x2_0000);
    assert!(io.log.contains(&Op::Out8(BASE + 6, 0xA0)));
    assert!(io.log.contains(&Op::Out8(BASE + 7, 0xEC)));
}

#[test]
fn identify_slave_selects_b0() {
    let mut io = Fake::new(vec![0x50, 0x50, 0x58]);
    let d = IdeDisk::new(&mut io, BUSMASTER, BASE, CTRL, 0xE, false);
    assert!(d.is_some());
    assert!(io.log.contains(&Op::Out8(BASE + 6, 0xB0)));
}

#[test]
fn identify_falls_back_to_28_bit_count() {
    let mut io = Fake::new(vec![0x50, 0x50, 0x58]);
    let mut w = vec![0u16; 256];
    w[60] = 0x1234;
    w[61] = 0x0001;
    io.words = w;
    let d = IdeDisk::new(&mut io, BUSMASTER, BASE, CTRL, 0xE, true).expect("drive");
    assert_eq!(d.info().as_ref().unwrap().sectors, 0x1_1234);
}

#[test]
fn floating_bus_has_no_drive() {
    let mut io = Fake::new(vec![0xFF]);
    assert!(IdeDisk::new(&mut io, BUSMASTER, BASE, CTRL, 0xE, true).is_none());
    let mut d = disk(&mut io);
    assert!(!d.identify(&mut io));
    let mut pci = PciConfig::new(0, 1, 1);
    io.pci_bar4 = 0xC001;
    assert_eq!(Ide::disks(&mut pci, &mut io).len(), 0);
}

#[test]
fn zero_status_after_command_has_no_drive() {
    let mut io = Fake::new(vec![0x50, 0x50, 0x00]);
    assert!(IdeDisk::new(&mut io, BUSMASTER, BASE, CTRL, 0xE, true).is_none());
}

#[test]
fn identify_error_has_no_drive() {
    let mut io = Fake::new(vec![0x50, 0x50, 0x51]);
    assert!(IdeDisk::new(&mut io, BUSMASTER, BASE, CTRL, 0xE, true).is_none());
}

#[test]
fn scan_keeps_answering_positions() {
    let mut io = Fake::new(vec![0x58]);
    io.pci_bar4 = 0xC001;
    let mut pci = PciConfig::new(0, 1, 1);
    let disks = Ide::disks(&mut pci, &mut io);
    assert_eq!(disks.len(), 4);
    assert_eq!(disks[0].irq, 0xE);
    assert!(disks[0].is_master());
    assert!(!disks[1].is_master());
    assert_eq!(disks[2].irq, 0xF);
    // bus mastering enabled in the command register (offset 4, bit 2)
    assert!(io.log.contains(&Op::Out32(0xCF8, 0x8000_0904)));
    assert!(io.log.contains(&Op::Out32(0xCFC, 0xC005)));
}

#[test]
fn pci_function_reads_header() {
    let mut io = Fake::new(vec![0x50]);
    io.words = vec![0x8086, 0x7010, 0x1AF4, 0x1100, 0x0000];
    let f = Device(&mut io, 0, 1, 1);
    assert_eq!(f.get_vendor(), 0x8086);
    assert_eq!(f.get_device(), 0x7010);
    assert_eq!(f.get_subvendor(), 0x1AF4);
    assert_eq!(f.get_subsystem(), 0x1100);
    assert_eq!(f.get_class(), 0);
    // the command register is written back once with I/O and memory enabled
    assert_eq!(io.data_out, 1);
    assert!(io.log.contains(&Op::Out32(0xCF8, 0x8000_0904)));
}
