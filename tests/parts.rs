use ata_ide::devices::{Device, DeviceId, DeviceManager, DeviceNode};
use ata_ide::extent::Extent;
use ata_ide::identify::{parse_identify, text_field};
use ata_ide::ide::{
    bus_master_base, clear_act, dma_command, dma_descriptors, dma_direction, dma_start, drive_positions,
    identify_writes, pio_command, sector_word, store_word, DiskError, IdeDisk,
};
use ata_ide::ports::{PortOp, RecordingPorts};
use ata_ide::pci::PciConfig;
use ata_ide::pio::{pio_chunks, PioChunk};
use ata_ide::prdt::{build_descriptors, sector_count, DescriptorOverflow, PrdEntry};
use ata_ide::regs::{classify_status, is_busy, lba48_writes, reg_port, IoError};

#[test]
fn extent_empty_cases() {
    assert!(Extent { block: 0, length: 512 }.empty());
    assert!(Extent { block: 7, length: 0 }.empty());
    assert!(Extent { block: 0, length: 0 }.empty());
    assert!(!Extent { block: 7, length: 512 }.empty());
}

fn check_shape(len: u64, base: u32) {
    let v = build_descriptors(len, base).expect("fits");
    let n = ((len + 65535) / 65536) as usize;
    assert_eq!(v.len(), n);
    for (i, e) in v.iter().enumerate() {
        assert_eq!(e.end_of_table, i + 1 == n);
        assert_eq!(e.addr, base.wrapping_add((i as u32) * 65536));
        if i + 1 < n {
            assert_eq!(e.size, 0);
        }
    }
    let last = v[n - 1];
    let bytes = if last.size == 0 { 65536 } else { last.size as u64 };
    let rounded = (len + 511) / 512 * 512;
    assert_eq!(bytes, if rounded % 65536 == 0 { 65536 } else { rounded % 65536 });
}

#[test]
fn descriptor_shape() {
    for len in [1u64, 511, 512, 4096, 65535, 65536, 65537, 131072, 200_000, 8192 * 65536 - 1, 8192 * 65536] {
        check_shape(len, 0x0100_0000);
    }
    check_shape(3 * 65536 + 1024, 0xFFFF_0000);
}

#[test]
fn descriptor_exact_values() {
    assert_eq!(
        build_descriptors(65536 + 1024, 0x1000),
        Ok(vec![
            PrdEntry { addr: 0x1000, size: 0, end_of_table: false },
            PrdEntry { addr: 0x11000, size: 1024, end_of_table: true },
        ])
    );
    assert_eq!(build_descriptors(1, 0x2000), Ok(vec![PrdEntry { addr: 0x2000, size: 512, end_of_table: true }]));
    assert_eq!(build_descriptors(65536, 0), Ok(vec![PrdEntry { addr: 0, size: 0, end_of_table: true }]));
    assert_eq!(build_descriptors(0, 0), Ok(vec![]));
    assert_eq!(build_descriptors(8192 * 65536, 0).map(|v| v.len()), Ok(8192));
}

#[test]
fn descriptor_overflow() {
    assert_eq!(build_descriptors(8192 * 65536 + 1, 0), Err(DescriptorOverflow));
    assert_eq!(build_descriptors(u64::MAX, 0), Err(DescriptorOverflow));
}

#[test]
fn entry_flags_word() {
    assert_eq!(PrdEntry { addr: 0, size: 0, end_of_table: true }.flags(), 0x8000);
    assert_eq!(PrdEntry { addr: 0, size: 0, end_of_table: false }.flags(), 0);
}

#[test]
fn sector_rounding() {
    assert_eq!(sector_count(0), 0);
    assert_eq!(sector_count(1), 1);
    assert_eq!(sector_count(512), 1);
    assert_eq!(sector_count(513), 2);
    assert_eq!(sector_count(u64::MAX), u64::MAX / 512 + 1);
}

#[test]
fn dma_request_checks() {
    let e = Extent { block: 1, length: 4096 };
    assert_eq!(dma_descriptors(e, 0), Err(DiskError::InvalidRequest));
    assert_eq!(dma_descriptors(Extent { block: 1, length: 0 }, 0x1000), Err(DiskError::InvalidRequest));
    assert_eq!(
        dma_descriptors(Extent { block: 1, length: 8192 * 65536 + 512 }, 0x1000),
        Err(DiskError::DescriptorOverflow)
    );
    assert_eq!(dma_descriptors(e, 0x1000).map(|v| v.len()), Ok(1));
}

#[test]
fn chunks_of_seventy_thousand() {
    assert_eq!(
        pio_chunks(10, 70000),
        vec![
            PioChunk { block: 10, sectors: 65536, first: 0 },
            PioChunk { block: 10 + 65536, sectors: 4464, first: 65536 },
        ]
    );
    assert_eq!(pio_chunks(0, 0), vec![]);
    assert_eq!(pio_chunks(3, 65536), vec![PioChunk { block: 3, sectors: 65536, first: 0 }]);
    assert_eq!(pio_chunks(u64::MAX, 65537)[1].block, 65535);
}

#[test]
fn status_classification() {
    assert_eq!(classify_status(0x58), None);
    assert_eq!(classify_status(0x00), Some(IoError::DataNotReady));
    assert_eq!(classify_status(0x01), Some(IoError::DeviceError));
    assert_eq!(classify_status(0x21), Some(IoError::DeviceError));
    assert_eq!(classify_status(0x28), Some(IoError::DeviceFault));
    assert_eq!(IoError::DeviceFault.code(), 1);
    assert_eq!(IoError::DeviceError.code(), 2);
    assert_eq!(IoError::DataNotReady.code(), 3);
    assert!(is_busy(0x80));
    assert!(!is_busy(0x7F));
}

#[test]
fn register_ports() {
    assert_eq!(reg_port(0x1F0, 0x3F4, 0x00), Some(0x1F0));
    assert_eq!(reg_port(0x1F0, 0x3F4, 0x07), Some(0x1F7));
    assert_eq!(reg_port(0x1F0, 0x3F4, 0x08), Some(0x1F2));
    assert_eq!(reg_port(0x1F0, 0x3F4, 0x0B), Some(0x1F5));
    assert_eq!(reg_port(0x1F0, 0x3F4, 0x0C), Some(0x3F6));
    assert_eq!(reg_port(0x1F0, 0x3F4, 0x0D), Some(0x3F7));
    assert_eq!(reg_port(0x1F0, 0x3F4, 0x0E), None);
}

#[test]
fn lba48_register_sequence() {
    assert_eq!(
        lba48_writes(0x40, 0x0000_A1B2_C3D4_E5F6, 0x1234, 0x24),
        vec![
            (0x06, 0x40),
            (0x08, 0x12),
            (0x09, 0xC3),
            (0x0A, 0xB2),
            (0x0B, 0xA1),
            (0x02, 0x34),
            (0x03, 0xF6),
            (0x04, 0xE5),
            (0x05, 0xD4),
            (0x07, 0x24),
        ]
    );
}

#[test]
fn identify_text_swaps_and_trims_spaces() {
    let mut w = vec![0x2020u16; 256];
    w[27] = 0x4142;
    w[28] = 0x2043;
    w[29] = 0x4420;
    assert_eq!(text_field(&w, 27, 30), b"AB CD".to_vec());
    w[100] = 1;
    w[103] = 1;
    let info = parse_identify(&w);
    assert_eq!(info.model, b"AB CD".to_vec());
    assert_eq!(info.sectors, 0x0001_0000_0000_0001 + 0x2020 * 0x1_0000 + 0x2020 * 0x1_0000_0000);
    assert!(info.serial.is_empty());
}

#[test]
fn device_names() {
    assert_eq!(DeviceId::new(0x8086, 0x7010).name(), "pci8086,7010");
    assert_eq!(DeviceId::new(0, 0x1f).name(), "pci0,1f");
    assert_eq!(Device::root().name(), "/");
    assert_eq!(Device::pseudo().name(), "pseudo");
    assert_eq!(Device::root().id(), DeviceId::new(1, 2));
}

#[test]
fn device_tree() {
    let mut root = DeviceNode::new();
    root.add_child(DeviceNode::pseudo());
    assert_eq!(root.child_count(), 1);
    let mut m = DeviceManager::new();
    m.register(Device::pseudo());
    assert_eq!(m.device_count(), 1);
    assert_eq!(m.scheme(), "devices");
}

#[test]
fn pci_addresses() {
    let c = PciConfig::new(2, 3, 1);
    assert_eq!(c.address(0x22), 0x8000_0000 | (2 << 16) | (3 << 11) | (1 << 8) | 0x20);
    assert_eq!(PciConfig::flagged(0x10, 4, true), 0x14);
    assert_eq!(PciConfig::flagged(0x14, 4, false), 0x10);
}

#[test]
fn legacy_positions() {
    let p = drive_positions(0xC000);
    assert_eq!(p.len(), 4);
    assert_eq!((p[0].base, p[0].ctrl, p[0].irq, p[0].master), (0x1F0, 0x3F4, 0xE, true));
    assert_eq!((p[3].busmaster, p[3].base, p[3].ctrl, p[3].irq, p[3].master), (0xC008, 0x170, 0x374, 0xF, false));
}

#[test]
fn bus_master_helpers() {
    assert_eq!(dma_direction(true), 8);
    assert_eq!(dma_direction(false), 0);
    assert_eq!(dma_start(true), 9);
    assert_eq!(dma_start(false), 1);
    assert_eq!(dma_command(true), 0x25);
    assert_eq!(dma_command(false), 0x35);
    assert_eq!(pio_command(true), 0x34);
    assert_eq!(pio_command(false), 0x24);
    assert_eq!(clear_act(0x09), 0x08);
    assert_eq!(clear_act(0x08), 0x08);
    assert_eq!(bus_master_base(0xC001), 0xC000);
    assert_eq!(bus_master_base(0x1_C0F5), 0xC0F0);
}

#[test]
fn identify_helpers() {
    assert_eq!(
        identify_writes(true),
        vec![(0x06, 0xA0), (0x02, 0), (0x03, 0), (0x04, 0), (0x05, 0), (0x07, 0xEC)]
    );
    assert_eq!(identify_writes(false)[0], (0x06, 0xB0));
}

#[test]
fn data_words_low_byte_first() {
    let mut buf = vec![0u8; 4];
    store_word(&mut buf, 1, 0xABCD);
    assert_eq!(buf, vec![0, 0xCD, 0xAB, 0]);
    assert_eq!(sector_word(&buf, 1), 0xABCD);
}

#[test]
fn recording_ports_show_floating_bus() {
    let mut io = RecordingPorts::new(0xFF, 0, Some(0x8000));
    assert!(IdeDisk::new(&mut io, 0xC000, 0x1F0, 0x3F4, 0xE, true).is_none());
    assert_eq!(io.log().clone(), vec![PortOp::AllocTable(Some(0x8000)), PortOp::In8(0x1F7, 0xFF)]);
}

#[test]
fn recording_ports_show_identify() {
    let mut io = RecordingPorts::new(0x58, 0x2020, None);
    let d = IdeDisk::new(&mut io, 0xC000, 0x170, 0x374, 0xF, false).expect("drive");
    assert!(d.info().as_ref().unwrap().model.is_empty());
    let log = io.log().clone();
    assert!(log.contains(&PortOp::Out8(0x176, 0xB0)));
    assert!(log.contains(&PortOp::Out8(0x177, 0xEC)));
    assert_eq!(log.iter().filter(|o| matches!(o, PortOp::In16(0x170, _))).count(), 256);
    assert!(!log.iter().any(|o| matches!(o, PortOp::Out8(p, _) if *p >= 0xC000)));
}

#[test]
fn zero_spin_limit_times_out_without_reads() {
    let mut io = RecordingPorts::new(0x58, 0, Some(0x8000));
    let mut d = IdeDisk::with_ports(&mut io, 0xC000, 0x1F0, 0x3F4, 0xE, true);
    d.set_spin_limit(0);
    let mut buf = vec![0u8; 512];
    let before = io.log().len();
    assert_eq!(d.ata_pio(&mut io, 1, 1, &mut buf, false), Err(DiskError::HardwareTimeout));
    assert_eq!(io.log().len(), before);
}

#[test]
fn recording_ports_pio_read_trace() {
    let mut io = RecordingPorts::new(0x58, 0x1234, Some(0x8000));
    let mut d = IdeDisk::with_ports(&mut io, 0xC000, 0x1F0, 0x3F4, 0xE, true);
    let mut buf = vec![0u8; 1024];
    let before = io.log().len();
    assert_eq!(d.read(&mut io, 3, &mut buf), Ok(1024));
    assert!(buf.chunks(2).all(|c| c == [0x34, 0x12]));
    let log = io.log()[before..].to_vec();
    // one wait read, ten register writes, then per sector: 4 settle reads, 1 wait read, 1 check, 256 words
    assert_eq!(log.len(), 1 + 10 + 2 * (4 + 1 + 1 + 256));
    assert_eq!(log[10], PortOp::Out8(0x1F7, 0x24));
}
