use sup_smsac::addr::{Addr, AddrOffsets};
use sup_smsac::backend::{
    find_emu_regions, process_address, segment_has_mem2, segment_offset, MappedSegment, RegionInfo,
    MEM2_OFFSET,
};
use sup_smsac::dolphin::Dolphin;
use sup_smsac::mem_addr::{DolphinMemAddr, MEM1_SIZE, MEM2_SIZE};

fn low_only() -> MappedSegment {
    MappedSegment { block: vec![0u8; MEM1_SIZE as usize] }
}

fn with_high() -> MappedSegment {
    MappedSegment { block: vec![0u8; (MEM2_OFFSET + MEM2_SIZE) as usize] }
}

#[test]
fn read_fits_only_inside_region() {
    let mut m = low_only();
    m.block[0x100..0x104].copy_from_slice(&[1, 2, 3, 4]);
    assert_eq!(m.read_memory(Addr(0x8000_0100), 4), Some(vec![1, 2, 3, 4]));
    assert_eq!(m.read_memory(Addr(0x817F_FFFC), 4).map(|v| v.len()), Some(4));
    assert_eq!(m.read_memory(Addr(0x817F_FFFD), 4), None);
    assert_eq!(m.read_memory(Addr(0x7000_0000), 1), None);
}

#[test]
fn read_truncated_clamps_to_region_end() {
    let m = low_only();
    assert_eq!(m.read_memory_truncated(Addr(0x817F_FFF0), 256).map(|v| v.len()), Some(16));
    assert_eq!(m.read_memory_truncated(Addr(0x8000_0000), 256).map(|v| v.len()), Some(256));
    assert_eq!(m.read_memory_truncated(Addr(0x1000), 256), None);
}

#[test]
fn high_region_needs_large_block() {
    let m = low_only();
    assert!(!m.has_mem2());
    assert_eq!(m.read_memory(Addr(0x9000_0000), 4), None);
    let mut h = with_high();
    assert!(h.has_mem2());
    let at = (MEM2_OFFSET + 8) as usize;
    h.block[at..at + 2].copy_from_slice(&[0xAB, 0xCD]);
    assert_eq!(h.read::<u16>(Addr(0x9000_0008)), Some(0xABCD));
}

#[test]
fn write_checks_bounds() {
    let mut m = low_only();
    assert_eq!(m.write_bytes(Addr(0x8000_0010), &[9, 8, 7]), Some(()));
    assert_eq!(&m.block[0x10..0x13], &[9, 8, 7]);
    assert_eq!(m.write_bytes(Addr(0x817F_FFFF), &[1, 2]), None);
    assert_eq!(m.write_bytes(Addr(0x9000_0000), &[1]), None);
}

#[test]
fn typed_reads_and_strings() {
    let mut m = low_only();
    m.block[0x20..0x24].copy_from_slice(&[0x80, 0x00, 0x00, 0x40]);
    m.block[0x40..0x46].copy_from_slice(b"Mario\0");
    assert_eq!(m.read::<Addr>(Addr(0x8000_0020)), Some(Addr(0x8000_0040)));
    assert_eq!(m.read::<i32>(Addr(0x8000_0020)), Some(-0x7FFF_FFC0));
    assert_eq!(m.read_str(Addr(0x8000_0040)), Some("Mario".to_string()));
    assert_eq!(m.dump_hex(Addr(0x8000_0020), 4), Some("80000040".to_string()));
    assert_eq!(m.dump_hex(Addr(0x817F_FFFF), 2), None);
}

#[test]
fn string_scan_stops_at_limit() {
    let mut m = low_only();
    for b in &mut m.block[0x100..0x300] {
        *b = b'a';
    }
    assert_eq!(m.read_str(Addr(0x8000_0100)).map(|s| s.len()), Some(256));
    let end = MEM1_SIZE as usize;
    for b in &mut m.block[end - 3..end] {
        *b = b'z';
    }
    assert_eq!(m.read_str(Addr(0x817F_FFFD)), Some("zzz".to_string()));
}

#[test]
fn offset_chains_follow_pointers() {
    let mut m = low_only();
    m.block[0x10..0x14].copy_from_slice(&[0x80, 0x00, 0x02, 0x00]);
    m.block[0x208..0x20C].copy_from_slice(&[0x80, 0x00, 0x03, 0x00]);
    let base = Addr(0x8000_0000);
    assert_eq!(m.resolve_addr_offsets(base, &AddrOffsets(0x10, vec![])), Some(Addr(0x8000_0010)));
    assert_eq!(m.resolve_addr_offsets(base, &AddrOffsets(0x10, vec![0x8])), Some(Addr(0x8000_0208)));
    assert_eq!(m.resolve_addr_offsets(base, &AddrOffsets(0x10, vec![0x8, 0x4])), Some(Addr(0x8000_0304)));
    assert_eq!(m.resolve_addr_offsets(Addr(0), &AddrOffsets(0x10, vec![0x8])), None);
}

#[test]
fn segment_layout() {
    assert_eq!(segment_offset(DolphinMemAddr::MEM1(5), false), Some(5));
    assert_eq!(segment_offset(DolphinMemAddr::MEM2(5), false), None);
    assert_eq!(segment_offset(DolphinMemAddr::MEM2(5), true), Some(0x0404_0005));
    assert!(segment_has_mem2(0x0804_0000));
    assert!(!segment_has_mem2(0x0803_FFFF));
}

#[test]
fn process_layout() {
    assert_eq!(process_address(DolphinMemAddr::MEM1(0x10), 0x1000, None), Some(0x1010));
    assert_eq!(process_address(DolphinMemAddr::MEM2(0x10), 0x1000, None), None);
    assert_eq!(process_address(DolphinMemAddr::MEM2(0x10), 0x1000, Some(0x5000)), Some(0x5010));
    assert_eq!(process_address(DolphinMemAddr::MEM1(0x10), usize::MAX, None), None);
}

#[test]
fn region_discovery() {
    let r = |base: usize, size: usize, mapped: bool| RegionInfo { base, size, mapped };
    let map = vec![
        r(0x1000, 0x2000000, false),
        r(0x4000_0000, 0x2000000, true),
        r(0x5000_0000, 0x4000000, true),
    ];
    assert_eq!(find_emu_regions(&map), Some((0x4000_0000, Some(0x5000_0000))));
    let map = vec![r(0x4000_0000, 0x2000000, true), r(0x5000_0000, 0x4000000, false)];
    assert_eq!(find_emu_regions(&map), Some((0x4000_0000, None)));
    let map = vec![r(0x5000_0000, 0x4000000, true), r(0x4000_0000, 0x2000000, true)];
    assert_eq!(find_emu_regions(&map), Some((0x4000_0000, None)));
    assert_eq!(find_emu_regions(&[r(0x1000, 0x1000, true)]), None);
}

#[test]
fn failed_write_leaves_memory_unchanged() {
    let mut m = low_only();
    let end = MEM1_SIZE as usize;
    m.block[end - 1] = 0x5A;
    assert_eq!(m.write_bytes(Addr(0x817F_FFFF), &[1, 2]), None);
    assert_eq!(m.block[end - 1], 0x5A);
    assert_eq!(m.write_bytes(Addr(0x817F_FFFF), &[3]), Some(()));
    assert_eq!(m.block[end - 1], 3);
}
