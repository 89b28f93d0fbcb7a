use sup_smsac::addr::{Addr, AddrOffsets};
use sup_smsac::mem_addr::{DolphinMemAddr, MEM1_SIZE, MEM2_SIZE};

#[test]
fn addr_add_wraps() {
    assert_eq!(Addr(0x8000_0000).add(0x10), Addr(0x8000_0010));
    assert_eq!(Addr(0xFFFF_FFF0).add(0x20), Addr(0x10));
}

#[test]
fn addr_offset_and_sub() {
    assert_eq!(Addr(0x8000_0010).offset(-0x10), Addr(0x8000_0000));
    assert_eq!(Addr(0x5).offset(-0x10), Addr(0xFFFF_FFF5));
    assert_eq!(Addr(0x10).sub(0x20), Addr(0xFFFF_FFF0));
}

#[test]
fn addr_diff_is_signed() {
    assert_eq!(Addr(0x8000_0010).diff(Addr(0x8000_0000)), 16);
    assert_eq!(Addr(0x8000_0000).diff(Addr(0x8000_0010)), -16);
    assert_eq!(Addr(0x0).diff(Addr(0xFFFF_FFFF)), 1);
}

#[test]
fn addr_text_is_eight_hex_digits() {
    assert_eq!(Addr(0x8040_A6E8).to_string(), "8040A6E8");
    assert_eq!(Addr(0x1F).to_string(), "0000001F");
}

#[test]
fn compose_merges_base_into_last_hop() {
    let a = AddrOffsets(0x10, vec![0x4, 0x8]);
    let b = AddrOffsets(0x20, vec![0xC]);
    let c = a.compose(&b);
    assert_eq!(c.0, 0x10);
    assert_eq!(c.1, vec![0x4, 0x28, 0xC]);
}

#[test]
fn compose_without_hops_adds_bases() {
    let a = AddrOffsets(0x10, vec![]);
    let b = AddrOffsets(0x20, vec![0xC]);
    let c = a.compose(&b);
    assert_eq!(c.0, 0x30);
    assert_eq!(c.1, vec![0xC]);
}

#[test]
fn compose_is_associative_on_values() {
    let a = AddrOffsets(0x10, vec![0x4]);
    let b = AddrOffsets(0x8, vec![]);
    let c = AddrOffsets(0x2, vec![0x1, 0x3]);
    let left = a.compose(&b).compose(&c);
    let right = a.compose(&b.compose(&c));
    assert_eq!(left.0, right.0);
    assert_eq!(left.1, right.1);
    assert_eq!(left.1, vec![0xE, 0x1, 0x3]);
}

#[test]
fn offsets_text() {
    assert_eq!(AddrOffsets(0x1A, vec![0x4, 0xFF]).to_string(), "1A,4,FF");
    assert_eq!(AddrOffsets(0, vec![]).to_string(), "0");
}

#[test]
fn offsets_from_hex() {
    let o = AddrOffsets::from_hex_str("1c").unwrap();
    assert_eq!(o.0, 0x1C);
    assert!(o.1.is_empty());
    assert!(AddrOffsets::from_hex_str("xyz").is_none());
    let v = vec!["10".to_string(), "4".to_string(), "+8".to_string()];
    let o = AddrOffsets::from_hex_strs(&v).unwrap();
    assert_eq!(o.0, 0x10);
    assert_eq!(o.1, vec![4, 8]);
    assert!(AddrOffsets::from_hex_strs(&vec![]).is_none());
    assert!(AddrOffsets::from_hex_strs(&vec!["10".to_string(), "g".to_string()]).is_none());
}

#[test]
fn translate_low_region() {
    assert_eq!(DolphinMemAddr::translate(Addr(0x8000_0000)), Ok(DolphinMemAddr::MEM1(0)));
    let m = DolphinMemAddr::translate(Addr(0x8000_1000)).unwrap();
    assert_eq!(m, DolphinMemAddr::MEM1(0x1000));
    assert_eq!(m.space(), MEM1_SIZE - 0x1000);
    let last = DolphinMemAddr::translate(Addr(0x817F_FFFF)).unwrap();
    assert_eq!(last.space(), 1);
}

#[test]
fn translate_high_region() {
    let m = DolphinMemAddr::translate(Addr(0x9000_0010)).unwrap();
    assert_eq!(m, DolphinMemAddr::MEM2(0x10));
    assert_eq!(m.space(), MEM2_SIZE - 0x10);
    assert_eq!(DolphinMemAddr::translate(Addr(0x93FF_FFFF)).unwrap().space(), 1);
}

#[test]
fn translate_outside_fails() {
    assert!(DolphinMemAddr::translate(Addr(0x8180_0000)).is_err());
    assert!(DolphinMemAddr::translate(Addr(0x7FFF_FFFF)).is_err());
    assert!(DolphinMemAddr::translate(Addr(0x9400_0000)).is_err());
    assert!(DolphinMemAddr::translate(Addr(1000)).is_err());
}

#[test]
fn addr_converts_to_and_from_u32() {
    assert_eq!(Addr::from(0x8000_0004u32), Addr(0x8000_0004));
    assert_eq!(u32::from(Addr(0x8000_0004)), 0x8000_0004);
}
