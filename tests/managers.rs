use sup_smsac::addr::Addr;
use sup_smsac::api::{read_managees, read_managers};
use sup_smsac::backend::MappedSegment;
use sup_smsac::mem_addr::MEM1_SIZE;
use sup_smsac::sms::{SMSDolphin, SMSVersion};
use sup_smsac::vt::ClassTable;

fn put(block: &mut [u8], at: u32, value: u32) {
    let o = (at - 0x8000_0000) as usize;
    block[o..o + 4].copy_from_slice(&value.to_be_bytes());
}

fn world() -> SMSDolphin<MappedSegment> {
    let mut block = vec![0u8; MEM1_SIZE as usize];
    block[..8].copy_from_slice(b"GMSJ01\x00\x00");
    put(&mut block, 0x8040_A6E8, 0x8000_1000);
    put(&mut block, 0x8000_1014, 2);
    put(&mut block, 0x8000_1018, 0x8000_2000);
    put(&mut block, 0x8000_2000, 0x8000_2100);
    put(&mut block, 0x8000_2008, 0x8000_3000);
    put(&mut block, 0x8000_2108, 0x8000_3100);
    put(&mut block, 0x8000_3000, 0x803D_A0B8);
    put(&mut block, 0x8000_3004, 0x8000_3800);
    put(&mut block, 0x8000_3014, 7);
    put(&mut block, 0x8000_3100, 0x1234);
    put(&mut block, 0x8000_3114, 0xFFFF_FFFF);
    block[0x3800..0x3806].copy_from_slice(b"Mario\0");
    put(&mut block, 0x8000_4014, 2);
    put(&mut block, 0x8000_4018, 0x8000_5000);
    put(&mut block, 0x8000_5000, 0x8000_3000);
    put(&mut block, 0x8000_5004, 0x8000_3100);
    let mut d = SMSDolphin::from_dolphin_memory(MappedSegment { block }, 9).ok().unwrap();
    let mut t = ClassTable::new();
    t.push(0x803D_A0B8, "TMario".to_string());
    d.set_classes(t);
    d
}

#[test]
fn conductor_pointers_per_build() {
    assert_eq!(SMSVersion::GMSJ01.conductor_pointer(), Addr(0x8040_A6E8));
    assert_eq!(SMSVersion::GMSE01.conductor_pointer(), Addr(0x8040_D110));
    assert_eq!(SMSVersion::GMSP01.conductor_pointer(), Addr(0x8040_4870));
    assert_eq!(SMSVersion::GMSJ0A.conductor_pointer(), Addr(0x803F_E048));
}

#[test]
fn managers_follow_the_node_chain() {
    let d = world();
    let list = read_managers(&d).unwrap();
    assert_eq!(list.len(), 2);
    assert_eq!(list[0].obj, Addr(0x8000_3000));
    assert_eq!(list[0].class.as_deref(), Some("TMario"));
    assert_eq!(list[0].name.as_deref(), Some("Mario"));
    assert_eq!(list[0].id, Some(7));
    assert_eq!(list[1].obj, Addr(0x8000_3100));
    assert_eq!(list[1].class.as_deref(), Some("(00001234)"));
    assert_eq!(list[1].name, None);
    assert_eq!(list[1].id, Some(-1));
}

#[test]
fn managees_come_from_the_pointer_array() {
    let d = world();
    let list = read_managees(&d, Addr(0x8000_4000)).unwrap();
    assert_eq!(list.len(), 2);
    assert_eq!(list[0].obj, Addr(0x8000_3000));
    assert_eq!(list[0].name.as_deref(), Some("Mario"));
    assert_eq!(list[0].id, None);
    assert_eq!(list[1].obj, Addr(0x8000_3100));
    assert!(read_managees(&d, Addr(0x10)).is_none());
}
