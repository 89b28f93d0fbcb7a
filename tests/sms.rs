use sup_smsac::addr::Addr;
use sup_smsac::backend::MappedSegment;
use sup_smsac::mem_addr::MEM1_SIZE;
use sup_smsac::sms::{SMSDolphin, SMSDolphinFindOneError, SMSVersion};
use sup_smsac::vt::{get_class, get_class_string, ClassTable};

fn segment(header: &[u8; 8]) -> MappedSegment {
    let mut block = vec![0u8; MEM1_SIZE as usize];
    block[..8].copy_from_slice(header);
    MappedSegment { block }
}

#[test]
fn headers_name_builds() {
    assert_eq!(SMSVersion::from_header(b"GMSJ01\x00\x00"), Some(SMSVersion::GMSJ01));
    assert_eq!(SMSVersion::from_header(b"GMSE01\x00\x30"), Some(SMSVersion::GMSE01));
    assert_eq!(SMSVersion::from_header(b"GMSP01\x00\x00"), Some(SMSVersion::GMSP01));
    assert_eq!(SMSVersion::from_header(b"GMSJ01\x00\x01"), Some(SMSVersion::GMSJ0A));
    assert_eq!(SMSVersion::from_header(b"GMSE01\x00\x00"), None);
    assert_eq!(SMSVersion::from_header(b"GMSJ01"), None);
    assert_eq!(SMSVersion::GMSJ0A.to_string(), "GMSJ0A");
}

#[test]
fn open_recognises_build() {
    let s = SMSDolphin::from_dolphin_memory(segment(b"GMSE01\x00\x30"), 42).ok().unwrap();
    assert_eq!(s.ver(), SMSVersion::GMSE01);
    assert_eq!(s.pid(), 42);
    match SMSDolphin::from_dolphin_memory(segment(b"GALE01\x00\x00"), 1) {
        Err(Some(h)) => assert_eq!(h, b"GALE01\x00\x00".to_vec()),
        _ => panic!("expected an unknown header"),
    }
    let tiny = MappedSegment { block: vec![0u8; 16] };
    assert!(matches!(SMSDolphin::from_dolphin_memory(tiny, 1), Err(None)));
}

#[test]
fn find_one_outcomes() {
    let none: Vec<(u32, Option<MappedSegment>)> = vec![];
    assert_eq!(SMSDolphin::find_one(none).err(), Some(SMSDolphinFindOneError::DolphinNotRunning));
    let closed: Vec<(u32, Option<MappedSegment>)> = vec![(3, None)];
    assert_eq!(SMSDolphin::find_one(closed).err(), Some(SMSDolphinFindOneError::NoGameRunning));
    let other = vec![(3, None), (4, Some(segment(b"GALE01\x00\x00")))];
    assert_eq!(SMSDolphin::find_one(other).err(), Some(SMSDolphinFindOneError::SMSNotRunning));
    let good = vec![(4, Some(segment(b"GALE01\x00\x00"))), (5, Some(segment(b"GMSP01\x00\x00")))];
    let s = SMSDolphin::find_one(good).ok().unwrap();
    assert_eq!(s.pid(), 5);
    assert_eq!(s.ver(), SMSVersion::GMSP01);
    assert_eq!(SMSDolphinFindOneError::NoGameRunning.to_string(), "Dolphin is found, but no game is running");
}

#[test]
fn class_table_lookup() {
    let t = ClassTable::from_hex_entries(vec![
        ("803DA0B8".to_string(), "TMario".to_string()),
        ("803db9a0".to_string(), "TMapObjBase".to_string()),
    ])
    .unwrap();
    assert_eq!(get_class(&t, Addr(0x803D_A0B8)), Some("TMario"));
    assert_eq!(get_class(&t, Addr(0x803D_B9A0)), Some("TMapObjBase"));
    assert_eq!(get_class(&t, Addr(0x1234)), None);
    assert_eq!(get_class_string(&t, Addr(0x803D_A0B8)), "TMario");
    assert_eq!(get_class_string(&t, Addr(0x1234)), "(00001234)");
    assert!(ClassTable::from_hex_entries(vec![("xyz".to_string(), "A".to_string())]).is_none());
}

#[test]
fn session_class_names() {
    let mut s = SMSDolphin::from_dolphin_memory(segment(b"GMSJ01\x00\x00"), 7).ok().unwrap();
    assert_eq!(s.get_class_string(Addr(0x803D_A0B8)), "(803DA0B8)");
    let mut t = ClassTable::new();
    t.push(0x803D_A0B8, "TMario".to_string());
    s.set_classes(t);
    assert_eq!(s.get_class(Addr(0x803D_A0B8)), Some("TMario"));
    assert_eq!(s.get_class_string(Addr(0x803D_A0B8)), "TMario");
}
