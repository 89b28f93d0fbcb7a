use sup_smsac::addr::{Addr, AddrOffsets};
use sup_smsac::api::{parse_hex_payload, read_object, resolve_addr, wrap_u32, ObjectRead};
use sup_smsac::backend::MappedSegment;
use sup_smsac::field_reader::{
    ClassFieldReader, ClassNameReader, F32FieldReader, FieldReader, FieldValue, HexFieldReader,
    PrimitiveFieldReader, StringFieldReader,
};
use sup_smsac::mem_addr::MEM1_SIZE;
use sup_smsac::obj_params::{
    resolve_obj_params, Catalog, ClassDecl, ObjParamsError, ObjParamsOffsetEntry,
    ObjParamsOffsetEntryFormat, ObjectType,
};
use sup_smsac::sms::SMSDolphin;
use sup_smsac::vt::ClassTable;

fn field(offset: AddrOffsets, type_: &str, name: &str) -> ObjParamsOffsetEntry {
    ObjParamsOffsetEntry {
        offset,
        type_: type_.to_string(),
        name: name.to_string(),
        notes: format!("{name} notes"),
        format: None,
        hidden: None,
    }
}

fn class(name: &str, offsets: Vec<ObjParamsOffsetEntry>) -> ClassDecl {
    ClassDecl { name: name.to_string(), offsets }
}

fn catalog(classes: Vec<ClassDecl>) -> Catalog {
    let mut c = Catalog::new();
    for d in classes {
        c.insert(d);
    }
    c
}

fn game(seg: MappedSegment) -> SMSDolphin<MappedSegment> {
    let mut seg = seg;
    seg.block[..8].copy_from_slice(b"GMSJ01\x00\x00");
    SMSDolphin::from_dolphin_memory(seg, 1).ok().unwrap()
}

fn fields_of(t: &ObjectType) -> Vec<(String, u32, Vec<u32>, String, ClassFieldReader)> {
    match t {
        ObjectType::Class(fs) => fs
            .iter()
            .map(|f| (f.name.clone(), f.offset.0, f.offset.1.clone(), f.class.clone(), f.reader))
            .collect(),
        ObjectType::Primitive(_) => panic!("expected a class"),
    }
}

fn text(v: &Option<FieldValue>) -> Option<String> {
    match v {
        Some(FieldValue::Text(s)) => Some(s.clone()),
        _ => None,
    }
}

#[test]
fn builtins_and_pointers() {
    let p = resolve_obj_params(&Catalog::new()).ok().unwrap();
    assert!(matches!(p.get("u16"), Some(ObjectType::Primitive(ClassFieldReader::U16))));
    assert!(matches!(p.get("float"), Some(ObjectType::Primitive(ClassFieldReader::Float))));
    assert!(matches!(p.get("void*"), Some(ObjectType::Primitive(ClassFieldReader::ClassName))));
    assert!(p.get("TMario*").is_none());
    assert!(matches!(p.resolve("TMario*"), ObjectType::Primitive(ClassFieldReader::Address)));
}

#[test]
fn point_bytes_are_read_big_endian() {
    let cat = catalog(vec![class(
        "Point",
        vec![field(AddrOffsets(0, vec![]), "float", "x"), field(AddrOffsets(4, vec![]), "float", "y")],
    )]);
    let p = resolve_obj_params(&cat).ok().unwrap();
    let mut seg = MappedSegment { block: vec![0u8; MEM1_SIZE as usize] };
    seg.block[0x1000..0x1008].copy_from_slice(&[0x00, 0x00, 0x80, 0x3F, 0x00, 0x00, 0x00, 0x40]);
    let d = game(seg);
    match read_object(&d, p.get("Point").unwrap(), Addr(0x8000_1000)) {
        ObjectRead::Fields(v) => {
            let bits: Vec<u32> = v
                .iter()
                .map(|x| match x {
                    Some(FieldValue::F32Bits(b)) => *b,
                    _ => panic!("expected float bits"),
                })
                .collect();
            assert_eq!(bits, vec![0x0000_803F, 0x0000_0040]);
        },
        ObjectRead::Value(_) => panic!("expected fields"),
    }
}

#[test]
fn end_to_end_point_big_endian_floats() {
    let cat = catalog(vec![class(
        "Point",
        vec![field(AddrOffsets(0, vec![]), "float", "x"), field(AddrOffsets(4, vec![]), "float", "y")],
    )]);
    let p = resolve_obj_params(&cat).ok().unwrap();
    let mut seg = MappedSegment { block: vec![0u8; MEM1_SIZE as usize] };
    seg.block[0x1000..0x1008].copy_from_slice(&[0x3F, 0x80, 0x00, 0x00, 0x40, 0x00, 0x00, 0x00]);
    let d = game(seg);
    match read_object(&d, p.get("Point").unwrap(), Addr(0x8000_1000)) {
        ObjectRead::Fields(v) => {
            let vals: Vec<f32> = v
                .iter()
                .map(|x| match x {
                    Some(FieldValue::F32Bits(b)) => f32::from_bits(*b),
                    _ => panic!("expected float bits"),
                })
                .collect();
            assert_eq!(vals, vec![1.0, 2.0]);
        },
        ObjectRead::Value(_) => panic!("expected fields"),
    }
}

#[test]
fn resolving_twice_is_identical() {
    let cat = catalog(vec![class("Node", vec![field(AddrOffsets(0, vec![]), "Node*", "next"), field(AddrOffsets(4, vec![]), "u32", "id")])]);
    let p = resolve_obj_params(&cat).ok().unwrap();
    let a = fields_of(&p.resolve("Node"));
    let b = fields_of(&p.resolve("Node"));
    assert_eq!(a, b);
    assert_eq!(a[0].4, ClassFieldReader::Address);
    assert_eq!(a[1].4, ClassFieldReader::U32);
}

#[test]
fn inlining_composes_chains_and_keeps_owner() {
    let cat = catalog(vec![
        class("Outer", vec![field(AddrOffsets(0x10, vec![0x4]), "Inner", "f")]),
        class("Inner", vec![field(AddrOffsets(0x8, vec![0xC]), "s16", "g")]),
    ]);
    let p = resolve_obj_params(&cat).ok().unwrap();
    let fs = fields_of(p.get("Outer").unwrap());
    assert_eq!(fs.len(), 1);
    assert_eq!(fs[0].0, "g");
    assert_eq!((fs[0].1, fs[0].2.clone()), (0x10, vec![0xC, 0xC]));
    assert_eq!(fs[0].3, "Inner");
    assert_eq!(fs[0].4, ClassFieldReader::S16);
}

#[test]
fn name_templates_take_subfield_names() {
    let cat = catalog(vec![
        class("Outer", vec![field(AddrOffsets(0x10, vec![]), "Vec", "slot*"), field(AddrOffsets(0x20, vec![]), "Vec", "pos[*]")]),
        class("Vec", vec![field(AddrOffsets(0, vec![]), "float", "x"), field(AddrOffsets(4, vec![]), "float", "y")]),
    ]);
    let p = resolve_obj_params(&cat).ok().unwrap();
    let fs = fields_of(p.get("Outer").unwrap());
    let names: Vec<String> = fs.iter().map(|f| f.0.clone()).collect();
    assert_eq!(names, vec!["slotx", "sloty", "pos[x]", "pos[y]"]);
    assert_eq!(fs[3].1, 0x24);
    assert_eq!(fs[3].3, "Vec");
}

#[test]
fn unknown_names_read_addresses() {
    let cat = catalog(vec![class("A", vec![field(AddrOffsets(0, vec![]), "Mystery", "m")])]);
    let p = resolve_obj_params(&cat).ok().unwrap();
    assert!(matches!(p.get("Mystery"), Some(ObjectType::Primitive(ClassFieldReader::Address))));
    assert!(matches!(p.resolve("Mystery"), ObjectType::Primitive(ClassFieldReader::Address)));
    assert!(matches!(p.resolve("Mystery"), ObjectType::Primitive(ClassFieldReader::Address)));
    assert!(p.get("Elsewhere").is_none());
    assert!(matches!(p.resolve("Elsewhere"), ObjectType::Primitive(ClassFieldReader::Address)));
    assert_eq!(fields_of(p.get("A").unwrap())[0].4, ClassFieldReader::Address);
}

#[test]
fn hidden_fields_are_left_out() {
    let mut hidden_first = field(AddrOffsets(0, vec![]), "u8", "h1");
    hidden_first.hidden = Some(true);
    let mut hidden_last = field(AddrOffsets(8, vec![]), "Inner", "h2");
    hidden_last.hidden = Some(true);
    let mut shown = field(AddrOffsets(4, vec![]), "u32", "v");
    shown.hidden = Some(false);
    let cat = catalog(vec![
        class("C", vec![hidden_first, shown, hidden_last]),
        class("Inner", vec![field(AddrOffsets(0, vec![]), "u8", "i")]),
    ]);
    let p = resolve_obj_params(&cat).ok().unwrap();
    let names: Vec<String> = fields_of(p.get("C").unwrap()).iter().map(|f| f.0.clone()).collect();
    assert_eq!(names, vec!["v"]);
}

#[test]
fn format_overrides() {
    let mut hex16 = field(AddrOffsets(0, vec![]), "u16", "flags");
    hex16.format = ObjParamsOffsetEntryFormat::parse("hex");
    let mut hex_float = field(AddrOffsets(4, vec![]), "float", "f");
    hex_float.format = Some(ObjParamsOffsetEntryFormat::Hex);
    let cat = catalog(vec![class("C", vec![hex16, hex_float])]);
    let p = resolve_obj_params(&cat).ok().unwrap();
    let fs = fields_of(p.get("C").unwrap());
    assert_eq!(fs[0].4, ClassFieldReader::Hex(2));
    assert_eq!(fs[1].4, ClassFieldReader::Float);
    assert_eq!(fs[0].3, "C");
    assert!(ObjParamsOffsetEntryFormat::parse("dec").is_none());
    assert_eq!(ObjParamsOffsetEntryFormat::Hex.to_string(), "hex");
    assert!(ObjParamsOffsetEntryFormat::none().is_none());
}

#[test]
fn self_inlining_is_an_error() {
    let cat = catalog(vec![
        class("A", vec![field(AddrOffsets(0, vec![]), "B", "b")]),
        class("B", vec![field(AddrOffsets(0, vec![]), "A", "a")]),
    ]);
    match resolve_obj_params(&cat) {
        Err(ObjParamsError::InlineCycle(n)) => assert!(n == "A" || n == "B"),
        Ok(_) => panic!("expected a cycle"),
    }
}

#[test]
fn later_declarations_replace_earlier() {
    let cat = catalog(vec![
        class("A", vec![field(AddrOffsets(0, vec![]), "u8", "old")]),
        class("A", vec![field(AddrOffsets(0, vec![]), "u8", "new")]),
    ]);
    assert_eq!(cat.len(), 1);
    assert_eq!(cat.get("A").unwrap()[0].name, "new");
    let p = resolve_obj_params(&cat).ok().unwrap();
    assert_eq!(fields_of(p.get("A").unwrap())[0].0, "new");
}

#[test]
fn readers_render_values() {
    let mut seg = MappedSegment { block: vec![0u8; MEM1_SIZE as usize] };
    seg.block[0x100..0x104].copy_from_slice(&[0xFF, 0xFF, 0xFF, 0xF6]);
    seg.block[0x104..0x108].copy_from_slice(&[0x80, 0x00, 0x02, 0x00]);
    seg.block[0x200..0x204].copy_from_slice(&[0x80, 0x3D, 0xA0, 0xB8]);
    seg.block[0x300..0x304].copy_from_slice(b"Hi!\0");
    seg.block[0x108..0x10C].copy_from_slice(&[0x80, 0x00, 0x03, 0x00]);
    let mut d = game(seg);
    let mut t = ClassTable::new();
    t.push(0x803D_A0B8, "TMario".to_string());
    d.set_classes(t);
    let at = Addr(0x8000_0100);
    assert_eq!(text(&PrimitiveFieldReader::<i32>::new().read(&d, at)), Some("-10".to_string()));
    assert_eq!(text(&PrimitiveFieldReader::<u32>::new().read(&d, at)), Some("4294967286".to_string()));
    assert_eq!(text(&PrimitiveFieldReader::<u8>::new().read(&d, at)), Some("255".to_string()));
    assert_eq!(text(&PrimitiveFieldReader::<i8>::new().read(&d, at)), Some("-1".to_string()));
    assert_eq!(text(&PrimitiveFieldReader::<Addr>::new().read(&d, at)), Some("FFFFFFF6".to_string()));
    assert_eq!(text(&HexFieldReader(2).read(&d, at)), Some("FFFF".to_string()));
    assert_eq!(text(&ClassNameReader.read(&d, Addr(0x8000_0104))), Some("TMario".to_string()));
    assert_eq!(text(&ClassNameReader.read(&d, Addr(0x8000_0108))), Some("(48692100)".to_string()));
    assert_eq!(text(&StringFieldReader.read(&d, Addr(0x8000_0108))), Some("Hi!".to_string()));
    assert!(matches!(F32FieldReader.read(&d, at), Some(FieldValue::F32Bits(0xFFFF_FFF6))));
    assert!(PrimitiveFieldReader::<u32>::new().read(&d, Addr(0x817F_FFFE)).is_none());
    assert_eq!(text(&ClassFieldReader::S16.read(&d, at)), Some("-1".to_string()));
}

#[test]
fn request_paths_and_payloads() {
    let mut seg = MappedSegment { block: vec![0u8; MEM1_SIZE as usize] };
    seg.block[0x10..0x14].copy_from_slice(&[0x80, 0x00, 0x02, 0x00]);
    assert_eq!(resolve_addr(&seg, 0x8000_0010, &vec![]), Some(Addr(0x8000_0010)));
    assert_eq!(resolve_addr(&seg, 0x8000_0010, &vec![-0x10]), Some(Addr(0x8000_01F0)));
    assert_eq!(resolve_addr(&seg, 0x1_8000_0010, &vec![4]), Some(Addr(0x8000_0204)));
    assert_eq!(resolve_addr(&seg, 0x10, &vec![4]), None);
    assert_eq!(wrap_u32(-1), 0xFFFF_FFFF);
    assert_eq!(wrap_u32(0x1_0000_0005), 5);
    assert_eq!(parse_hex_payload("00ff10"), Some(vec![0x00, 0xFF, 0x10]));
    assert_eq!(parse_hex_payload(""), Some(vec![]));
    assert_eq!(parse_hex_payload("abc"), None);
    assert_eq!(parse_hex_payload("zz"), None);
}

#[test]
fn direct_self_inlining_is_an_error() {
    let cat = catalog(vec![
        class("Ok", vec![field(AddrOffsets(0, vec![]), "u8", "v")]),
        class("Loop", vec![field(AddrOffsets(0, vec![]), "u8", "v"), field(AddrOffsets(4, vec![]), "Loop", "again")]),
    ]);
    match resolve_obj_params(&cat) {
        Err(ObjParamsError::InlineCycle(n)) => assert_eq!(n, "Loop"),
        Ok(_) => panic!("expected a cycle"),
    }
    assert!(cat.get("Missing").is_none());
}

#[test]
fn owners_survive_several_levels_of_inlining() {
    let cat = catalog(vec![
        class("Top", vec![field(AddrOffsets(0x100, vec![]), "Mid", "m*")]),
        class("Mid", vec![field(AddrOffsets(0x10, vec![0x4]), "Leaf", "_*"), field(AddrOffsets(0x20, vec![]), "s32", "n")]),
        class("Leaf", vec![field(AddrOffsets(0x8, vec![]), "u16", "k")]),
    ]);
    let p = resolve_obj_params(&cat).ok().unwrap();
    let fs = fields_of(p.get("Top").unwrap());
    assert_eq!(fs.len(), 2);
    assert_eq!(fs[0].0, "m_k");
    assert_eq!((fs[0].1, fs[0].2.clone()), (0x110, vec![0xC]));
    assert_eq!(fs[0].3, "Leaf");
    assert_eq!(fs[1].0, "mn");
    assert_eq!((fs[1].1, fs[1].2.clone()), (0x120, vec![]));
    assert_eq!(fs[1].3, "Mid");
}

#[test]
fn only_resolved_unknown_names_become_entries() {
    let mut hidden = field(AddrOffsets(0, vec![]), "Ghost", "g");
    hidden.hidden = Some(true);
    let mut formatted = field(AddrOffsets(4, vec![]), "u8", "f");
    formatted.format = Some(ObjParamsOffsetEntryFormat::Hex);
    let cat = catalog(vec![class("C", vec![hidden, formatted, field(AddrOffsets(8, vec![]), "Seen", "s")])]);
    let p = resolve_obj_params(&cat).ok().unwrap();
    assert!(p.get("Seen").is_some());
    assert!(p.get("Ghost").is_none());
    assert!(matches!(p.resolve("Ghost"), ObjectType::Primitive(ClassFieldReader::Address)));
}

#[test]
fn removing_hidden_declarations_changes_nothing() {
    let build = |with_hidden: bool| {
        let mut outer = vec![field(AddrOffsets(0, vec![]), "Inner", "in*")];
        let mut inner = vec![field(AddrOffsets(4, vec![]), "u16", "a")];
        if with_hidden {
            let mut h = field(AddrOffsets(8, vec![]), "Secret", "h");
            h.hidden = Some(true);
            inner.insert(0, h);
            let mut h2 = field(AddrOffsets(0xC, vec![]), "Inner", "h2");
            h2.hidden = Some(true);
            outer.push(h2);
        }
        resolve_obj_params(&catalog(vec![class("Outer", outer), class("Inner", inner)])).ok().unwrap()
    };
    let (a, b) = (build(true), build(false));
    assert_eq!(fields_of(a.get("Outer").unwrap()), fields_of(b.get("Outer").unwrap()));
    assert_eq!(fields_of(a.get("Inner").unwrap()), fields_of(b.get("Inner").unwrap()));
    assert!(a.get("Secret").is_none());
}
