use vstd::prelude::*;
use crate::addr::{add32, Addr};
use crate::dolphin::Dolphin;
use crate::field_reader::{produced_by, reader_width, reads_in_place, FieldValue};
use crate::mem_addr::{fits, spec_translate};
use crate::obj_params::{ClassField, ObjectType};
use crate::sms::{SMSDolphin, SMSVersion};
use crate::text::{parse_hex_spec, parse_hex_u32};
use vstd::string::*;

verus! {

/// What reading a resolved type at an address gives: one value for a
/// primitive, or one value per field for a class. A value is `None` where
/// its address could not be reached or read.
pub enum ObjectRead {
    Value(Option<FieldValue>),
    Fields(Vec<Option<FieldValue>>),
}

/// Reads each field of a class that starts at `addr`.
pub fn read_fields<D: Dolphin>(d: &SMSDolphin<D>, fields: &Vec<ClassField>, addr: Addr) -> (r: Vec<Option<FieldValue>>)
    ensures
        r@.len() == fields@.len(),
        forall|i: int| 0 <= i < fields@.len() && fields@[i].offset.1@.len() == 0 && !fits(
            add32(addr.0, fields@[i].offset.0),
            reader_width(fields@[i].reader),
        ) ==> #[trigger] r@[i] is None,
        forall|i: int| 0 <= i < fields@.len() ==> (#[trigger] r@[i] matches Some(v) ==> produced_by(
            fields@[i].reader,
            v,
            d.spec_classes(),
        )),
        forall|i: int| 0 <= i < fields@.len() && fields@[i].offset.1@.len() == 0 && reads_in_place(fields@[i].reader)
            && fits(add32(addr.0, fields@[i].offset.0), reader_width(fields@[i].reader)) && d.serves(
            spec_translate(add32(addr.0, fields@[i].offset.0))->Some_0,
        ) ==> #[trigger] r@[i] is Some,
{
    let mut out: Vec<Option<FieldValue>> = Vec::new();
    let mut i: usize = 0;
    while i < fields.len()
        invariant
            i <= fields@.len(),
            out@.len() == i,
            forall|k: int| 0 <= k < i && fields@[k].offset.1@.len() == 0 && !fits(
                add32(addr.0, fields@[k].offset.0),
                reader_width(fields@[k].reader),
            ) ==> #[trigger] out@[k] is None,
            forall|k: int| 0 <= k < i ==> (#[trigger] out@[k] matches Some(v) ==> produced_by(
                fields@[k].reader,
                v,
                d.spec_classes(),
            )),
            forall|k: int| 0 <= k < i && fields@[k].offset.1@.len() == 0 && reads_in_place(fields@[k].reader)
                && fits(add32(addr.0, fields@[k].offset.0), reader_width(fields@[k].reader)) && d.serves(
                spec_translate(add32(addr.0, fields@[k].offset.0))->Some_0,
            ) ==> #[trigger] out@[k] is Some,
        decreases fields@.len() - i,
    {
        let f = &fields[i];
        let v = match d.resolve_addr_offsets(addr, &f.offset) {
            Some(a) => f.reader.read(d, a),
            None => None,
        };
        out.push(v);
        i += 1;
    }
    out
}

/// Reads a resolved type at `addr`.
pub fn read_object<D: Dolphin>(d: &SMSDolphin<D>, t: &ObjectType, addr: Addr) -> (r: ObjectRead)
    ensures
        t is Primitive <==> r is Value,
        r matches ObjectRead::Fields(v) ==> t matches ObjectType::Class(fs) && v@.len() == fs@.len(),
        (t matches ObjectType::Primitive(p) && !fits(addr.0, reader_width(*p))) ==> r matches ObjectRead::Value(None),
        (t matches ObjectType::Primitive(p) && reads_in_place(*p) && fits(addr.0, reader_width(*p)) && d.serves(
            spec_translate(addr.0)->Some_0,
        )) ==> r matches ObjectRead::Value(Some(_)),
        match t {
            ObjectType::Primitive(p) => match r {
                ObjectRead::Value(Some(v)) => produced_by(*p, v, d.spec_classes()),
                _ => true,
            },
            ObjectType::Class(fs) => match r {
                ObjectRead::Fields(vs) => (forall|i: int|
                    0 <= i < fs@.len() ==> (#[trigger] vs@[i] matches Some(v) ==> produced_by(
                        fs@[i].reader,
                        v,
                        d.spec_classes(),
                    ))) && (forall|i: int|
                    0 <= i < fs@.len() && fs@[i].offset.1@.len() == 0 && reads_in_place(fs@[i].reader) && fits(
                        add32(addr.0, fs@[i].offset.0),
                        reader_width(fs@[i].reader),
                    ) && d.serves(spec_translate(add32(addr.0, fs@[i].offset.0))->Some_0) ==> #[trigger] vs@[i] is Some),
                _ => true,
            },
        },
{
    match t {
        ObjectType::Primitive(p) => ObjectRead::Value(p.read(d, addr)),
        ObjectType::Class(fs) => ObjectRead::Fields(read_fields(d, fs, addr)),
    }
}

/// `x` modulo 2^32.
pub open spec fn wrap32(x: int) -> u32 {
    (((x % 0x1_0000_0000) + 0x1_0000_0000) % 0x1_0000_0000) as u32
}

/// `x` modulo 2^32, as a cast to `u32` gives it.
pub fn wrap_u32(x: i64) -> (r: u32)
    ensures
        r == wrap32(x as int),
{
    let m: i64 = x % 0x1_0000_0000;
    let p: i64 = (m + 0x1_0000_0000) % 0x1_0000_0000;
    p as u32
}

/// Follows a path given as a base address and signed offsets: for each
/// offset, read the pointer at the current address and add the offset. Base
/// and offsets are taken modulo 2^32. `None` when a pointer cannot be read.
pub fn resolve_addr<D: Dolphin>(d: &D, base: u64, offsets: &Vec<i64>) -> (r: Option<Addr>)
    ensures
        offsets@.len() == 0 ==> r == Some(Addr(wrap32(base as int))),
        offsets@.len() > 0 && !fits(wrap32(base as int), 4) ==> r is None,
        offsets@.len() > 0 && r is Some ==> exists|p: u32| r->Some_0.0 == #[trigger] add32(p, wrap32(offsets@.last() as int)),
{
    let mut addr = Addr((base % 0x1_0000_0000) as u32);
    assert(addr.0 == wrap32(base as int));
    let mut i: usize = 0;
    let ghost mut lastp: u32 = 0;
    while i < offsets.len()
        invariant
            i <= offsets@.len(),
            i == 0 ==> addr.0 == wrap32(base as int),
            i > 0 ==> fits(wrap32(base as int), 4),
            i > 0 ==> addr.0 == add32(lastp, wrap32(offsets@[i - 1] as int)),
        decreases offsets@.len() - i,
    {
        match d.read::<Addr>(addr) {
            Some(p) => {
                addr = p.add(wrap_u32(offsets[i]));
                proof {
                    lastp = p.0;
                }
            },
            None => {
                return None;
            },
        }
        i += 1;
    }
    assert(offsets@.len() > 0 ==> offsets@[i - 1] == offsets@.last());
    Some(addr)
}

/// The bytes that a string of hexadecimal pairs spells: each pair parsed as a
/// number in hexadecimal. `None` for an odd length or a malformed pair.
pub open spec fn hex_payload(s: Seq<char>) -> Option<Seq<u8>>
    decreases s.len(),
{
    if s.len() == 0 {
        Some(Seq::empty())
    } else if s.len() < 2 {
        None
    } else {
        match (hex_payload(s.subrange(0, s.len() - 2)), parse_hex_spec(s.subrange(s.len() - 2, s.len() as int))) {
            (Some(b), Some(v)) => if v < 256 {
                Some(b.push(v as u8))
            } else {
                None
            },
            _ => None,
        }
    }
}

/// Parses a payload written as hexadecimal pairs, e.g. `"00FF"`.
pub fn parse_hex_payload(s: &str) -> (r: Option<Vec<u8>>)
    ensures
        r matches Some(b) ==> hex_payload(s@) == Some(b@),
        r is None ==> hex_payload(s@) is None,
{
    let n = s.unicode_len();
    if n % 2 == 1 {
        proof {
            lemma_odd_payload(s@);
        }
        return None;
    }
    let mut out: Vec<u8> = Vec::new();
    let mut i: usize = 0;
    while i < n
        invariant
            n == s@.len(),
            n % 2 == 0,
            i <= n,
            i % 2 == 0,
            hex_payload(s@.subrange(0, i as int)) == Some(out@),
        decreases n - i,
    {
        let pair = s.substring_char(i, i + 2);
        let ghost next = s@.subrange(0, i + 2);
        assert(next.subrange(0, i as int) =~= s@.subrange(0, i as int));
        assert(next.subrange(i as int, i + 2) =~= pair@);
        match parse_hex_u32(pair) {
            Some(v) => {
                if v >= 256 {
                    proof {
                        lemma_payload_prefix_none(s@, (i + 2) as nat);
                    }
                    return None;
                }
                out.push(v as u8);
            },
            None => {
                proof {
                    lemma_payload_prefix_none(s@, (i + 2) as nat);
                }
                return None;
            },
        }
        i += 2;
    }
    assert(s@.subrange(0, n as int) =~= s@);
    Some(out)
}

proof fn lemma_odd_payload(s: Seq<char>)
    requires
        s.len() % 2 == 1,
    ensures
        hex_payload(s) is None,
    decreases s.len(),
{
    if s.len() >= 2 {
        lemma_odd_payload(s.subrange(0, s.len() - 2));
    }
}

proof fn lemma_payload_prefix_none(s: Seq<char>, k: nat)
    requires
        k <= s.len(),
        k % 2 == 0,
        s.len() % 2 == 0,
        hex_payload(s.subrange(0, k as int)) is None,
    ensures
        hex_payload(s) is None,
    decreases s.len() - k,
{
    if k < s.len() {
        let t = s.subrange(0, (k + 2) as int);
        assert(t.subrange(0, k as int) =~= s.subrange(0, k as int));
        lemma_payload_prefix_none(s, k + 2);
    } else {
        assert(s.subrange(0, k as int) =~= s);
    }
}

/// Where a build keeps the pointer to its conductor, the object that lists
/// the managers.
pub open spec fn conductor_pointer(v: SMSVersion) -> u32 {
    match v {
        SMSVersion::GMSJ01 => 0x8040_A6E8,
        SMSVersion::GMSE01 => 0x8040_D110,
        SMSVersion::GMSP01 => 0x8040_4870,
        SMSVersion::GMSJ0A => 0x803F_E048,
    }
}

impl SMSVersion {
    /// Where this build keeps the pointer to its conductor.
    pub fn conductor_pointer(&self) -> (r: Addr)
        ensures
            r.0 == conductor_pointer(*self),
    {
        match self {
            SMSVersion::GMSJ01 => Addr(0x8040_A6E8),
            SMSVersion::GMSE01 => Addr(0x8040_D110),
            SMSVersion::GMSP01 => Addr(0x8040_4870),
            SMSVersion::GMSJ0A => Addr(0x803F_E048),
        }
    }
}

/// One object listed by a manager or by the conductor: its address, the name
/// of its class, its own name, and, for managers, its id.
pub struct ObjectEntry {
    pub obj: Addr,
    pub class: Option<String>,
    pub name: Option<String>,
    pub id: Option<i32>,
}

/// Reads the class name and the name of the object at `obj`: the object
/// starts with its type-descriptor address, then a pointer to its name.
fn describe<D: Dolphin>(d: &SMSDolphin<D>, obj: Addr, with_id: bool) -> (r: ObjectEntry)
    ensures
        r.obj == obj,
        !with_id ==> r.id is None,
{
    let class = match d.read::<Addr>(obj) {
        Some(vt) => Some(d.get_class_string(vt)),
        None => None,
    };
    let name = match d.read::<Addr>(obj.add(4)) {
        Some(a) => d.read_str(a),
        None => None,
    };
    let id = if with_id {
        d.read::<i32>(obj.add(0x14))
    } else {
        None
    };
    ObjectEntry { obj, class, name, id }
}

/// Lists the managers that the conductor holds: the conductor's child list
/// (a count and the first node, 0x14 bytes into it) is a chain of nodes, each
/// holding the next node, the previous one and a manager. `None` when the
/// conductor or a node cannot be read.
pub fn read_managers<D: Dolphin>(d: &SMSDolphin<D>) -> (r: Option<Vec<ObjectEntry>>)
    ensures
        !fits(conductor_pointer(d.spec_ver()), 4) ==> r is None,
{
    let conductor = match d.read::<Addr>(d.ver().conductor_pointer()) {
        Some(a) => a,
        None => {
            return None;
        },
    };
    let count = match d.read::<u32>(conductor.add(0x14)) {
        Some(c) => c,
        None => {
            return None;
        },
    };
    let mut next = match d.read::<Addr>(conductor.add(0x18)) {
        Some(a) => a,
        None => {
            return None;
        },
    };
    let mut out: Vec<ObjectEntry> = Vec::new();
    let mut i: u32 = 0;
    while i < count
        invariant
            i <= count,
            out@.len() == i,
        decreases count - i,
    {
        let link = match d.read::<Addr>(next) {
            Some(a) => a,
            None => {
                return None;
            },
        };
        let obj = match d.read::<Addr>(next.add(8)) {
            Some(a) => a,
            None => {
                return None;
            },
        };
        out.push(describe(d, obj, true));
        next = link;
        i += 1;
    }
    Some(out)
}

/// Lists the objects that the manager at `manager` holds: its child list, a
/// count and an array of object pointers, lies 0x14 bytes into it. `None`
/// when the list or a pointer in it cannot be read.
pub fn read_managees<D: Dolphin>(d: &SMSDolphin<D>, manager: Addr) -> (r: Option<Vec<ObjectEntry>>)
    ensures
        !fits(add32(manager.0, 0x14), 4) ==> r is None,
        r is Some ==> fits(add32(manager.0, 0x14), 4) && fits(add32(manager.0, 0x18), 4),
        r matches Some(v) ==> forall|i: int| 0 <= i < v@.len() ==> (#[trigger] v@[i]).id is None,
{
    let count = match d.read::<u32>(manager.add(0x14)) {
        Some(c) => c,
        None => {
            return None;
        },
    };
    let array = match d.read::<Addr>(manager.add(0x18)) {
        Some(a) => a,
        None => {
            return None;
        },
    };
    let mut out: Vec<ObjectEntry> = Vec::new();
    let mut i: u32 = 0;
    while i < count
        invariant
            i <= count,
            out@.len() == i,
            forall|k: int| 0 <= k < out@.len() ==> (#[trigger] out@[k]).id is None,
        decreases count - i,
    {
        let obj = match d.read::<Addr>(array.add(i.wrapping_mul(4))) {
            Some(a) => a,
            None => {
                return None;
            },
        };
        out.push(describe(d, obj, false));
        i += 1;
    }
    Some(out)
}

} // verus!
